use numora::numeral::float_debug_chars;

fn debug_text(text: &str) -> String {
    let chars: Vec<char> = text.chars().collect();
    float_debug_chars(&chars).into_iter().collect()
}

#[test]
fn numbers_are_named_as_their_f64_debug_form() {
    let cases = [
        "3", "007", "3.50", ".5", "5.", "0", "000.000", "100", "2.25", "0.0001", "0.00001",
        "0.000012", "0.00012", "10000000000000000", "1234567890123456", "12300000000000000000",
        "123456789012345", "0.1", "42.000",
    ];
    for text in cases {
        let value: f64 = text.parse().unwrap();
        assert_eq!(debug_text(text), format!("{:?}", value), "for {}", text);
    }
}

#[test]
fn number_forms_by_hand() {
    assert_eq!(debug_text("3"), "3.0");
    assert_eq!(debug_text(".5"), "0.5");
    assert_eq!(debug_text("0.00001"), "1e-5");
    assert_eq!(debug_text("12300000000000000000"), "1.23e19");
}
