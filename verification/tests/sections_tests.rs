use numora::includes::{merge_sources, MathSections};

#[test]
fn merges_duplicate_given_sections() {
    let a = r#"
@run calculator

given:
    x = 2
"#;

    let b = r#"
given:
    y = 3

formula:
    result = x + y

find:
    result
"#;

    let merged = merge_sources(&[a.to_string(), b.to_string()]).unwrap();

    assert!(merged.contains("@run calculator"));
    assert!(merged.contains("given:"));
    assert!(merged.contains("x = 2"));
    assert!(merged.contains("y = 3"));
    assert_eq!(merged.matches("given:").count(), 1);
}

#[test]
fn merges_formula_sections() {
    let a = r#"
@run calculator

formula:
    a = 1 + 2
"#;

    let b = r#"
formula:
    b = a + 3

find:
    b
"#;

    let merged = merge_sources(&[a.to_string(), b.to_string()]).unwrap();

    assert_eq!(merged.matches("formula:").count(), 1);
    assert!(merged.contains("a = 1 + 2"));
    assert!(merged.contains("b = a + 3"));
}

#[test]
fn merges_simplify_sections() {
    let a = r#"
@run algebra steps

simplify:
    a = x + 0
"#;

    let b = r#"
simplify:
    b = 1 * y

find:
    a
    b
"#;

    let merged = merge_sources(&[a.to_string(), b.to_string()]).unwrap();

    assert_eq!(merged.matches("simplify:").count(), 1);
    assert!(merged.contains("a = x + 0"));
    assert!(merged.contains("b = 1 * y"));
}

#[test]
fn keeps_first_run_line() {
    let a = r#"
@run algebra steps

given:
    x = 2
"#;

    let b = r#"
@run calculator

given:
    y = 3
"#;

    let merged = merge_sources(&[a.to_string(), b.to_string()]).unwrap();

    assert!(merged.contains("@run algebra steps"));
    assert!(!merged.contains("@run calculator"));
}

#[test]
fn merged_source_has_exact_layout() {
    let a = "@run calculator\n\ngiven:\n    x = 2   \n";
    let b = "given:\n    y = 3\n\nfind:\n    x\n";

    let merged = merge_sources(&[a.to_string(), b.to_string()]).unwrap();

    assert_eq!(
        merged,
        "@run calculator\n\ngiven:\n    x = 2\n    y = 3\n\nfind:\n    x"
    );
}

#[test]
fn merging_in_two_batches_matches_merging_at_once() {
    let a = "given:\n    a = 1\n".to_string();
    let b = "@run steps\nformula:\n    f = a\n".to_string();
    let c = "given:\n    c = 3\nfind:\n    f\n".to_string();

    let all = merge_sources(&[a.clone(), b.clone(), c.clone()]).unwrap();
    let first = merge_sources(&[a, b]).unwrap();
    let both = merge_sources(&[first, c]).unwrap();

    assert_eq!(all, both);
}

#[test]
fn merging_nothing_gives_empty_source() {
    assert_eq!(merge_sources(&[]).unwrap(), "");
}

#[test]
fn sections_round_trip_through_source() {
    let source = "@run solve\n\nequation:\n    x + 3 = 10\n\nsolve:\n    x";
    let sections = MathSections::from_source(source).unwrap();

    assert_eq!(sections.to_source(), source);
}

#[test]
fn blank_sections_are_left_out() {
    let source = "given:\n\n   \nformula:\n    f = 1\n";
    let sections = MathSections::from_source(source).unwrap();

    assert_eq!(sections.to_source(), "formula:\n    f = 1");
}

#[test]
fn merge_appends_other_sections() {
    let mut a = MathSections::from_source("given:\n    x = 1\n").unwrap();
    let b = MathSections::from_source("@run steps\ngiven:\n    y = 2\n").unwrap();

    a.merge(b);

    assert_eq!(a.to_source(), "@run steps\n\ngiven:\n    x = 1\n    y = 2");
}
