// The expansion of `@include` lines is driven here over files held in
// memory: each requested path is joined to its base, looked up, checked
// against the files being expanded, and entered.

use numora::error::Numora;
use numora::includes::resolver::{IncludeExpansion, IncludeStep};

fn expand_with_files(source: &str, base: &str, files: &[(&str, &str)]) -> Result<String, Numora> {
    let mut expansion = IncludeExpansion::new(source, base.to_string());

    loop {
        match expansion.next()? {
            IncludeStep::Done(expanded) => return Ok(expanded),
            IncludeStep::Resolve { base, path } => {
                let key = format!("{}/{}", base, path);
                let contents = files
                    .iter()
                    .find(|(name, _)| *name == key)
                    .map(|(_, text)| *text)
                    .ok_or_else(|| Numora::EvaluationError(format!("Failed to resolve include '{}'", path)))?;

                expansion.check_cycle(&key)?;

                let parent = match key.rfind('/') {
                    Some(slash) => key[..slash].to_string(),
                    None => base,
                };
                expansion.enter(key, parent, contents);
            }
        }
    }
}

#[test]
fn expands_single_include() {
    let files = [(
        "/single/common.mth",
        r#"
given:
    x = 2
"#,
    )];

    let source = r#"
@run calculator
@include "common.mth"

formula:
    result = x + 3

find:
    result
"#;

    let expanded = expand_with_files(source, "/single", &files).unwrap();

    assert!(expanded.contains("x = 2"));
    assert!(expanded.contains("result = x + 3"));
}

#[test]
fn expands_nested_include() {
    let files = [
        (
            "/nested/math/vars.mth",
            r#"
given:
    x = 10
"#,
        ),
        (
            "/nested/common.mth",
            r#"
@include "math/vars.mth"
"#,
        ),
    ];

    let source = r#"
@run calculator
@include "common.mth"

formula:
    result = x + 5

find:
    result
"#;

    let expanded = expand_with_files(source, "/nested", &files).unwrap();

    assert!(expanded.contains("x = 10"));
    assert!(expanded.contains("result = x + 5"));
}

#[test]
fn rejects_bad_include_syntax() {
    let source = r#"
@run calculator
@include common.mth
"#;

    let result = expand_with_files(source, "/bad_syntax", &[]);

    assert!(result.is_err());
}

#[test]
fn rejects_circular_include() {
    let files = [
        (
            "/circular/a.mth",
            r#"
@include "b.mth"
"#,
        ),
        (
            "/circular/b.mth",
            r#"
@include "a.mth"
"#,
        ),
    ];

    let source = r#"
@run calculator
@include "a.mth"
"#;

    let result = expand_with_files(source, "/circular", &files);

    assert!(result.is_err());
    assert_eq!(
        result.unwrap_err().to_string(),
        "Evaluation Error: Circular include detected: /circular/a.mth"
    );
}
