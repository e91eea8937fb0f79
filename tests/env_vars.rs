use artifetch::env::{replace_vars, replace_vars_limited, Error};

fn vars(pairs: &[(&str, &str)]) -> Vec<(String, String)> {
    pairs.iter().map(|(k, v)| (k.to_string(), v.to_string())).collect()
}

fn expand(s: &str, pairs: &[(&str, &str)]) -> Result<String, Error> {
    let mut s = s.to_string();
    replace_vars(&mut s, &vars(pairs)).map(|_| s)
}

#[test]
fn bare_variable_is_replaced() {
    assert_eq!(expand("$X", &[("X", "ab")]).ok(), Some("ab".to_string()));
}

#[test]
fn braced_variable_is_replaced() {
    assert_eq!(expand("${X}", &[("X", "ab")]).ok(), Some("ab".to_string()));
}

#[test]
fn adjacent_variables_are_replaced() {
    assert_eq!(expand("$X$Y", &[("X", "a"), ("Y", "b")]).ok(), Some("ab".to_string()));
}

#[test]
fn surrounding_text_is_kept() {
    assert_eq!(
        expand("host:${PORT}/x-$NAME.y", &[("PORT", "80"), ("NAME", "n_1")]).ok(),
        Some("host:80/x-n_1.y".to_string())
    );
}

#[test]
fn unterminated_brace_is_an_error() {
    assert!(matches!(expand("${X", &[("X", "a")]), Err(Error::NonTerminatedBrace(0))));
}

#[test]
fn unknown_variable_is_an_error() {
    match expand("a$NOPE", &[("X", "a")]) {
        Err(Error::EnvVarNotFound(name)) => assert_eq!(name, "NOPE"),
        _ => panic!("expected a missing variable"),
    }
}

#[test]
fn invalid_char_in_braces_is_an_error() {
    assert!(matches!(expand("${X-Y}", &[("X", "a")]), Err(Error::InvalidBraceChar(3, '-'))));
}

#[test]
fn substituted_text_is_scanned_again() {
    assert_eq!(expand("$X", &[("X", "$Y"), ("Y", "z")]).ok(), Some("z".to_string()));
}

#[test]
fn text_without_references_is_unchanged() {
    assert_eq!(expand("plain $ text $-", &[]).ok(), Some("plain $ text $-".to_string()));
}

#[test]
fn error_leaves_string_unchanged() {
    let mut s = "$X ${".to_string();
    let r = replace_vars(&mut s, &vars(&[("X", "a")]));
    assert!(r.is_err());
    assert_eq!(s, "$X ${");
}

#[test]
fn self_reference_stops_at_the_limit() {
    let mut s = "a$X".to_string();
    let r = replace_vars_limited(&mut s, &vars(&[("X", "$X")]), 10);
    assert!(matches!(r, Err(Error::TooManySubstitutions(10))));
    assert_eq!(s, "a$X");
}

#[test]
fn limited_substitution_matches_unlimited() {
    let mut s = "$X-${Y}".to_string();
    assert!(replace_vars_limited(&mut s, &vars(&[("X", "$Y"), ("Y", "z")]), 10).is_ok());
    assert_eq!(s, "z-z");
    let mut t = "$X".to_string();
    assert!(matches!(replace_vars_limited(&mut t, &vars(&[("X", "$Y"), ("Y", "z")]), 1), Err(Error::TooManySubstitutions(1))));
}
