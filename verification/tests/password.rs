use qpackt::auth::password_matches;

// A scrypt PHC string for the password "Pass", with deliberately light
// parameters so the check stays fast: verification reads its cost from
// the string itself.
fn pass_hash() -> &'static str {
    "$scrypt$ln=4,r=8,p=1$c2FsdHNhbHRzYWx0$wdVkjj82vURTQP+GwR1Hy1GtTdQnO2U/t3Cq8RfnPfA"
}

#[test]
fn matches() {
    let password = "Pass";
    let hash = pass_hash();
    let matches = password_matches(password.to_string(), hash).unwrap();
    assert!(matches);
}

#[test]
fn doesnt_match() {
    let hash = pass_hash();
    let matches = password_matches("OtherPass".to_string(), hash).unwrap();
    assert!(!matches);
}

#[test]
fn malformed_hash_is_an_error() {
    assert!(password_matches("Pass".to_string(), "not a phc string").is_err());
}
