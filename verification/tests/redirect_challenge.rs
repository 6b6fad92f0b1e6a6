use qpackt::challenge::AcmeChallenge;
use qpackt::redirect::{check_https_redirect, HttpsRedirectFlag};

#[test]
fn flag_once_set_remains_set() {
    // The flag starts lowered, and the only write the type offers raises
    // it; nothing lowers it again for the process lifetime.
    let mut flag = HttpsRedirectFlag::new();
    assert!(!flag.get());
    flag.force();
    assert!(flag.get());
    flag.force();
    assert!(flag.get());
    let _ = flag.get();
    assert!(flag.get());
}

#[test]
fn redirect_only_when_forced_and_plain() {
    let mut flag = HttpsRedirectFlag::new();
    assert!(check_https_redirect(&flag, true, "example.org", "/a?b=1").is_none());
    flag.force();
    assert_eq!(
        check_https_redirect(&flag, true, "example.org", "/a?b=1").as_deref(),
        Some("https://example.org/a?b=1")
    );
    assert!(check_https_redirect(&flag, false, "example.org", "/a").is_none());
}

#[test]
fn challenge_store_serves_and_clears_proofs() {
    let mut store = AcmeChallenge::new();
    assert!(store.get_proof("tok").is_none());
    store.set_challenge("tok".to_string(), "proof-1".to_string());
    assert_eq!(store.get_proof("tok").as_deref(), Some("proof-1"));
    store.set_challenge("tok".to_string(), "proof-2".to_string());
    assert_eq!(store.get_proof("tok").as_deref(), Some("proof-2"));
    store.set_challenge("other".to_string(), "proof-3".to_string());
    assert_eq!(store.get_proof("other").as_deref(), Some("proof-3"));
    store.clear();
    assert!(store.get_proof("tok").is_none());
    assert!(store.get_proof("other").is_none());
}
