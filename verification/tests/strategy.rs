use qpackt::strategy::{strategy_from_json, strategy_to_json, Strategy};

#[test]
fn weight_encodes_exactly() {
    assert_eq!(strategy_to_json(&Strategy::Weight(10)), "{\"Weight\":10}");
    assert_eq!(strategy_to_json(&Strategy::Weight(0)), "{\"Weight\":0}");
    assert_eq!(strategy_to_json(&Strategy::Weight(65535)), "{\"Weight\":65535}");
}

#[test]
fn url_param_encodes_exactly() {
    assert_eq!(strategy_to_json(&Strategy::UrlParam("x".to_string())), "{\"UrlParam\":\"x\"}");
    assert_eq!(strategy_to_json(&Strategy::UrlParam(String::new())), "{\"UrlParam\":\"\"}");
}

#[test]
fn weight_round_trips() {
    match strategy_from_json("{\"Weight\":10}") {
        Some(Strategy::Weight(w)) => assert_eq!(w, 10),
        other => panic!("unexpected: {:?}", other),
    }
    let encoded = strategy_to_json(&Strategy::Weight(4321));
    match strategy_from_json(&encoded) {
        Some(Strategy::Weight(w)) => assert_eq!(w, 4321),
        other => panic!("unexpected: {:?}", other),
    }
}

#[test]
fn url_param_round_trips() {
    match strategy_from_json("{\"UrlParam\":\"x\"}") {
        Some(Strategy::UrlParam(p)) => assert_eq!(p, "x"),
        other => panic!("unexpected: {:?}", other),
    }
    let encoded = strategy_to_json(&Strategy::UrlParam("beta".to_string()));
    match strategy_from_json(&encoded) {
        Some(Strategy::UrlParam(p)) => assert_eq!(p, "beta"),
        other => panic!("unexpected: {:?}", other),
    }
}

#[test]
fn url_param_escapes_quotes_and_backslashes() {
    // A needle holding a quote or a backslash is stored in escaped form
    // and read back unchanged.
    assert_eq!(
        strategy_to_json(&Strategy::UrlParam("a\"b".to_string())),
        "{\"UrlParam\":\"a\\\"b\"}"
    );
    assert_eq!(
        strategy_to_json(&Strategy::UrlParam("a\\b".to_string())),
        "{\"UrlParam\":\"a\\\\b\"}"
    );
    for needle in ["a\"b", "a\\b", "\"", "\\", "\\\"", "trailing\\", "mix\\\"\\\\end"] {
        let encoded = strategy_to_json(&Strategy::UrlParam(needle.to_string()));
        match strategy_from_json(&encoded) {
            Some(Strategy::UrlParam(p)) => assert_eq!(p, needle),
            other => panic!("unexpected: {:?}", other),
        }
    }
}

#[test]
fn unescaped_needle_text_is_rejected() {
    // A bare quote inside the needle region cannot come from the
    // encoder; neither can a dangling backslash or an unknown escape.
    assert!(strategy_from_json("{\"UrlParam\":\"a\"b\"}").is_none());
    assert!(strategy_from_json("{\"UrlParam\":\"a\\x\"}").is_none());
    assert!(strategy_from_json("{\"UrlParam\":\"a\\\"}").is_none());
}

#[test]
fn malformed_strategies_are_rejected() {
    assert!(strategy_from_json("").is_none());
    assert!(strategy_from_json("{\"Weight\":}").is_none());
    assert!(strategy_from_json("{\"Weight\":abc}").is_none());
    // A weight beyond sixteen bits has no strategy spelling.
    assert!(strategy_from_json("{\"Weight\":70000}").is_none());
    assert!(strategy_from_json("{\"UrlParam\":\"unterminated}").is_none());
    assert!(strategy_from_json("{\"Other\":1}").is_none());
}
