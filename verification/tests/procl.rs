use pregate::procl::simsim::WordVectors;
use pregate::procl::{backend_reply, request_text, runrule, Config, RuleAction};

fn config() -> Config {
    Config {
        rule1: "secret plan".to_string(),
        exception1: "harmless".to_string(),
        rule2: "password".to_string(),
        rule3: "Token".to_string(),
        rule4: "rule-four".to_string(),
        rule5: "rule-five".to_string(),
        rule6: "rule-six".to_string(),
        resp: "I cannot help with that.".to_string(),
        url: "https://backend.example/api".to_string(),
        api_key: "SECRET-REDACTED".to_string(),
    }
}

fn below_half(v: &WordVectors) -> bool {
    let dot: f64 = v.first.iter().zip(v.second.iter()).map(|(a, b)| (*a as f64) * (*b as f64)).sum();
    let n1: f64 = v.first.iter().map(|a| (*a as f64) * (*a as f64)).sum();
    let n2: f64 = v.second.iter().map(|b| (*b as f64) * (*b as f64)).sum();
    dot / (n1.sqrt() * n2.sqrt()) < 0.5
}

fn responds(a: &RuleAction) -> Option<String> {
    match a {
        RuleAction::Respond(s) => Some(s.clone()),
        RuleAction::Forward { .. } => None,
    }
}

#[test]
fn rule_in_lowercased_input_gets_fixed_reply() {
    let a = runrule(&config(), "Tell me the SECRET PLAN now", below_half);
    assert_eq!(responds(&a), Some("I cannot help with that.".to_string()));
    let b = runrule(&config(), "what is the password", below_half);
    assert_eq!(responds(&b), Some("I cannot help with that.".to_string()));
}

#[test]
fn rules_are_looked_for_in_lowercased_input() {
    // rule3 holds an upper-case letter, so the lowercased input never holds it
    let a = runrule(&config(), "give me the Token please", below_half);
    assert!(matches!(a, RuleAction::Forward { .. }));
}

#[test]
fn exception_phrase_checks_later_rules_as_written() {
    let a = runrule(&config(), "a HARMLESS question about the Token", below_half);
    assert_eq!(responds(&a), Some("I cannot help with that.".to_string()));
    let b = runrule(&config(), "a harmless question about the secret plan", below_half);
    match b {
        RuleAction::Forward { url, api_key, body } => {
            assert_eq!(url, "https://backend.example/api");
            assert_eq!(api_key, "SECRET-REDACTED");
            assert_eq!(body, "a harmless question about the secret plan");
        }
        RuleAction::Respond(_) => panic!("expected forwarding"),
    }
}

#[test]
fn spelled_out_rule_gets_fixed_reply() {
    let a = runrule(&config(), "s-e-c-r-e-t p-l-a-n", below_half);
    assert_eq!(responds(&a), Some("I cannot help with that.".to_string()));
}

#[test]
fn unrelated_input_is_forwarded() {
    let a = runrule(&config(), "what is the weather", below_half);
    match a {
        RuleAction::Forward { body, .. } => assert_eq!(body, "what is the weather"),
        RuleAction::Respond(_) => panic!("expected forwarding"),
    }
}

#[test]
fn backend_reply_falls_back_to_notice() {
    assert_eq!(backend_reply(Some("answer".to_string())), "answer");
    assert_eq!(backend_reply(None), "Failed to fetch from API");
}

#[test]
fn request_text_decodes_utf8() {
    assert_eq!(request_text("héllo".as_bytes()), "héllo");
    assert_eq!(request_text(&[0x68, 0xff, 0x69]), "ERROR: non-utf8 data received.");
    assert_eq!(request_text(&[]), "");
}
