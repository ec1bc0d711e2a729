use moth::starboard::{
    allowed_user, component_decision, ComponentDecision, ReviewAction, StarboardCandidate,
    StarboardGate, StarboardStatus,
};

#[test]
fn gate_lets_exactly_one_trigger_proceed() {
    let mut gate = StarboardGate::new();
    let first = gate.try_begin(42);
    let second = gate.try_begin(42);
    assert!(!first, "the first trigger proceeds");
    assert!(second, "the duplicate trigger is dropped");
    gate.end(42);
    let third = gate.try_begin(42);
    assert!(!third, "after end a later trigger proceeds again");
}

#[test]
fn gate_tracks_ids_independently() {
    let mut gate = StarboardGate::new();
    assert!(!gate.try_begin(1));
    assert!(!gate.try_begin(2));
    assert!(gate.try_begin(1));
    gate.end(1);
    assert!(!gate.try_begin(1));
    assert!(gate.try_begin(2));
}

#[test]
fn gate_end_without_begin_is_harmless() {
    let mut gate = StarboardGate::new();
    gate.end(7);
    assert!(!gate.contains(7));
    assert!(!gate.try_begin(7));
    assert!(gate.contains(7));
}

#[test]
fn candidate_accepts_exactly_once() {
    let mut c = StarboardCandidate::new(10, 3);
    assert_eq!(c.status, StarboardStatus::Queued);
    assert!(c.accept(500, 600));
    assert_eq!(c.status, StarboardStatus::Accepted);
    assert_eq!(c.posted_message_id, Some(500));
    assert_eq!(c.posted_channel_id, Some(600));
    // terminal: neither a second accept nor a deny changes anything
    assert!(!c.accept(501, 601));
    assert_eq!(c.posted_message_id, Some(500));
    assert!(!c.deny());
    assert_eq!(c.status, StarboardStatus::Accepted);
}

#[test]
fn candidate_denies_exactly_once() {
    let mut c = StarboardCandidate::new(11, 4);
    assert!(c.deny());
    assert_eq!(c.status, StarboardStatus::Denied);
    assert_eq!(c.posted_message_id, None);
    assert!(!c.deny());
    assert!(!c.accept(1, 2));
    assert_eq!(c.status, StarboardStatus::Denied);
}

#[test]
fn decision_ignores_non_review_triggers() {
    assert_eq!(
        component_decision(true, "something_else", 1, 1, true),
        ComponentDecision::Ignore
    );
    assert_eq!(
        component_decision(false, "starboard_accept", 1, 1, true),
        ComponentDecision::Ignore
    );
    assert_eq!(
        component_decision(true, "starboard_accept", 2, 1, true),
        ComponentDecision::Ignore
    );
}

#[test]
fn decision_rejects_unauthorized_reviewer() {
    assert_eq!(
        component_decision(true, "starboard_accept", 1, 1, false),
        ComponentDecision::RejectUnauthorized
    );
    assert_eq!(
        component_decision(true, "starboard_deny", 1, 1, false),
        ComponentDecision::RejectUnauthorized
    );
}

#[test]
fn decision_proceeds_for_authorized_reviewer() {
    assert_eq!(
        component_decision(true, "starboard_accept", 1, 1, true),
        ComponentDecision::Proceed(ReviewAction::Accept)
    );
    assert_eq!(
        component_decision(true, "starboard_deny", 1, 1, true),
        ComponentDecision::Proceed(ReviewAction::Deny)
    );
}

#[test]
fn allowed_user_is_a_fixed_list() {
    assert!(allowed_user(101090238067113984));
    assert!(allowed_user(291089948709486593));
    assert!(allowed_user(158567567487795200));
    assert!(!allowed_user(1));
}
