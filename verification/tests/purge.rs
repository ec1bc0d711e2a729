use moth::filter::PurgeArgs;
use moth::purge::{
    delay_valid, delete_plan, has_link, limit_valid, message_react, purge_prep, DeletionSet,
    MessageCandidate, NotifyChoice, PurgeReject,
};
use moth::text::chars_of;

fn msg(id: u64, author: u64, content: &str) -> MessageCandidate {
    MessageCandidate::new(id, author, content, false, false)
}

#[test]
fn no_filter_selects_whole_window() {
    for limit in [2u8, 50, 100] {
        let window: Vec<MessageCandidate> =
            (0..limit as u64).map(|i| msg(1000 + i, 1, "hi")).collect();
        let sel = purge_prep(limit, &window, &None).unwrap();
        assert_eq!(sel.len(), limit as usize);
        for i in 0..limit as u64 {
            assert!(sel.contains(1000 + i));
        }
    }
}

#[test]
fn out_of_range_limit_is_rejected() {
    let window = vec![msg(1, 1, "hi")];
    assert!(matches!(
        purge_prep(1, &window, &None),
        Err(PurgeReject::InvalidLimit)
    ));
    assert!(matches!(
        purge_prep(101, &window, &None),
        Err(PurgeReject::InvalidLimit)
    ));
    assert!(matches!(
        purge_prep(0, &window, &None),
        Err(PurgeReject::InvalidLimit)
    ));
    assert!(limit_valid(2));
    assert!(limit_valid(100));
    assert!(!limit_valid(1));
    assert!(!limit_valid(101));
}

#[test]
fn negated_links_selects_message_without_link() {
    let with_link = msg(1, 7, "see https://example.com/x");
    let without_link = msg(2, 8, "nothing here");
    let window = vec![with_link, without_link];
    let args = PurgeArgs::pop_from("!links").unwrap();
    let sel = purge_prep(2, &window, &Some(args)).unwrap();
    assert!(!sel.contains(1));
    assert!(sel.contains(2));
    assert_eq!(sel.len(), 1);
}

#[test]
fn multi_clause_union_selects_both() {
    let by_user = msg(10, 1, "plain text");
    let with_link = msg(20, 2, "http://example.com");
    let unrelated = msg(30, 3, "nothing");
    let window = vec![by_user, with_link, unrelated];
    let args = PurgeArgs::pop_from("user <@1> links").unwrap();
    let sel = purge_prep(3, &window, &Some(args)).unwrap();
    assert!(sel.contains(10));
    assert!(sel.contains(20));
    assert!(!sel.contains(30));
    assert_eq!(sel.len(), 2);
}

#[test]
fn batching_splits_large_selection() {
    let mut sel = DeletionSet::new();
    for id in 1..=150u64 {
        sel.insert(id);
    }
    let invoking = 9999u64;
    let plan = delete_plan(&sel, invoking);
    assert!(plan.delete_invoking_first);
    assert_eq!(plan.batch.len(), 150);
    assert!(!plan.batch.contains(&invoking));
}

#[test]
fn batching_includes_invoking_message_in_small_selection() {
    let mut sel = DeletionSet::new();
    for id in 1..=50u64 {
        sel.insert(id);
    }
    let invoking = 9999u64;
    let plan = delete_plan(&sel, invoking);
    assert!(!plan.delete_invoking_first);
    assert_eq!(plan.batch.len(), 51);
    assert!(plan.batch.contains(&invoking));
}

#[test]
fn unparseable_user_clause_aborts() {
    let window = vec![msg(1, 1, "hi")];
    let args = PurgeArgs::pop_from("user hello").unwrap();
    assert!(matches!(
        purge_prep(2, &window, &Some(args)),
        Err(PurgeReject::CannotParseUsers)
    ));
}

#[test]
fn user_clause_matches_mention_forms() {
    let window = vec![msg(1, 123, "a"), msg(2, 124, "b")];
    let args = PurgeArgs::pop_from("user <@123>").unwrap();
    let sel = purge_prep(2, &window, &Some(args)).unwrap();
    assert!(sel.contains(1));
    assert!(!sel.contains(2));

    let args = PurgeArgs::pop_from("user <@!123>").unwrap();
    let sel = purge_prep(2, &window, &Some(args)).unwrap();
    assert!(sel.contains(1));
    assert!(!sel.contains(2));
}

#[test]
fn user_clause_matches_raw_long_id() {
    let raw = 12345678901234567u64;
    let window = vec![msg(1, raw, "a"), msg(2, 99, "b")];
    let args = PurgeArgs::pop_from("user 12345678901234567").unwrap();
    let sel = purge_prep(2, &window, &Some(args)).unwrap();
    assert!(sel.contains(1));
    assert!(!sel.contains(2));
}

#[test]
fn short_number_is_not_a_raw_id() {
    // raw ids need 16 to 20 digits; "99" alone parses no user
    let window = vec![msg(1, 99, "a")];
    let args = PurgeArgs::pop_from("user 99").unwrap();
    assert!(matches!(
        purge_prep(2, &window, &Some(args)),
        Err(PurgeReject::CannotParseUsers)
    ));
}

#[test]
fn negated_user_selects_other_authors() {
    let window = vec![msg(1, 5, "a"), msg(2, 6, "b")];
    let args = PurgeArgs::pop_from("!user <@5>").unwrap();
    let sel = purge_prep(2, &window, &Some(args)).unwrap();
    assert!(!sel.contains(1));
    assert!(sel.contains(2));
}

#[test]
fn match_clause_is_substring() {
    let window = vec![msg(1, 1, "say hello world"), msg(2, 1, "bye")];
    let args = PurgeArgs::pop_from("match hello").unwrap();
    let sel = purge_prep(2, &window, &Some(args)).unwrap();
    assert!(sel.contains(1));
    assert!(!sel.contains(2));
}

#[test]
fn startswith_and_endswith_clauses() {
    let window = vec![msg(1, 1, "abc def"), msg(2, 1, "def abc")];
    let args = PurgeArgs::pop_from("startswith abc").unwrap();
    let sel = purge_prep(2, &window, &Some(args)).unwrap();
    assert!(sel.contains(1));
    assert!(!sel.contains(2));

    let args = PurgeArgs::pop_from("endswith abc").unwrap();
    let sel = purge_prep(2, &window, &Some(args)).unwrap();
    assert!(!sel.contains(1));
    assert!(sel.contains(2));
}

#[test]
fn bot_and_attachment_clauses() {
    let bot_msg = MessageCandidate::new(1, 1, "x", false, true);
    let attach_msg = MessageCandidate::new(2, 2, "y", true, false);
    let plain = MessageCandidate::new(3, 3, "z", false, false);
    let window = vec![bot_msg, attach_msg, plain];

    let args = PurgeArgs::pop_from("bots").unwrap();
    let sel = purge_prep(3, &window, &Some(args)).unwrap();
    assert!(sel.contains(1) && !sel.contains(2) && !sel.contains(3));

    let args = PurgeArgs::pop_from("attachments").unwrap();
    let sel = purge_prep(3, &window, &Some(args)).unwrap();
    assert!(!sel.contains(1) && sel.contains(2) && !sel.contains(3));
}

#[test]
fn invite_clause_matches_invite_links() {
    let window = vec![
        msg(1, 1, "join discord.gg/abc123 now"),
        msg(2, 1, "join discordapp.com/invite/xyz"),
        msg(3, 1, "no invite here"),
    ];
    let args = PurgeArgs::pop_from("invites").unwrap();
    let sel = purge_prep(3, &window, &Some(args)).unwrap();
    assert!(sel.contains(1));
    assert!(sel.contains(2));
    assert!(!sel.contains(3));
}

#[test]
fn link_predicate_is_literal_substring_rule() {
    assert!(has_link(&chars_of("x http://a")));
    assert!(has_link(&chars_of("x https://a")));
    assert!(!has_link(&chars_of("http:/ broken")));
    assert!(!has_link(&chars_of("no scheme at all")));
}

#[test]
fn selection_deduplicates_overlapping_clauses() {
    let window = vec![msg(1, 7, "see http://a")];
    let args = PurgeArgs::pop_from("user <@7> links").unwrap();
    let sel = purge_prep(2, &window, &Some(args)).unwrap();
    assert_eq!(sel.len(), 1);
    assert!(sel.contains(1));
}

#[test]
fn delay_bound_is_five_minutes() {
    assert!(delay_valid(0));
    assert!(delay_valid(300));
    assert!(!delay_valid(301));
}

#[test]
fn reply_falls_back_between_reaction_and_message() {
    assert_eq!(message_react(true, true, true), NotifyChoice::React);
    assert_eq!(message_react(true, true, false), NotifyChoice::Message);
    assert_eq!(message_react(true, false, false), NotifyChoice::Nothing);
    assert_eq!(message_react(false, true, true), NotifyChoice::Message);
    assert_eq!(message_react(false, false, true), NotifyChoice::React);
    assert_eq!(message_react(false, false, false), NotifyChoice::Nothing);
}

#[test]
fn deletion_set_insert_is_idempotent() {
    let mut sel = DeletionSet::new();
    sel.insert(5);
    sel.insert(5);
    assert_eq!(sel.len(), 1);
    assert!(sel.contains(5));
    assert!(!sel.contains(6));
}
