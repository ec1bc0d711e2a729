use moth::filter::{Modifier, ParseError, PurgeArgs};

fn content_str(g: &moth::filter::ModifierGroup) -> String {
    g.content.iter().collect()
}

#[test]
fn user_then_greedy_match() {
    let args = PurgeArgs::pop_from("user <@123> match hello").unwrap();
    assert_eq!(args.0.len(), 2);
    assert!(matches!(args.0[0].modifier, Modifier::User));
    assert_eq!(content_str(&args.0[0]), "<@123>");
    assert!(!args.0[0].negated);
    assert!(matches!(args.0[1].modifier, Modifier::Match));
    assert_eq!(content_str(&args.0[1]), "hello");
    assert!(!args.0[1].negated);
}

#[test]
fn greedy_match_consumes_all_remaining_input() {
    let args = PurgeArgs::pop_from("user <@123> match hello world").unwrap();
    assert_eq!(args.0.len(), 2);
    assert!(matches!(args.0[1].modifier, Modifier::Match));
    assert_eq!(content_str(&args.0[1]), "hello world");
}

#[test]
fn empty_input_is_too_few_arguments() {
    assert!(matches!(
        PurgeArgs::pop_from(""),
        Err(ParseError::TooFewArguments)
    ));
    assert!(matches!(
        PurgeArgs::pop_from("   \t "),
        Err(ParseError::TooFewArguments)
    ));
}

#[test]
fn negation_marks_next_clause() {
    let args = PurgeArgs::pop_from("!links").unwrap();
    assert_eq!(args.0.len(), 1);
    assert!(matches!(args.0[0].modifier, Modifier::Links));
    assert!(args.0[0].negated);
    assert_eq!(content_str(&args.0[0]), "");
}

#[test]
fn negation_resets_after_flush() {
    let args = PurgeArgs::pop_from("!links invites").unwrap();
    assert_eq!(args.0.len(), 2);
    assert!(args.0[0].negated);
    assert!(matches!(args.0[1].modifier, Modifier::Invites));
    assert!(!args.0[1].negated);
}

#[test]
fn bang_before_plain_token_has_no_effect() {
    // only a `!` immediately before a modifier keyword negates a clause; a
    // `!` before a plain token is consumed without effect
    let args = PurgeArgs::pop_from("!foo links").unwrap();
    assert_eq!(args.0.len(), 1);
    assert!(matches!(args.0[0].modifier, Modifier::Links));
    assert!(!args.0[0].negated);
}

#[test]
fn negation_applies_to_clause_about_to_start() {
    // the pending clause keeps its own flag; the `!` negates the clause it
    // immediately precedes
    let args = PurgeArgs::pop_from("user <@1234567890123456> !links").unwrap();
    assert_eq!(args.0.len(), 2);
    assert!(matches!(args.0[0].modifier, Modifier::User));
    assert_eq!(content_str(&args.0[0]), "<@1234567890123456>");
    assert!(!args.0[0].negated);
    assert!(matches!(args.0[1].modifier, Modifier::Links));
    assert_eq!(content_str(&args.0[1]), "");
    assert!(args.0[1].negated);
}

#[test]
fn keywords_match_case_insensitively() {
    let args = PurgeArgs::pop_from("LINKS").unwrap();
    assert_eq!(args.0.len(), 1);
    assert!(matches!(args.0[0].modifier, Modifier::Links));

    let args = PurgeArgs::pop_from("StartsWith abc").unwrap();
    assert_eq!(args.0.len(), 1);
    assert!(matches!(args.0[0].modifier, Modifier::StartsWith));
    assert_eq!(content_str(&args.0[0]), "abc");
}

#[test]
fn greedy_startswith_keeps_remaining_verbatim() {
    let args = PurgeArgs::pop_from("startswith foo bar").unwrap();
    assert_eq!(args.0.len(), 1);
    assert!(matches!(args.0[0].modifier, Modifier::StartsWith));
    assert_eq!(content_str(&args.0[0]), "foo bar");
}

#[test]
fn non_greedy_tokens_join_with_single_spaces() {
    let args = PurgeArgs::pop_from("user a   b").unwrap();
    assert_eq!(args.0.len(), 1);
    assert!(matches!(args.0[0].modifier, Modifier::User));
    assert_eq!(content_str(&args.0[0]), "a b");
}

#[test]
fn content_before_any_modifier_yields_no_clause() {
    let args = PurgeArgs::pop_from("hello world").unwrap();
    assert_eq!(args.0.len(), 0);
}

#[test]
fn bots_keyword_parses() {
    let args = PurgeArgs::pop_from("bots").unwrap();
    assert_eq!(args.0.len(), 1);
    assert!(matches!(args.0[0].modifier, Modifier::Bot));
}

#[test]
fn all_non_greedy_keywords_parse_in_sequence() {
    let args = PurgeArgs::pop_from("links invites attachments bots").unwrap();
    assert_eq!(args.0.len(), 4);
    assert!(matches!(args.0[0].modifier, Modifier::Links));
    assert!(matches!(args.0[1].modifier, Modifier::Invites));
    assert!(matches!(args.0[2].modifier, Modifier::Attachments));
    assert!(matches!(args.0[3].modifier, Modifier::Bot));
}

#[test]
fn endswith_is_greedy() {
    let args = PurgeArgs::pop_from("links endswith x y").unwrap();
    assert_eq!(args.0.len(), 2);
    assert!(matches!(args.0[0].modifier, Modifier::Links));
    assert!(matches!(args.0[1].modifier, Modifier::EndsWith));
    assert_eq!(content_str(&args.0[1]), "x y");
}

#[test]
fn match_prefix_priority_and_length() {
    let s: Vec<char> = "userx".chars().collect();
    let (m, len) = Modifier::match_prefix(&s).unwrap();
    assert!(matches!(m, Modifier::User));
    assert_eq!(len, 4);

    let s: Vec<char> = "nothing".chars().collect();
    assert!(Modifier::match_prefix(&s).is_none());
}

#[test]
fn is_special_flags_greedy_modifiers() {
    assert!(Modifier::Match.is_special());
    assert!(Modifier::StartsWith.is_special());
    assert!(Modifier::EndsWith.is_special());
    assert!(!Modifier::User.is_special());
    assert!(!Modifier::Links.is_special());
    assert!(!Modifier::Invites.is_special());
    assert!(!Modifier::Attachments.is_special());
    assert!(!Modifier::Bot.is_special());
}

#[test]
fn lone_bang_emits_no_clause() {
    // a trailing `!` is consumed, leaves an empty buffered token, and no
    // modifier ever appears, so no clause is emitted
    let args = PurgeArgs::pop_from("!").unwrap();
    assert_eq!(args.0.len(), 0);
}

#[test]
fn double_bang_hides_the_keyword() {
    // only one `!` is stripped per step; `!links` is then a plain token,
    // not a keyword, so no clause is emitted
    let args = PurgeArgs::pop_from("!!links").unwrap();
    assert_eq!(args.0.len(), 0);
}

#[test]
fn greedy_content_keeps_inner_whitespace() {
    let args = PurgeArgs::pop_from("match a   b").unwrap();
    assert_eq!(args.0.len(), 1);
    assert_eq!(content_str(&args.0[0]), "a   b");
}

#[test]
fn negated_greedy_clause() {
    let args = PurgeArgs::pop_from("!match xyz").unwrap();
    assert_eq!(args.0.len(), 1);
    assert!(matches!(args.0[0].modifier, Modifier::Match));
    assert!(args.0[0].negated);
    assert_eq!(content_str(&args.0[0]), "xyz");
}

#[test]
fn flush_emits_only_with_pending_modifier() {
    let mut groups = Vec::new();
    let mut current_modifier = None;
    let mut current_content: Vec<Vec<char>> = vec!["a".chars().collect(), "b".chars().collect()];
    let mut negated = true;
    moth::filter::flush(
        &mut groups,
        &mut current_modifier,
        &mut current_content,
        &mut negated,
    );
    // no modifier pending: nothing emitted, negation kept
    assert_eq!(groups.len(), 0);
    assert!(negated);
    assert!(current_content.is_empty());

    let mut current_modifier = Some(Modifier::User);
    let mut current_content: Vec<Vec<char>> = vec!["a".chars().collect(), "b".chars().collect()];
    moth::filter::flush(
        &mut groups,
        &mut current_modifier,
        &mut current_content,
        &mut negated,
    );
    assert_eq!(groups.len(), 1);
    assert!(matches!(groups[0].modifier, Modifier::User));
    assert_eq!(content_str(&groups[0]), "a b");
    assert!(groups[0].negated);
    assert!(!negated);
    assert!(current_modifier.is_none());
}
