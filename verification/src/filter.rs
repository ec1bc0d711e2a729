//! The filter-clause language of the purge command.
//!
//! A filter expression is a whitespace-separated sequence of clauses.  Each
//! clause is a modifier keyword and optional content tokens; a `!`
//! immediately before the keyword negates that clause.  The three
//! content-greedy modifiers (`match`, `startswith`, `endswith`) consume all
//! remaining input and end parsing.

use vstd::prelude::*;

use crate::text::{
    chars_of, is_prefix_ci, lemma_token_end, lemma_trim_start_len, slice_to_vec,
    starts_with_ci_at, token_end, token_end_idx, trim_start, trim_start_idx,
};

verus! {

/// The modifier keyword of a filter clause, in keyword priority order.
#[derive(Clone, Copy, Debug, PartialEq, Eq, Structural)]
pub enum Modifier {
    User,
    Bot,
    Match,
    StartsWith,
    EndsWith,
    Links,
    Invites,
    Attachments,
}

/// Parse failure: the command carried no filter expression at all.
#[derive(Clone, Copy, Debug, PartialEq, Eq, Structural)]
pub enum ParseError {
    TooFewArguments,
}

/// Mathematical model of one parsed clause.
#[verifier::ext_equal]
pub struct GroupModel {
    pub modifier: Modifier,
    pub content: Seq<char>,
    pub negated: bool,
}

/// One parsed clause: a modifier, its content, and whether it is negated.
#[derive(Debug)]
pub struct ModifierGroup {
    pub modifier: Modifier,
    pub content: Vec<char>,
    pub negated: bool,
}

impl View for ModifierGroup {
    type V = GroupModel;

    open spec fn view(&self) -> GroupModel {
        GroupModel { modifier: self.modifier, content: self.content@, negated: self.negated }
    }
}

/// An ordered filter expression: the clauses are applied in sequence.
#[derive(Debug)]
pub struct PurgeArgs(pub Vec<ModifierGroup>);

impl View for PurgeArgs {
    type V = Seq<GroupModel>;

    open spec fn view(&self) -> Seq<GroupModel> {
        self.0@.map_values(|g: ModifierGroup| g@)
    }
}

/// The models of a vector of clauses.
pub open spec fn group_views(gs: Seq<ModifierGroup>) -> Seq<GroupModel> {
    gs.map_values(|g: ModifierGroup| g@)
}

/// The models of a vector of buffered content tokens.
pub open spec fn token_views(ts: Seq<Vec<char>>) -> Seq<Seq<char>> {
    ts.map_values(|t: Vec<char>| t@)
}

/// The keyword that introduces each modifier.
pub open spec fn keyword(m: Modifier) -> Seq<char> {
    match m {
        Modifier::User => seq!['u', 's', 'e', 'r'],
        Modifier::Match => seq!['m', 'a', 't', 'c', 'h'],
        Modifier::StartsWith => seq!['s', 't', 'a', 'r', 't', 's', 'w', 'i', 't', 'h'],
        Modifier::EndsWith => seq!['e', 'n', 'd', 's', 'w', 'i', 't', 'h'],
        Modifier::Links => seq!['l', 'i', 'n', 'k', 's'],
        Modifier::Invites => seq!['i', 'n', 'v', 'i', 't', 'e', 's'],
        Modifier::Attachments => seq!['a', 't', 't', 'a', 'c', 'h', 'm', 'e', 'n', 't', 's'],
        Modifier::Bot => seq!['b', 'o', 't', 's'],
    }
}

/// The first modifier, in priority order, whose keyword is a
/// case-insensitive prefix of `s`, together with the keyword length.
pub open spec fn spec_match_prefix(s: Seq<char>) -> Option<(Modifier, int)> {
    if is_prefix_ci(keyword(Modifier::User), s) {
        Some((Modifier::User, keyword(Modifier::User).len() as int))
    } else if is_prefix_ci(keyword(Modifier::Match), s) {
        Some((Modifier::Match, keyword(Modifier::Match).len() as int))
    } else if is_prefix_ci(keyword(Modifier::StartsWith), s) {
        Some((Modifier::StartsWith, keyword(Modifier::StartsWith).len() as int))
    } else if is_prefix_ci(keyword(Modifier::EndsWith), s) {
        Some((Modifier::EndsWith, keyword(Modifier::EndsWith).len() as int))
    } else if is_prefix_ci(keyword(Modifier::Links), s) {
        Some((Modifier::Links, keyword(Modifier::Links).len() as int))
    } else if is_prefix_ci(keyword(Modifier::Invites), s) {
        Some((Modifier::Invites, keyword(Modifier::Invites).len() as int))
    } else if is_prefix_ci(keyword(Modifier::Attachments), s) {
        Some((Modifier::Attachments, keyword(Modifier::Attachments).len() as int))
    } else if is_prefix_ci(keyword(Modifier::Bot), s) {
        Some((Modifier::Bot, keyword(Modifier::Bot).len() as int))
    } else {
        None
    }
}

proof fn lemma_match_prefix_len(s: Seq<char>)
    ensures
        spec_match_prefix(s) matches Some(p) ==> 4 <= p.1 <= s.len(),
{
}

impl Modifier {
    /// The content-greedy modifiers: their clause consumes all remaining
    /// input and parsing stops.
    pub open spec fn is_special_spec(self) -> bool {
        self is Match || self is StartsWith || self is EndsWith
    }

    /// Exec check for `is_special_spec`.
    pub fn is_special(self) -> (res: bool)
        ensures
            res == self.is_special_spec(),
    {
        matches!(self, Modifier::Match | Modifier::StartsWith | Modifier::EndsWith)
    }

    /// Try to match a modifier keyword, case-insensitively, at the start of
    /// the given text.
    pub fn match_prefix(s: &[char]) -> (res: Option<(Modifier, usize)>)
        ensures
            match res {
                Some(p) => spec_match_prefix(s@) == Some((p.0, p.1 as int)),
                None => spec_match_prefix(s@) is None,
            },
    {
        match_prefix_at(s, 0)
    }
}

/// `Modifier::match_prefix` on the suffix of `s` that starts at `from`.
pub fn match_prefix_at(s: &[char], from: usize) -> (res: Option<(Modifier, usize)>)
    requires
        from <= s@.len(),
    ensures
        match res {
            Some(p) => spec_match_prefix(s@.skip(from as int)) == Some((p.0, p.1 as int))
                && from + p.1 <= s@.len(),
            None => spec_match_prefix(s@.skip(from as int)) is None,
        },
{
    let kw_user: Vec<char> = vec!['u', 's', 'e', 'r'];
    let kw_match: Vec<char> = vec!['m', 'a', 't', 'c', 'h'];
    let kw_startswith: Vec<char> = vec!['s', 't', 'a', 'r', 't', 's', 'w', 'i', 't', 'h'];
    let kw_endswith: Vec<char> = vec!['e', 'n', 'd', 's', 'w', 'i', 't', 'h'];
    let kw_links: Vec<char> = vec!['l', 'i', 'n', 'k', 's'];
    let kw_invites: Vec<char> = vec!['i', 'n', 'v', 'i', 't', 'e', 's'];
    let kw_attachments: Vec<char> = vec!['a', 't', 't', 'a', 'c', 'h', 'm', 'e', 'n', 't', 's'];
    let kw_bots: Vec<char> = vec!['b', 'o', 't', 's'];
    proof {
        assert(kw_user@ =~= keyword(Modifier::User));
        assert(kw_match@ =~= keyword(Modifier::Match));
        assert(kw_startswith@ =~= keyword(Modifier::StartsWith));
        assert(kw_endswith@ =~= keyword(Modifier::EndsWith));
        assert(kw_links@ =~= keyword(Modifier::Links));
        assert(kw_invites@ =~= keyword(Modifier::Invites));
        assert(kw_attachments@ =~= keyword(Modifier::Attachments));
        assert(kw_bots@ =~= keyword(Modifier::Bot));
    }
    if starts_with_ci_at(s, from, kw_user.as_slice()) {
        Some((Modifier::User, 4))
    } else if starts_with_ci_at(s, from, kw_match.as_slice()) {
        Some((Modifier::Match, 5))
    } else if starts_with_ci_at(s, from, kw_startswith.as_slice()) {
        Some((Modifier::StartsWith, 10))
    } else if starts_with_ci_at(s, from, kw_endswith.as_slice()) {
        Some((Modifier::EndsWith, 8))
    } else if starts_with_ci_at(s, from, kw_links.as_slice()) {
        Some((Modifier::Links, 5))
    } else if starts_with_ci_at(s, from, kw_invites.as_slice()) {
        Some((Modifier::Invites, 7))
    } else if starts_with_ci_at(s, from, kw_attachments.as_slice()) {
        Some((Modifier::Attachments, 11))
    } else if starts_with_ci_at(s, from, kw_bots.as_slice()) {
        Some((Modifier::Bot, 4))
    } else {
        None
    }
}

/// Content tokens joined by single spaces.
pub open spec fn join_tokens(ts: Seq<Seq<char>>) -> Seq<char>
    decreases ts.len(),
{
    if ts.len() == 0 {
        Seq::empty()
    } else if ts.len() == 1 {
        ts[0]
    } else {
        join_tokens(ts.drop_last()) + seq![' '] + ts.last()
    }
}

/// Exec join of buffered content tokens with single spaces.
fn join_ws(ts: &Vec<Vec<char>>) -> (res: Vec<char>)
    ensures
        res@ == join_tokens(token_views(ts@)),
{
    let mut res: Vec<char> = Vec::new();
    let mut i: usize = 0;
    while i < ts.len()
        invariant
            0 <= i <= ts@.len(),
            res@ == join_tokens(token_views(ts@).subrange(0, i as int)),
        decreases ts@.len() - i,
    {
        if i > 0 {
            res.push(' ');
        }
        let tok = &ts[i];
        let mut j: usize = 0;
        while j < tok.len()
            invariant
                0 <= j <= tok@.len(),
                i < ts@.len(),
                tok@ == ts@[i as int]@,
                i > 0 ==> res@ == join_tokens(token_views(ts@).subrange(0, i as int)) + seq![' ']
                    + tok@.subrange(0, j as int),
                i == 0 ==> res@ == tok@.subrange(0, j as int),
            decreases tok@.len() - j,
        {
            res.push(tok[j]);
            proof {
                assert(tok@.subrange(0, j as int).push(tok@[j as int]) =~= tok@.subrange(
                    0,
                    j + 1,
                ));
            }
            j = j + 1;
        }
        proof {
            let tvs = token_views(ts@);
            assert(tok@.subrange(0, tok@.len() as int) =~= tok@);
            assert(tvs.subrange(0, i + 1).drop_last() =~= tvs.subrange(0, i as int));
            assert(tvs.subrange(0, i + 1).last() == tvs[i as int]);
            if i == 0 {
                assert(res@ =~= join_tokens(tvs.subrange(0, 1)));
            } else {
                assert(res@ =~= join_tokens(tvs.subrange(0, i + 1)));
            }
        }
        i = i + 1;
    }
    proof {
        assert(token_views(ts@).subrange(0, ts@.len() as int) =~= token_views(ts@));
    }
    res
}

/// The clauses after flushing the buffered state: a clause is emitted only
/// when a modifier is pending.
pub open spec fn flush_groups(
    groups: Seq<GroupModel>,
    cur: Option<Modifier>,
    content: Seq<Seq<char>>,
    negated: bool,
) -> Seq<GroupModel> {
    match cur {
        Some(m) => groups.push(
            GroupModel { modifier: m, content: join_tokens(content), negated },
        ),
        None => groups,
    }
}

/// The negation flag after flushing: it resets only when a clause was
/// emitted.
pub open spec fn flush_negated(cur: Option<Modifier>, negated: bool) -> bool {
    match cur {
        Some(_) => false,
        None => negated,
    }
}

/// Push the buffered clause, if any, and reset the buffering state.
pub fn flush(
    groups: &mut Vec<ModifierGroup>,
    current_modifier: &mut Option<Modifier>,
    current_content: &mut Vec<Vec<char>>,
    negated: &mut bool,
)
    ensures
        group_views(final(groups)@) == flush_groups(
            group_views(old(groups)@),
            *old(current_modifier),
            token_views(old(current_content)@),
            *old(negated),
        ),
        *final(negated) == flush_negated(*old(current_modifier), *old(negated)),
        *final(current_modifier) is None,
        final(current_content)@.len() == 0,
{
    match *current_modifier {
        Some(m) => {
            let content = join_ws(current_content);
            let g = ModifierGroup { modifier: m, content, negated: *negated };
            proof {
                assert(group_views(groups@.push(g)) =~= group_views(groups@).push(g@));
            }
            groups.push(g);
            *negated = false;
        },
        None => {},
    }
    *current_modifier = None;
    *current_content = Vec::new();
}

/// One pass of the parsing loop, over the remaining input and the buffered
/// state; yields the final clause list.  `negated` is the flag the pending
/// clause captured when it started: the clause is flushed with it, and a
/// clause that a `!` immediately precedes starts with the flag set.
pub open spec fn parse_loop(
    rest: Seq<char>,
    groups: Seq<GroupModel>,
    cur: Option<Modifier>,
    content: Seq<Seq<char>>,
    negated: bool,
) -> Seq<GroupModel>
    decreases rest.len(),
    via parse_loop_decreases
{
    if rest.len() == 0 {
        flush_groups(groups, cur, content, negated)
    } else {
        let bang = rest[0] == '!';
        let rest1 = if bang {
            rest.drop_first()
        } else {
            rest
        };
        match spec_match_prefix(rest1) {
            Some(p) => {
                let groups1 = flush_groups(groups, cur, content, negated);
                let rest2 = trim_start(rest1.skip(p.1));
                if p.0.is_special_spec() {
                    groups1.push(GroupModel { modifier: p.0, content: rest2, negated: bang })
                } else {
                    parse_loop(rest2, groups1, Some(p.0), Seq::empty(), bang)
                }
            },
            None => {
                let te = token_end(rest1);
                let tok = rest1.subrange(0, te);
                let rest2 = trim_start(rest1.skip(te));
                parse_loop(rest2, groups, cur, content.push(tok), negated)
            },
        }
    }
}

#[via_fn]
proof fn parse_loop_decreases(
    rest: Seq<char>,
    groups: Seq<GroupModel>,
    cur: Option<Modifier>,
    content: Seq<Seq<char>>,
    negated: bool,
) {
    if rest.len() > 0 {
        let rest1 = if rest[0] == '!' {
            rest.drop_first()
        } else {
            rest
        };
        match spec_match_prefix(rest1) {
            Some(p) => {
                lemma_match_prefix_len(rest1);
                lemma_trim_start_len(rest1.skip(p.1));
            },
            None => {
                lemma_token_end(rest1);
                lemma_trim_start_len(rest1.skip(token_end(rest1)));
            },
        }
    }
}

/// The clause list denoted by a filter expression.
pub open spec fn spec_parse(s: Seq<char>) -> Seq<GroupModel> {
    parse_loop(trim_start(s), Seq::empty(), Option::<Modifier>::None, Seq::empty(), false)
}

impl PurgeArgs {
    /// Parse a filter expression.  Fails exactly when the expression is
    /// empty after trimming leading whitespace.
    ///
    /// Keywords match ASCII case-insensitively.  A `!` immediately before a
    /// modifier keyword negates the clause that keyword starts; a `!`
    /// anywhere else is consumed without effect.  Tokens seen before any
    /// modifier keyword are buffered but emit no clause: a clause always
    /// carries a modifier, so an expression without keywords parses to an
    /// empty clause list.
    pub fn pop_from(args: &str) -> (r: Result<PurgeArgs, ParseError>)
        ensures
            match r {
                Ok(p) => trim_start(args@).len() > 0 && p@ == spec_parse(args@),
                Err(e) => trim_start(args@).len() == 0 && e == ParseError::TooFewArguments,
            },
    {
        let chars = chars_of(args);
        let n = chars.len();
        let mut pos = trim_start_idx(chars.as_slice(), 0);
        proof {
            assert(chars@.skip(0) =~= chars@);
        }
        if pos == n {
            return Err(ParseError::TooFewArguments);
        }
        let mut groups: Vec<ModifierGroup> = Vec::new();
        let mut current_modifier: Option<Modifier> = None;
        let mut current_content: Vec<Vec<char>> = Vec::new();
        let mut negated = false;
        let mut special_found = false;

        proof {
            assert(group_views(groups@) =~= Seq::<GroupModel>::empty());
            assert(token_views(current_content@) =~= Seq::<Seq<char>>::empty());
        }

        while pos < n && !special_found
            invariant
                n == chars@.len(),
                0 <= pos <= n,
                chars@ == args@,
                !special_found ==> parse_loop(
                    chars@.skip(pos as int),
                    group_views(groups@),
                    current_modifier,
                    token_views(current_content@),
                    negated,
                ) == spec_parse(args@),
                special_found ==> group_views(groups@) == spec_parse(args@),
            decreases n - pos,
        {
            let ghost rest0 = chars@.skip(pos as int);
            let ghost groups0 = group_views(groups@);
            let ghost cur0 = current_modifier;
            let ghost content0 = token_views(current_content@);
            let ghost neg0 = negated;

            let bang = chars[pos] == '!';
            if bang {
                proof {
                    assert(rest0.drop_first() =~= chars@.skip(pos + 1));
                }
                pos = pos + 1;
            }
            let ghost rest1 = chars@.skip(pos as int);
            proof {
                assert(rest1 == if rest0[0] == '!' {
                    rest0.drop_first()
                } else {
                    rest0
                });
            }

            match match_prefix_at(chars.as_slice(), pos) {
                Some((m, klen)) => {
                    flush(&mut groups, &mut current_modifier, &mut current_content, &mut negated);
                    proof {
                        assert(group_views(groups@) == flush_groups(groups0, cur0, content0, neg0));
                    }
                    let after_kw = pos + klen;
                    pos = trim_start_idx(chars.as_slice(), after_kw);
                    proof {
                        assert(chars@.skip(after_kw as int) =~= rest1.skip(klen as int));
                        assert(chars@.skip(pos as int) == trim_start(rest1.skip(klen as int)));
                        lemma_trim_start_len(rest1.skip(klen as int));
                    }
                    current_modifier = Some(m);
                    current_content = Vec::new();
                    negated = bang;
                    proof {
                        assert(token_views(current_content@) =~= Seq::<Seq<char>>::empty());
                    }
                    if m.is_special() {
                        let content = slice_to_vec(chars.as_slice(), pos, n);
                        proof {
                            assert(content@ =~= chars@.skip(pos as int));
                        }
                        let g = ModifierGroup { modifier: m, content, negated };
                        proof {
                            assert(group_views(groups@.push(g)) =~= group_views(groups@).push(g@));
                        }
                        groups.push(g);
                        special_found = true;
                        proof {
                            assert(group_views(groups@) == parse_loop(
                                rest0,
                                groups0,
                                cur0,
                                content0,
                                neg0,
                            ));
                        }
                    }
                },
                None => {
                    let te = token_end_idx(chars.as_slice(), pos);
                    proof {
                        lemma_token_end(rest1);
                        assert(te - pos == token_end(rest1));
                    }
                    let tok = slice_to_vec(chars.as_slice(), pos, te);
                    proof {
                        assert(tok@ =~= rest1.subrange(0, token_end(rest1)));
                    }
                    let ghost content_before = token_views(current_content@);
                    current_content.push(tok);
                    proof {
                        assert(token_views(current_content@) =~= content_before.push(tok@));
                    }
                    pos = trim_start_idx(chars.as_slice(), te);
                    proof {
                        assert(chars@.skip(te as int) =~= rest1.skip(token_end(rest1)));
                        assert(chars@.skip(pos as int) == trim_start(rest1.skip(token_end(rest1))));
                        lemma_trim_start_len(rest1.skip(token_end(rest1)));
                    }
                },
            }
            proof {
                if !special_found {
                    assert(parse_loop(
                        chars@.skip(pos as int),
                        group_views(groups@),
                        current_modifier,
                        token_views(current_content@),
                        negated,
                    ) == parse_loop(rest0, groups0, cur0, content0, neg0));
                }
            }
        }

        if !special_found {
            proof {
                assert(chars@.skip(pos as int) =~= Seq::<char>::empty());
            }
            flush(&mut groups, &mut current_modifier, &mut current_content, &mut negated);
        }
        Ok(PurgeArgs(groups))
    }
}

} // verus!
