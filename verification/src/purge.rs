//! Message selection and deletion batching for the purge command.
//!
//! A fetched window of messages is run through the parsed filter clauses;
//! each clause adds its matches (union semantics), and the resulting set of
//! message ids is split into an individual delete of the invoking message
//! and one bulk batch, respecting the platform's batch-size cap.

use vstd::prelude::*;

use crate::filter::{GroupModel, Modifier, ModifierGroup, PurgeArgs};
use crate::patterns::{invite_match, is_invite, user_ref_captures, user_refs};
use crate::text::{
    all_digits, chars_of, contains_seq, contains_sub, dec_value, has_prefix, has_suffix,
    is_prefix, is_suffix, parse_u64,
};

verus! {

/// A read-only view of one fetched message: everything the filter
/// predicates look at.
pub struct MessageCandidate {
    pub id: u64,
    pub author_id: u64,
    pub content: Vec<char>,
    pub has_attachment: bool,
    pub author_is_bot: bool,
}

impl MessageCandidate {
    pub fn new(
        id: u64,
        author_id: u64,
        content: &str,
        has_attachment: bool,
        author_is_bot: bool,
    ) -> (m: MessageCandidate)
        ensures
            m.id == id,
            m.author_id == author_id,
            m.content@ == content@,
            m.has_attachment == has_attachment,
            m.author_is_bot == author_is_bot,
    {
        MessageCandidate { id, author_id, content: chars_of(content), has_attachment, author_is_bot }
    }
}

/// `http://` as a character sequence.
pub open spec fn http_prefix() -> Seq<char> {
    seq!['h', 't', 't', 'p', ':', '/', '/']
}

/// `https://` as a character sequence.
pub open spec fn https_prefix() -> Seq<char> {
    seq!['h', 't', 't', 'p', 's', ':', '/', '/']
}

/// The link predicate: the content contains `http://` or `https://`.
pub open spec fn spec_has_link(s: Seq<char>) -> bool {
    contains_seq(s, http_prefix()) || contains_seq(s, https_prefix())
}

/// Exec check for `spec_has_link`.
pub fn has_link(content: &[char]) -> (res: bool)
    ensures
        res == spec_has_link(content@),
{
    let http: Vec<char> = vec!['h', 't', 't', 'p', ':', '/', '/'];
    let https: Vec<char> = vec!['h', 't', 't', 'p', 's', ':', '/', '/'];
    proof {
        assert(http@ =~= http_prefix());
        assert(https@ =~= https_prefix());
    }
    contains_sub(content, http.as_slice()) || contains_sub(content, https.as_slice())
}

/// The user ids denoted by a sequence of captured digit runs: each run that
/// fits in a `u64` contributes its value.
pub open spec fn ids_of_captures(cs: Seq<Seq<char>>) -> Seq<u64>
    decreases cs.len(),
{
    if cs.len() == 0 {
        Seq::empty()
    } else {
        let rest = ids_of_captures(cs.drop_last());
        let c = cs.last();
        if c.len() > 0 && all_digits(c) && dec_value(c) <= u64::MAX {
            rest.push(dec_value(c) as u64)
        } else {
            rest
        }
    }
}

/// The user ids referenced by the content of a `user` clause.
pub open spec fn spec_user_ids(s: Seq<char>) -> Seq<u64> {
    ids_of_captures(user_ref_captures(s))
}

/// Exec extraction of the user ids referenced by a `user` clause.
fn parse_user_ids(content: &[char]) -> (res: Vec<u64>)
    ensures
        res@ == spec_user_ids(content@),
{
    let caps = user_refs(content);
    let ghost cap_views = caps@.map_values(|t: Vec<char>| t@);
    let mut out: Vec<u64> = Vec::new();
    let mut i: usize = 0;
    while i < caps.len()
        invariant
            0 <= i <= caps@.len(),
            cap_views == caps@.map_values(|t: Vec<char>| t@),
            cap_views == user_ref_captures(content@),
            out@ == ids_of_captures(cap_views.subrange(0, i as int)),
        decreases caps@.len() - i,
    {
        proof {
            assert(cap_views.subrange(0, i + 1).drop_last() =~= cap_views.subrange(0, i as int));
            assert(cap_views.subrange(0, i + 1).last() == cap_views[i as int]);
            assert(cap_views[i as int] == caps@[i as int]@);
        }
        match parse_u64(caps[i].as_slice()) {
            Some(v) => {
                out.push(v);
            },
            None => {},
        }
        i = i + 1;
    }
    proof {
        assert(cap_views.subrange(0, cap_views.len() as int) =~= cap_views);
    }
    out
}

/// The predicate of one clause against one message, before negation.
pub open spec fn clause_matches(g: GroupModel, m: MessageCandidate) -> bool {
    match g.modifier {
        Modifier::User => spec_user_ids(g.content).contains(m.author_id),
        Modifier::Bot => m.author_is_bot,
        Modifier::Match => contains_seq(m.content@, g.content),
        Modifier::StartsWith => is_prefix(g.content, m.content@),
        Modifier::EndsWith => is_suffix(g.content, m.content@),
        Modifier::Links => spec_has_link(m.content@),
        Modifier::Invites => invite_match(m.content@),
        Modifier::Attachments => m.has_attachment,
    }
}

/// The effective decision of one clause: negation flips the predicate.
pub open spec fn clause_selects(g: GroupModel, m: MessageCandidate) -> bool {
    clause_matches(g, m) != g.negated
}

/// The ids of every message in the window.
pub open spec fn window_ids(window: Seq<MessageCandidate>) -> Set<u64> {
    Set::new(|id: u64| exists|i: int| 0 <= i < window.len() && #[trigger] window[i].id == id)
}

/// The ids selected by a clause list: the union of the per-clause matches.
pub open spec fn spec_selection(
    window: Seq<MessageCandidate>,
    groups: Seq<GroupModel>,
) -> Set<u64> {
    Set::new(
        |id: u64|
            exists|i: int, j: int|
                0 <= i < window.len() && 0 <= j < groups.len() && #[trigger] window[i].id == id
                    && clause_selects(#[trigger] groups[j], window[i]),
    )
}

/// A `user` clause whose content holds no parseable user reference aborts
/// the whole command.
pub open spec fn has_unparseable_user_clause(groups: Seq<GroupModel>) -> bool {
    exists|j: int|
        0 <= j < groups.len() && (#[trigger] groups[j].modifier) is User && spec_user_ids(
            groups[j].content,
        ).len() == 0
}

/// Negating a clause selects exactly the messages the clause alone would
/// leave.
pub proof fn lemma_negation_flips(g: GroupModel, m: MessageCandidate)
    ensures
        clause_selects(
            (GroupModel { modifier: g.modifier, content: g.content, negated: !g.negated }),
            m,
        ) == !clause_selects(g, m),
{
}

/// A window whose message ids are distinct yields exactly one selected id
/// per message when no filter is given.
pub proof fn lemma_window_ids_count(window: Seq<MessageCandidate>)
    requires
        forall|i: int, j: int|
            0 <= i < window.len() && 0 <= j < window.len() && i != j ==> (#[trigger] window[i]).id
                != (#[trigger] window[j]).id,
    ensures
        window_ids(window).finite(),
        window_ids(window).len() == window.len(),
    decreases window.len(),
{
    if window.len() == 0 {
        assert(window_ids(window) =~= Set::<u64>::empty());
    } else {
        let prefix = window.drop_last();
        lemma_window_ids_count(prefix);
        let last_id = window.last().id;
        assert forall|id: u64| window_ids(window).contains(id) implies window_ids(prefix).insert(
            last_id,
        ).contains(id) by {
            let i = choose|i: int| 0 <= i < window.len() && #[trigger] window[i].id == id;
            if i < prefix.len() {
                assert(prefix[i].id == id);
            }
        };
        assert forall|id: u64| window_ids(prefix).insert(last_id).contains(id) implies window_ids(
            window,
        ).contains(id) by {
            if id == last_id {
                assert(window[window.len() - 1].id == id);
            } else {
                let i = choose|i: int| 0 <= i < prefix.len() && #[trigger] prefix[i].id == id;
                assert(window[i].id == id);
            }
        };
        assert(window_ids(window) =~= window_ids(prefix).insert(last_id));
        if window_ids(prefix).contains(last_id) {
            let i = choose|i: int| 0 <= i < prefix.len() && #[trigger] prefix[i].id == last_id;
            assert(window[i].id == window[window.len() - 1].id);
            assert(false);
        }
    }
}

/// Clauses combine as a union: the selection of two clause lists run
/// together is the union of their separate selections.
pub proof fn lemma_selection_union(
    window: Seq<MessageCandidate>,
    gs1: Seq<GroupModel>,
    gs2: Seq<GroupModel>,
)
    ensures
        spec_selection(window, gs1 + gs2) == spec_selection(window, gs1).union(
            spec_selection(window, gs2),
        ),
{
    let both = gs1 + gs2;
    assert forall|id: u64| spec_selection(window, both).contains(id) implies spec_selection(
        window,
        gs1,
    ).union(spec_selection(window, gs2)).contains(id) by {
        let (i, j) = choose|i: int, j: int|
            0 <= i < window.len() && 0 <= j < both.len() && #[trigger] window[i].id == id
                && clause_selects(#[trigger] both[j], window[i]);
        if j < gs1.len() {
            assert(gs1[j] == both[j]);
        } else {
            assert(gs2[j - gs1.len()] == both[j]);
        }
    };
    assert forall|id: u64| spec_selection(window, gs1).union(spec_selection(window, gs2)).contains(
        id,
    ) implies spec_selection(window, both).contains(id) by {
        if spec_selection(window, gs1).contains(id) {
            let (i, j) = choose|i: int, j: int|
                0 <= i < window.len() && 0 <= j < gs1.len() && #[trigger] window[i].id == id
                    && clause_selects(#[trigger] gs1[j], window[i]);
            assert(both[j] == gs1[j]);
        } else {
            let (i, j) = choose|i: int, j: int|
                0 <= i < window.len() && 0 <= j < gs2.len() && #[trigger] window[i].id == id
                    && clause_selects(#[trigger] gs2[j], window[i]);
            assert(both[j + gs1.len()] == gs2[j]);
        }
    };
    assert(spec_selection(window, both) =~= spec_selection(window, gs1).union(
        spec_selection(window, gs2),
    ));
}

/// A set of message ids selected for deletion; insertion order is kept but
/// carries no meaning.
pub struct DeletionSet {
    ids: Vec<u64>,
}

impl View for DeletionSet {
    type V = Set<u64>;

    closed spec fn view(&self) -> Set<u64> {
        self.ids@.to_set()
    }
}

impl DeletionSet {
    /// Well-formedness: the backing vector holds no duplicates, so its
    /// length is the set's cardinality.  Constructors establish it and
    /// methods preserve it.
    pub closed spec fn wf(self) -> bool {
        self.ids@.no_duplicates()
    }

    pub fn new() -> (s: DeletionSet)
        ensures
            s.wf(),
            s@ == Set::<u64>::empty(),
    {
        let s = DeletionSet { ids: Vec::new() };
        proof {
            assert(s.ids@.to_set() =~= Set::<u64>::empty());
        }
        s
    }

    pub fn contains(&self, id: u64) -> (res: bool)
        ensures
            res == self@.contains(id),
    {
        let mut i: usize = 0;
        while i < self.ids.len()
            invariant
                0 <= i <= self.ids@.len(),
                forall|t: int| 0 <= t < i ==> self.ids@[t] != id,
            decreases self.ids@.len() - i,
        {
            if self.ids[i] == id {
                return true;
            }
            i = i + 1;
        }
        proof {
            assert(!self.ids@.contains(id));
        }
        false
    }

    /// Add an id; a second insertion of the same id changes nothing.
    pub fn insert(&mut self, id: u64)
        requires
            old(self).wf(),
        ensures
            final(self).wf(),
            final(self)@ == old(self)@.insert(id),
    {
        if !self.contains(id) {
            let ghost before = self.ids@;
            proof {
                assert(!before.contains(id));
            }
            self.ids.push(id);
            proof {
                before.lemma_push_to_set_commute(id);
                assert(self.ids@.to_set() =~= before.to_set().insert(id));
                assert forall|i: int, j: int|
                    0 <= i < self.ids@.len() && 0 <= j < self.ids@.len() && i != j implies self
                    .ids@[i] != self.ids@[j] by {
                    if i < before.len() && j == before.len() {
                        if before[i] == id {
                            assert(before.contains(id));
                        }
                    } else if j < before.len() && i == before.len() {
                        if before[j] == id {
                            assert(before.contains(id));
                        }
                    }
                };
            }
        } else {
            proof {
                assert(self.ids@.contains(id));
                assert(self.ids@.to_set() =~= self.ids@.to_set().insert(id));
            }
        }
    }

    /// The number of selected ids.
    pub fn len(&self) -> (n: usize)
        requires
            self.wf(),
        ensures
            n == self@.len(),
    {
        proof {
            self.ids@.unique_seq_to_set();
        }
        self.ids.len()
    }

    /// The selected ids, without duplicates, in insertion order.
    pub fn ids(&self) -> (v: &Vec<u64>)
        requires
            self.wf(),
        ensures
            v@.to_set() == self@,
            v@.no_duplicates(),
    {
        &self.ids
    }
}

/// Why a purge invocation was rejected before any deletion.
#[derive(Clone, Copy, Debug, PartialEq, Eq, Structural)]
pub enum PurgeReject {
    /// The window size is outside the accepted range.
    InvalidLimit,
    /// A `user` clause held no parseable user reference.
    CannotParseUsers,
}

/// The accepted window sizes.
pub open spec fn limit_ok(limit: u8) -> bool {
    2 <= limit <= 100
}

/// Exec check for `limit_ok`.
pub fn limit_valid(limit: u8) -> (res: bool)
    ensures
        res == limit_ok(limit),
{
    2 <= limit && limit <= 100
}

/// The accepted delays, in seconds, for a delayed purge.
pub fn delay_valid(seconds: u16) -> (res: bool)
    ensures
        res == (seconds <= 300),
{
    seconds <= 300
}

/// Which notification channel a moderation reply uses.
#[derive(Clone, Copy, Debug, PartialEq, Eq, Structural)]
pub enum NotifyChoice {
    React,
    Message,
    Nothing,
}

/// The fallback rule of the moderation replies: the preferred channel is
/// used when its permission is there, else the other one, else nothing.
pub fn message_react(prefer_reaction: bool, can_message: bool, can_react: bool) -> (c:
    NotifyChoice)
    ensures
        prefer_reaction && can_react ==> c == NotifyChoice::React,
        prefer_reaction && !can_react && can_message ==> c == NotifyChoice::Message,
        !prefer_reaction && can_message ==> c == NotifyChoice::Message,
        !prefer_reaction && !can_message && can_react ==> c == NotifyChoice::React,
        !can_message && !can_react ==> c == NotifyChoice::Nothing,
{
    if (prefer_reaction && can_react) || (!prefer_reaction && !can_message) {
        if can_react {
            NotifyChoice::React
        } else {
            NotifyChoice::Nothing
        }
    } else {
        if can_message {
            NotifyChoice::Message
        } else {
            NotifyChoice::Nothing
        }
    }
}

/// The effective decision of one clause against one message.  For a `user`
/// clause the ids extracted from its content are passed in.
fn eval_clause(group: &ModifierGroup, users: &Vec<u64>, msg: &MessageCandidate) -> (res: bool)
    requires
        group.modifier is User ==> users@ == spec_user_ids(group.content@),
    ensures
        res == clause_matches(group@, *msg),
{
    match group.modifier {
        Modifier::User => vec_contains_u64(users, msg.author_id),
        Modifier::Bot => msg.author_is_bot,
        Modifier::Match => contains_sub(msg.content.as_slice(), group.content.as_slice()),
        Modifier::StartsWith => has_prefix(msg.content.as_slice(), group.content.as_slice()),
        Modifier::EndsWith => has_suffix(msg.content.as_slice(), group.content.as_slice()),
        Modifier::Links => has_link(msg.content.as_slice()),
        Modifier::Invites => is_invite(msg.content.as_slice()),
        Modifier::Attachments => msg.has_attachment,
    }
}

fn vec_contains_u64(v: &Vec<u64>, x: u64) -> (res: bool)
    ensures
        res == v@.contains(x),
{
    let mut i: usize = 0;
    while i < v.len()
        invariant
            0 <= i <= v@.len(),
            forall|t: int| 0 <= t < i ==> v@[t] != x,
        decreases v@.len() - i,
    {
        if v[i] == x {
            return true;
        }
        i = i + 1;
    }
    false
}

/// The ids among the first `k` messages that clause `g` selects.
spec fn clause_prefix_selection(
    window: Seq<MessageCandidate>,
    g: GroupModel,
    k: int,
) -> Set<u64> {
    Set::new(
        |id: u64|
            exists|i: int|
                0 <= i < k && i < window.len() && #[trigger] window[i].id == id && clause_selects(
                    g,
                    window[i],
                ),
    )
}

/// Decide which messages of the fetched window a purge invocation deletes.
///
/// With no filter every message of the window is selected.  Otherwise each
/// clause in turn adds the messages it selects; the clauses combine as a
/// union.  A limit outside the accepted range, or a `user` clause without a
/// parseable user reference, rejects the invocation and nothing is
/// selected.
pub fn purge_prep(limit: u8, window: &Vec<MessageCandidate>, command: &Option<PurgeArgs>) -> (r:
    Result<DeletionSet, PurgeReject>)
    ensures
        match r {
            Err(PurgeReject::InvalidLimit) => !limit_ok(limit),
            Err(PurgeReject::CannotParseUsers) => limit_ok(limit) && (match command {
                Option::Some(c) => has_unparseable_user_clause(c@),
                Option::None => false,
            }),
            Ok(sel) => limit_ok(limit) && sel.wf() && (match command {
                Option::None => sel@ == window_ids(window@),
                Option::Some(c) => !has_unparseable_user_clause(c@) && sel@ == spec_selection(
                    window@,
                    c@,
                ),
            }),
        },
{
    if !limit_valid(limit) {
        return Err(PurgeReject::InvalidLimit);
    }

    let mut deleted = DeletionSet::new();

    let args = match command {
        Option::Some(c) => c,
        Option::None => {
            let mut k: usize = 0;
            while k < window.len()
                invariant
                    0 <= k <= window@.len(),
                    deleted.wf(),
                    deleted@ =~= window_ids(window@.subrange(0, k as int)),
                decreases window@.len() - k,
            {
                deleted.insert(window[k].id);
                proof {
                    let pre = window@.subrange(0, k as int);
                    let post = window@.subrange(0, k + 1);
                    assert forall|id: u64| window_ids(pre).insert(window@[k as int].id).contains(
                        id,
                    ) implies window_ids(post).contains(id) by {
                        if id == window@[k as int].id {
                            assert(post[k as int].id == id);
                        } else {
                            let i = choose|i: int|
                                0 <= i < pre.len() && #[trigger] pre[i].id == id;
                            assert(post[i].id == id);
                        }
                    };
                    assert forall|id: u64| window_ids(post).contains(id) implies window_ids(
                        pre,
                    ).insert(window@[k as int].id).contains(id) by {
                        let i = choose|i: int| 0 <= i < post.len() && #[trigger] post[i].id == id;
                        if i < k {
                            assert(pre[i].id == id);
                        }
                    };
                    assert(window_ids(pre).insert(window@[k as int].id) =~= window_ids(post));
                }
                k = k + 1;
            }
            proof {
                assert(window@.subrange(0, window@.len() as int) =~= window@);
            }
            return Ok(deleted);
        },
    };

    let groups = &args.0;
    let ghost gvs = args@;
    proof {
        assert(spec_selection(window@, gvs.subrange(0, 0)) =~= Set::<u64>::empty());
    }
    let mut j: usize = 0;
    while j < groups.len()
        invariant
            0 <= j <= groups@.len(),
            limit_ok(limit),
            command matches Option::Some(c) && c@ == gvs,
            gvs == groups@.map_values(|g: ModifierGroup| g@),
            deleted.wf(),
            deleted@ =~= spec_selection(window@, gvs.subrange(0, j as int)),
            forall|t: int|
                0 <= t < j ==> !((#[trigger] gvs[t].modifier) is User && spec_user_ids(
                    gvs[t].content,
                ).len() == 0),
        decreases groups@.len() - j,
    {
        let group = &groups[j];
        proof {
            assert(group@ == gvs[j as int]);
        }
        let users: Vec<u64> = match group.modifier {
            Modifier::User => {
                let ids = parse_user_ids(group.content.as_slice());
                if ids.len() == 0 {
                    proof {
                        assert((gvs[j as int].modifier) is User && spec_user_ids(
                            gvs[j as int].content,
                        ).len() == 0);
                    }
                    return Err(PurgeReject::CannotParseUsers);
                }
                ids
            },
            _ => Vec::new(),
        };

        let mut k: usize = 0;
        while k < window.len()
            invariant
                0 <= k <= window@.len(),
                0 <= j < groups@.len(),
                gvs == groups@.map_values(|g: ModifierGroup| g@),
                groups@[j as int]@ == gvs[j as int],
                group == groups@[j as int],
                group.modifier is User ==> users@ == spec_user_ids(group.content@),
                deleted.wf(),
                deleted@ =~= spec_selection(window@, gvs.subrange(0, j as int)).union(
                    clause_prefix_selection(window@, gvs[j as int], k as int),
                ),
            decreases window@.len() - k,
        {
            let msg = &window[k];
            let matches = eval_clause(group, &users, msg);
            let ghost pre = spec_selection(window@, gvs.subrange(0, j as int)).union(
                clause_prefix_selection(window@, gvs[j as int], k as int),
            );
            let ghost post = spec_selection(window@, gvs.subrange(0, j as int)).union(
                clause_prefix_selection(window@, gvs[j as int], k + 1),
            );
            if matches != group.negated {
                deleted.insert(msg.id);
                proof {
                    assert(clause_selects(gvs[j as int], window@[k as int]));
                    assert forall|id: u64| pre.insert(window@[k as int].id).contains(id) implies
                        post.contains(id) by {
                        if id == window@[k as int].id {
                            assert(clause_prefix_selection(window@, gvs[j as int], k + 1).contains(
                                id,
                            )) by {
                                assert(window@[k as int].id == id);
                            }
                        } else {
                            assert(pre.contains(id));
                        }
                    };
                    assert forall|id: u64| post.contains(id) implies pre.insert(
                        window@[k as int].id,
                    ).contains(id) by {
                        if clause_prefix_selection(window@, gvs[j as int], k + 1).contains(id) {
                            let i = choose|i: int|
                                0 <= i < k + 1 && i < window@.len() && #[trigger] window@[i].id
                                    == id && clause_selects(gvs[j as int], window@[i]);
                            if i < k {
                                assert(clause_prefix_selection(window@, gvs[j as int], k as int)
                                    .contains(id));
                            }
                        }
                    };
                    assert(deleted@ =~= post);
                }
            } else {
                proof {
                    assert(!clause_selects(gvs[j as int], window@[k as int]));
                    assert forall|id: u64| post.contains(id) implies pre.contains(id) by {
                        if clause_prefix_selection(window@, gvs[j as int], k + 1).contains(id) {
                            let i = choose|i: int|
                                0 <= i < k + 1 && i < window@.len() && #[trigger] window@[i].id
                                    == id && clause_selects(gvs[j as int], window@[i]);
                            assert(i < k);
                            assert(clause_prefix_selection(window@, gvs[j as int], k as int)
                                .contains(id));
                        }
                    };
                    assert forall|id: u64| pre.contains(id) implies post.contains(id) by {
                        if clause_prefix_selection(window@, gvs[j as int], k as int).contains(id) {
                            let i = choose|i: int|
                                0 <= i < k && i < window@.len() && #[trigger] window@[i].id == id
                                    && clause_selects(gvs[j as int], window@[i]);
                            assert(clause_prefix_selection(window@, gvs[j as int], k + 1).contains(
                                id,
                            ));
                        }
                    };
                    assert(deleted@ =~= post);
                }
            }
            k = k + 1;
        }

        proof {
            let pre = spec_selection(window@, gvs.subrange(0, j as int)).union(
                clause_prefix_selection(window@, gvs[j as int], window@.len() as int),
            );
            let post = spec_selection(window@, gvs.subrange(0, j + 1));
            assert forall|id: u64| pre.contains(id) implies post.contains(id) by {
                if spec_selection(window@, gvs.subrange(0, j as int)).contains(id) {
                    let (i, t) = choose|i: int, t: int|
                        0 <= i < window@.len() && 0 <= t < gvs.subrange(0, j as int).len()
                            && #[trigger] window@[i].id == id && clause_selects(
                            #[trigger] gvs.subrange(0, j as int)[t],
                            window@[i],
                        );
                    assert(gvs.subrange(0, j + 1)[t] == gvs[t]);
                    assert(gvs.subrange(0, j as int)[t] == gvs[t]);
                } else {
                    let i = choose|i: int|
                        0 <= i < window@.len() && #[trigger] window@[i].id == id && clause_selects(
                            gvs[j as int],
                            window@[i],
                        );
                    assert(gvs.subrange(0, j + 1)[j as int] == gvs[j as int]);
                }
            };
            assert forall|id: u64| post.contains(id) implies pre.contains(id) by {
                let (i, t) = choose|i: int, t: int|
                    0 <= i < window@.len() && 0 <= t < gvs.subrange(0, j + 1).len()
                        && #[trigger] window@[i].id == id && clause_selects(
                        #[trigger] gvs.subrange(0, j + 1)[t],
                        window@[i],
                    );
                assert(gvs.subrange(0, j + 1)[t] == gvs[t]);
                if t < j {
                    assert(gvs.subrange(0, j as int)[t] == gvs[t]);
                } else {
                    assert(clause_prefix_selection(window@, gvs[j as int], window@.len() as int)
                        .contains(id));
                }
            };
            assert(deleted@ =~= post);
        }
        j = j + 1;
    }
    proof {
        assert(gvs.subrange(0, gvs.len() as int) =~= gvs);
    }
    Ok(deleted)
}

/// How a selection is carried out: whether the invoking message is deleted
/// individually first, and the ids of the one bulk call.
pub struct DeletionPlan {
    pub delete_invoking_first: bool,
    pub batch: Vec<u64>,
}

/// Split a selection into the deletion steps.
///
/// A selection larger than 99 would overflow the platform's bulk cap once
/// the invoking message is added, so the invoking message is deleted
/// individually and kept out of the batch; otherwise it joins the batch.
pub fn delete_plan(selection: &DeletionSet, invoking_id: u64) -> (p: DeletionPlan)
    requires
        selection.wf(),
    ensures
        p.delete_invoking_first == (selection@.len() > 99),
        p.batch@.no_duplicates(),
        selection@.len() > 99 ==> p.batch@.to_set() == selection@.remove(invoking_id),
        selection@.len() <= 99 ==> p.batch@.to_set() == selection@.insert(invoking_id),
{
    let ids = selection.ids();
    if selection.len() > 99 {
        let mut batch: Vec<u64> = Vec::new();
        let mut i: usize = 0;
        while i < ids.len()
            invariant
                0 <= i <= ids@.len(),
                ids@.no_duplicates(),
                batch@.no_duplicates(),
                batch@.to_set() =~= ids@.subrange(0, i as int).to_set().remove(invoking_id),
            decreases ids@.len() - i,
        {
            proof {
                assert(ids@.subrange(0, i + 1).drop_last() =~= ids@.subrange(0, i as int));
                assert(ids@.subrange(0, i as int).to_set().contains(ids@[i as int])
                    == ids@.subrange(0, i as int).contains(ids@[i as int]));
            }
            let ghost pre = ids@.subrange(0, i as int);
            let ghost bpre = batch@;
            proof {
                pre.lemma_push_to_set_commute(ids@[i as int]);
                assert(pre.push(ids@[i as int]) =~= ids@.subrange(0, i + 1));
            }
            if ids[i] != invoking_id {
                proof {
                    if pre.contains(ids@[i as int]) {
                        let t = choose|t: int| 0 <= t < i && #[trigger] pre[t] == ids@[i as int];
                        assert(ids@[t] == ids@[i as int]);
                        assert(false);
                    }
                    if batch@.contains(ids@[i as int]) {
                        assert(batch@.to_set().contains(ids@[i as int]));
                        assert(pre.contains(ids@[i as int]));
                        assert(false);
                    }
                }
                batch.push(ids[i]);
                proof {
                    bpre.lemma_push_to_set_commute(ids@[i as int]);
                    assert(batch@.to_set() =~= ids@.subrange(0, i + 1).to_set().remove(
                        invoking_id,
                    ));
                }
            } else {
                proof {
                    assert(batch@.to_set() =~= ids@.subrange(0, i + 1).to_set().remove(
                        invoking_id,
                    ));
                }
            }
            i = i + 1;
        }
        proof {
            assert(ids@.subrange(0, ids@.len() as int) =~= ids@);
        }
        DeletionPlan { delete_invoking_first: true, batch }
    } else {
        let mut batch: Vec<u64> = Vec::new();
        let mut i: usize = 0;
        while i < ids.len()
            invariant
                0 <= i <= ids@.len(),
                ids@.no_duplicates(),
                batch@.no_duplicates(),
                batch@ =~= ids@.subrange(0, i as int),
            decreases ids@.len() - i,
        {
            batch.push(ids[i]);
            proof {
                assert(batch@ =~= ids@.subrange(0, i + 1));
            }
            i = i + 1;
        }
        proof {
            assert(ids@.subrange(0, ids@.len() as int) =~= ids@);
        }
        if !selection.contains(invoking_id) {
            let ghost bpre = batch@;
            proof {
                assert(!ids@.to_set().contains(invoking_id));
                assert(!batch@.contains(invoking_id));
            }
            batch.push(invoking_id);
            proof {
                bpre.lemma_push_to_set_commute(invoking_id);
                assert(batch@.to_set() =~= ids@.to_set().insert(invoking_id));
            }
        } else {
            proof {
                assert(ids@.to_set().contains(invoking_id));
                assert(batch@.to_set() =~= ids@.to_set().insert(invoking_id));
            }
        }
        DeletionPlan { delete_invoking_first: false, batch }
    }
}

} // verus!
