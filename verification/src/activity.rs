//! Small verified data carriers: direct-message activity counters, the
//! cooldown marker attached to an invocation, and the decaying per-guild
//! deletion counters.

use vstd::prelude::*;

verus! {

/// A user's direct-message activity row: when it was last announced, until
/// when it is suppressed, and how many messages were counted.
#[derive(Clone, Copy, Debug)]
pub struct DmActivity {
    pub last_announced: i64,
    pub until: Option<i64>,
    pub count: i16,
}

impl DmActivity {
    pub fn new(last_announced: i64, until: Option<i64>, count: i16) -> (a: DmActivity)
        ensures
            a.last_announced == last_announced,
            a.until == until,
            a.count == count,
    {
        DmActivity { last_announced, until, count }
    }
}

/// Marks an invocation whose failure came from a cooldown, carrying the
/// remaining wait in seconds.
pub struct InvocationData {
    pub cooldown_remaining: Option<u64>,
}

/// A per-guild deletion counter that decays while no deletion happens.
#[derive(Clone, Copy, Debug)]
pub struct Decay {
    pub val: u16,
    /// Seconds timestamp of the last update.
    pub last_update: u64,
}

/// Seconds elapsed from `last` to `now`, zero when `now` is earlier.
pub open spec fn elapsed_secs(last: u64, now: u64) -> int {
    if now >= last {
        now - last
    } else {
        0
    }
}

/// One decay pass over a counter at time `now`: after more than five
/// seconds without deletions the counter drops by one, and a counter that
/// reaches zero is removed (`None`).
pub open spec fn spec_decayed(d: Decay, now: u64) -> Option<Decay> {
    let new_val = if elapsed_secs(d.last_update, now) > 5 && d.val > 0 {
        (d.val - 1) as u16
    } else {
        d.val
    };
    if new_val == 0 {
        None
    } else {
        Some(Decay { val: new_val, last_update: d.last_update })
    }
}

impl Decay {
    /// Exec form of `spec_decayed`.
    pub fn decayed(&self, now: u64) -> (res: Option<Decay>)
        ensures
            res == spec_decayed(*self, now),
    {
        let elapsed_over = now >= self.last_update && now - self.last_update > 5;
        let new_val = if elapsed_over && self.val > 0 {
            self.val - 1
        } else {
            self.val
        };
        if new_val == 0 {
            None
        } else {
            Some(Decay { val: new_val, last_update: self.last_update })
        }
    }
}

/// One decay pass over a whole table of per-guild counters, in order:
/// every counter is stepped and the exhausted ones are dropped.
pub open spec fn decay_all(entries: Seq<(u64, Decay)>, now: u64) -> Seq<(u64, Decay)>
    decreases entries.len(),
{
    if entries.len() == 0 {
        Seq::empty()
    } else {
        let rest = decay_all(entries.drop_last(), now);
        let e = entries.last();
        match spec_decayed(e.1, now) {
            Some(d) => rest.push((e.0, d)),
            None => rest,
        }
    }
}

/// The guild keys of a table of counters.
pub open spec fn entry_keys(entries: Seq<(u64, Decay)>) -> Seq<u64> {
    entries.map_values(|e: (u64, Decay)| e.0)
}

/// Every key that survives a decay pass was a key of the table before the
/// pass, so unique keys stay unique.
proof fn lemma_decay_all_keys(entries: Seq<(u64, Decay)>, now: u64)
    ensures
        forall|k: u64|
            #[trigger] entry_keys(decay_all(entries, now)).contains(k) ==> entry_keys(
                entries,
            ).contains(k),
        entry_keys(entries).no_duplicates() ==> entry_keys(
            decay_all(entries, now),
        ).no_duplicates(),
    decreases entries.len(),
{
    if entries.len() > 0 {
        let prefix = entries.drop_last();
        lemma_decay_all_keys(prefix, now);
        let rest = decay_all(prefix, now);
        let e = entries.last();
        assert forall|k: u64| #[trigger] entry_keys(rest).contains(k) implies entry_keys(
            entries,
        ).contains(k) by {
            assert(entry_keys(prefix).contains(k));
            let i = choose|i: int|
                0 <= i < prefix.len() && #[trigger] entry_keys(prefix)[i] == k;
            assert(entry_keys(entries)[i] == k);
        }
        match spec_decayed(e.1, now) {
            Some(d) => {
                let out = rest.push((e.0, d));
                assert forall|k: u64| #[trigger] entry_keys(out).contains(k) implies entry_keys(
                    entries,
                ).contains(k) by {
                    let i = choose|i: int|
                        0 <= i < out.len() && #[trigger] entry_keys(out)[i] == k;
                    if i < rest.len() {
                        assert(entry_keys(rest)[i] == k);
                        assert(entry_keys(rest).contains(k));
                    } else {
                        assert(k == e.0);
                        assert(entry_keys(entries)[entries.len() - 1] == e.0);
                    }
                }
                if entry_keys(entries).no_duplicates() {
                    assert forall|i: int| 0 <= i < prefix.len() implies entry_keys(prefix)[i]
                        != e.0 by {
                        assert(entry_keys(entries)[i] == entry_keys(prefix)[i]);
                        assert(entry_keys(entries)[entries.len() - 1] == e.0);
                    }
                    assert(entry_keys(prefix).no_duplicates()) by {
                        assert forall|i: int, j: int|
                            0 <= i < prefix.len() && 0 <= j < prefix.len() && i != j implies
                            entry_keys(prefix)[i] != entry_keys(prefix)[j] by {
                            assert(entry_keys(entries)[i] == entry_keys(prefix)[i]);
                            assert(entry_keys(entries)[j] == entry_keys(prefix)[j]);
                        }
                    }
                    assert forall|i: int, j: int|
                        0 <= i < entry_keys(out).len() && 0 <= j < entry_keys(out).len() && i
                            != j implies entry_keys(out)[i] != entry_keys(out)[j] by {
                        if i < rest.len() && j < rest.len() {
                            assert(entry_keys(out)[i] == entry_keys(rest)[i]);
                            assert(entry_keys(out)[j] == entry_keys(rest)[j]);
                        } else if i < rest.len() && j == rest.len() {
                            assert(entry_keys(out)[j] == e.0);
                            assert(entry_keys(out)[i] == entry_keys(rest)[i]);
                            if entry_keys(rest)[i] == e.0 {
                                assert(entry_keys(rest).contains(e.0));
                                assert(entry_keys(prefix).contains(e.0));
                                let t = choose|t: int|
                                    0 <= t < prefix.len() && #[trigger] entry_keys(prefix)[t]
                                        == e.0;
                                assert(false);
                            }
                        } else if j < rest.len() && i == rest.len() {
                            assert(entry_keys(out)[i] == e.0);
                            assert(entry_keys(out)[j] == entry_keys(rest)[j]);
                            if entry_keys(rest)[j] == e.0 {
                                assert(entry_keys(rest).contains(e.0));
                                assert(entry_keys(prefix).contains(e.0));
                                let t = choose|t: int|
                                    0 <= t < prefix.len() && #[trigger] entry_keys(prefix)[t]
                                        == e.0;
                                assert(false);
                            }
                        }
                    }
                }
            },
            None => {
                if entry_keys(entries).no_duplicates() {
                    assert(entry_keys(prefix).no_duplicates()) by {
                        assert forall|i: int, j: int|
                            0 <= i < prefix.len() && 0 <= j < prefix.len() && i != j implies
                            entry_keys(prefix)[i] != entry_keys(prefix)[j] by {
                            assert(entry_keys(entries)[i] == entry_keys(prefix)[i]);
                            assert(entry_keys(entries)[j] == entry_keys(prefix)[j]);
                        }
                    }
                }
            },
        }
    }
}

/// The decaying per-guild deletion counters, keyed by guild id.
pub struct AntiDeleteCache {
    pub entries: Vec<(u64, Decay)>,
}

impl AntiDeleteCache {
    /// Well-formedness: one entry per guild.
    pub open spec fn wf(self) -> bool {
        entry_keys(self.entries@).no_duplicates()
    }

    pub fn new() -> (c: AntiDeleteCache)
        ensures
            c.wf(),
            c.entries@ == Seq::<(u64, Decay)>::empty(),
    {
        AntiDeleteCache { entries: Vec::new() }
    }

    /// Step every counter once at time `now` and drop the exhausted ones.
    pub fn decay_proc(&mut self, now: u64)
        ensures
            final(self).entries@ == decay_all(old(self).entries@, now),
            old(self).wf() ==> final(self).wf(),
    {
        let ghost before = self.entries@;
        let mut out: Vec<(u64, Decay)> = Vec::new();
        let mut i: usize = 0;
        while i < self.entries.len()
            invariant
                0 <= i <= self.entries@.len(),
                self.entries@ == before,
                out@ == decay_all(before.subrange(0, i as int), now),
            decreases self.entries@.len() - i,
        {
            proof {
                assert(before.subrange(0, i + 1).drop_last() =~= before.subrange(0, i as int));
                assert(before.subrange(0, i + 1).last() == before[i as int]);
            }
            let e = self.entries[i];
            match e.1.decayed(now) {
                Some(d) => {
                    out.push((e.0, d));
                },
                None => {},
            }
            i = i + 1;
        }
        proof {
            assert(before.subrange(0, before.len() as int) =~= before);
            lemma_decay_all_keys(before, now);
        }
        self.entries = out;
    }
}

} // verus!
