//! The vote tally: for each finality key of the current validator set, its
//! stash and the number of precommits it has cast since the set was last
//! replaced.
use vstd::prelude::*;

use crate::justification::{
    decode_justification, justification_matches, justification_ok, precommit_ids,
    GrandpaJustification,
};
use crate::primitives::{AccountId, DecodeError};
use crate::validators::{lemma_stash_for_step, names_key, stash_for, ValidatorSet};

verus! {

/// One line of the tally.
#[derive(Clone, Copy, Debug)]
pub struct TallyEntry {
    pub authority: AccountId,
    pub stash: AccountId,
    pub votes: u32,
}

/// Which entries a report shows.
#[derive(Clone, Copy, Debug, PartialEq, Eq, Structural)]
pub enum Visibility {
    All,
    Voted,
    Unvoted,
}

/// An entry with `votes` is shown under `mode`.
pub open spec fn shown(mode: Visibility, votes: u32) -> bool {
    match mode {
        Visibility::All => true,
        Visibility::Voted => votes > 0,
        Visibility::Unvoted => votes == 0,
    }
}

/// How many times `k` occurs in `ids`.
pub open spec fn occurrences(ids: Seq<Seq<u8>>, k: Seq<u8>) -> nat
    decreases ids.len(),
{
    if ids.len() == 0 {
        0
    } else {
        occurrences(ids.drop_last(), k) + if ids.last() == k {
            1nat
        } else {
            0nat
        }
    }
}

/// A count raised by `n`, stopping at the largest `u32`.
pub open spec fn raised(votes: u32, n: nat) -> u32 {
    if votes + n > u32::MAX {
        u32::MAX
    } else {
        (votes + n) as u32
    }
}

/// The entries shown under `mode`, as (stash, votes), in order.
pub open spec fn visible(rows: Seq<TallyEntry>, mode: Visibility) -> Seq<(Seq<u8>, u32)>
    decreases rows.len(),
{
    if rows.len() == 0 {
        Seq::empty()
    } else {
        let init = visible(rows.drop_last(), mode);
        if shown(mode, rows.last().votes) {
            init.push((rows.last().stash@, rows.last().votes))
        } else {
            init
        }
    }
}

/// No two entries share a finality key.
pub open spec fn keys_unique(rows: Seq<TallyEntry>) -> bool {
    forall|i: int, j: int|
        0 <= i < rows.len() && 0 <= j < rows.len() && i != j ==> (#[trigger] rows[i]).authority@
            != (#[trigger] rows[j]).authority@
}

/// Some entry has finality key `k`.
pub open spec fn has_key(rows: Seq<TallyEntry>, k: Seq<u8>) -> bool {
    exists|i: int| 0 <= i < rows.len() && (#[trigger] rows[i]).authority@ == k
}

/// `rows` is the fresh tally of `set`: one entry per finality key that the
/// set names, with the stash of the last pair that names it, at zero votes.
pub open spec fn fresh_tally(rows: Seq<TallyEntry>, set: Seq<(Seq<u8>, Seq<u8>)>) -> bool {
    &&& keys_unique(rows)
    &&& forall|k: Seq<u8>| #[trigger] has_key(rows, k) <==> names_key(set, k)
    &&& forall|i: int|
        0 <= i < rows.len() ==> (#[trigger] rows[i]).votes == 0 && stash_for(
            set,
            rows[i].authority@,
        ) == Some(rows[i].stash@)
}

/// `new` is `old` after counting the precommits cast by `ids`.
pub open spec fn counted(old: Seq<TallyEntry>, new: Seq<TallyEntry>, ids: Seq<Seq<u8>>) -> bool {
    &&& new.len() == old.len()
    &&& forall|i: int|
        0 <= i < old.len() ==> (#[trigger] new[i]).authority == old[i].authority && new[i].stash
            == old[i].stash && new[i].votes == raised(
            old[i].votes,
            occurrences(ids, old[i].authority@),
        )
}

/// The number of entries with at least one vote.
pub open spec fn voted_count(rows: Seq<TallyEntry>) -> nat
    decreases rows.len(),
{
    if rows.len() == 0 {
        0
    } else {
        voted_count(rows.drop_last()) + if rows.last().votes > 0 {
            1nat
        } else {
            0nat
        }
    }
}

/// A tally rebuilt for a new set keeps no finality key that only an
/// earlier set named.
pub proof fn lemma_set_change_forgets(
    rows: Seq<TallyEntry>,
    earlier: Seq<(Seq<u8>, Seq<u8>)>,
    set: Seq<(Seq<u8>, Seq<u8>)>,
    k: Seq<u8>,
)
    requires
        fresh_tally(rows, set),
        names_key(earlier, k),
        !names_key(set, k),
    ensures
        forall|i: int| 0 <= i < rows.len() ==> (#[trigger] rows[i]).authority@ != k,
{
    assert(!has_key(rows, k));
}

proof fn lemma_occurrences_step(ids: Seq<Seq<u8>>, i: int, k: Seq<u8>)
    requires
        0 <= i < ids.len(),
    ensures
        occurrences(ids.take(i + 1), k) == occurrences(ids.take(i), k) + if ids[i] == k {
            1nat
        } else {
            0nat
        },
{
    assert(ids.take(i + 1).drop_last() =~= ids.take(i));
}

proof fn lemma_voted_count_bound(rows: Seq<TallyEntry>)
    ensures
        voted_count(rows) <= rows.len(),
    decreases rows.len(),
{
    if rows.len() > 0 {
        lemma_voted_count_bound(rows.drop_last());
    }
}

/// The tally.
pub struct VoteTally {
    entries: Vec<TallyEntry>,
}

impl VoteTally {
    /// The entries, in order.
    pub closed spec fn rows(&self) -> Seq<TallyEntry> {
        self.entries@
    }

    /// Entries are keyed by finality key.
    pub open spec fn wf(&self) -> bool {
        keys_unique(self.rows())
    }

    /// An empty tally.
    pub fn new() -> (r: VoteTally)
        ensures
            r.wf(),
            r.rows().len() == 0,
    {
        VoteTally { entries: Vec::new() }
    }

    /// The entries, in order.
    pub fn entries(&self) -> (r: &Vec<TallyEntry>)
        ensures
            r@ == self.rows(),
    {
        &self.entries
    }

    fn index_of(&self, k: &AccountId) -> (r: Option<usize>)
        ensures
            match r {
                Some(j) => j < self.rows().len() && self.rows()[j as int].authority@ == k@,
                None => !has_key(self.rows(), k@),
            },
    {
        let mut i: usize = 0;
        while i < self.entries.len()
            invariant
                i <= self.rows().len(),
                forall|j: int| 0 <= j < i ==> (#[trigger] self.rows()[j]).authority@ != k@,
            decreases self.rows().len() - i,
        {
            if self.entries[i].authority.same_as(k) {
                return Some(i);
            }
            i = i + 1;
        }
        None
    }

    /// Starts over on a new validator set: one entry per finality key, at
    /// zero votes. Nothing of the previous tally survives.
    pub fn on_validator_set_change(&mut self, set: &ValidatorSet)
        ensures
            final(self).wf(),
            fresh_tally(final(self).rows(), set@),
    {
        self.entries = Vec::new();
        let mut i: usize = 0;
        while i < set.pairs.len()
            invariant
                i <= set@.len(),
                set@.len() == set.pairs@.len(),
                fresh_tally(self.rows(), set@.take(i as int)),
            decreases set@.len() - i,
        {
            let ghost before = self.rows();
            let ghost pre = set@.take(i as int);
            let ghost post = set@.take(i + 1);
            let (stash, authority) = set.pairs[i];
            let entry = TallyEntry { authority, stash, votes: 0 };
            let at = self.index_of(&authority);
            proof {
                assert forall|k: Seq<u8>| #[trigger] names_key(post, k) <==> (names_key(pre, k) || k
                    == authority@) by {
                    if names_key(post, k) && k != authority@ {
                        let j = choose|j: int| 0 <= j < post.len() && (#[trigger] post[j]).1 == k;
                        assert(pre[j].1 == k);
                    }
                    if names_key(pre, k) {
                        let j = choose|j: int| 0 <= j < pre.len() && (#[trigger] pre[j]).1 == k;
                        assert(post[j].1 == k);
                    }
                    if k == authority@ {
                        assert(post[i as int].1 == k);
                    }
                }
                assert forall|k: Seq<u8>| true implies stash_for(post, k) == if k == authority@ {
                    Some(stash@)
                } else {
                    stash_for(pre, k)
                } by {
                    lemma_stash_for_step(set@, i as int, k);
                }
            }
            match at {
                Some(j) => {
                    self.entries.set(j, entry);
                    proof {
                        assert forall|k: Seq<u8>| #[trigger]
                            has_key(self.rows(), k) <==> has_key(before, k) by {
                            if has_key(before, k) {
                                let m = choose|m: int|
                                    0 <= m < before.len() && (#[trigger] before[m]).authority@ == k;
                                assert(self.rows()[m].authority@ == k);
                            }
                            if has_key(self.rows(), k) {
                                let m = choose|m: int|
                                    0 <= m < self.rows().len() && (#[trigger] self.rows()[m]).authority@
                                        == k;
                                assert(before[m].authority@ == k);
                            }
                        }
                    }
                },
                None => {
                    self.entries.push(entry);
                    proof {
                        assert forall|k: Seq<u8>| #[trigger]
                            has_key(self.rows(), k) <==> (has_key(before, k) || k == authority@) by {
                            if has_key(before, k) {
                                let m = choose|m: int|
                                    0 <= m < before.len() && (#[trigger] before[m]).authority@ == k;
                                assert(self.rows()[m].authority@ == k);
                            }
                            if has_key(self.rows(), k) && k != authority@ {
                                let m = choose|m: int|
                                    0 <= m < self.rows().len() && (#[trigger] self.rows()[m]).authority@
                                        == k;
                                assert(before[m].authority@ == k);
                            }
                            if k == authority@ {
                                assert(self.rows()[before.len() as int].authority@ == k);
                            }
                        }
                    }
                },
            }
            i = i + 1;
        }
        assert(set@.take(set@.len() as int) =~= set@);
    }

    /// Counts the precommits of a justification: each one whose authority
    /// has an entry raises that entry's votes by one; the others are
    /// ignored.
    pub fn record_precommits(&mut self, j: &GrandpaJustification)
        requires
            old(self).wf(),
        ensures
            final(self).wf(),
            counted(old(self).rows(), final(self).rows(), precommit_ids(*j)),
    {
        let ghost start = self.rows();
        let ghost ids = precommit_ids(*j);
        let mut i: usize = 0;
        while i < j.commit.precommits.len()
            invariant
                i <= ids.len(),
                ids.len() == j.commit.precommits@.len(),
                ids == precommit_ids(*j),
                keys_unique(self.rows()),
                counted(start, self.rows(), ids.take(i as int)),
            decreases ids.len() - i,
        {
            let ghost before = self.rows();
            let id = j.commit.precommits[i].id;
            proof {
                assert forall|k: Seq<u8>| true implies occurrences(ids.take(i + 1), k) == occurrences(
                    ids.take(i as int),
                    k,
                ) + if id@ == k {
                    1nat
                } else {
                    0nat
                } by {
                    lemma_occurrences_step(ids, i as int, k);
                }
            }
            match self.index_of(&id) {
                Some(at) => {
                    let mut e = self.entries[at];
                    if e.votes < u32::MAX {
                        e.votes = e.votes + 1;
                    }
                    self.entries.set(at, e);
                    proof {
                        assert forall|m: int| 0 <= m < start.len() && m != at implies start[m].authority@
                            != id@ by {
                            assert(before[m].authority == start[m].authority);
                        }
                    }
                },
                None => {
                    proof {
                        assert forall|m: int| 0 <= m < start.len() implies start[m].authority@
                            != id@ by {
                            assert(before[m].authority == start[m].authority);
                        }
                    }
                },
            }
            i = i + 1;
        }
        assert(ids.take(ids.len() as int) =~= ids);
    }

    /// Decodes a justification and counts its precommits. A payload that does
    /// not decode leaves the tally as it was.
    pub fn on_justification(&mut self, raw: &[u8]) -> (r: Result<GrandpaJustification, DecodeError>)
        requires
            old(self).wf(),
        ensures
            final(self).wf(),
            r is Ok <==> justification_ok(raw@),
            r matches Ok(j) ==> justification_matches(raw@, j) && counted(
                old(self).rows(),
                final(self).rows(),
                precommit_ids(j),
            ),
            r is Err ==> final(self).rows() == old(self).rows(),
    {
        match decode_justification(raw) {
            Ok(j) => {
                self.record_precommits(&j);
                Ok(j)
            },
            Err(e) => Err(e),
        }
    }

    /// Number of entries.
    pub fn total(&self) -> (r: usize)
        ensures
            r == self.rows().len(),
    {
        self.entries.len()
    }

    /// Number of entries with at least one vote.
    pub fn voted(&self) -> (r: usize)
        ensures
            r == voted_count(self.rows()),
    {
        let mut n: usize = 0;
        let mut i: usize = 0;
        while i < self.entries.len()
            invariant
                i <= self.rows().len(),
                n == voted_count(self.rows().take(i as int)),
            decreases self.rows().len() - i,
        {
            proof {
                assert(self.rows().take(i + 1).drop_last() =~= self.rows().take(i as int));
                lemma_voted_count_bound(self.rows().take(i as int));
            }
            if self.entries[i].votes > 0 {
                n = n + 1;
            }
            i = i + 1;
        }
        assert(self.rows().take(self.rows().len() as int) =~= self.rows());
        n
    }

    /// The (stash, votes) of the entries shown under `mode`, in order.
    pub fn report(&self, mode: Visibility) -> (r: Vec<(AccountId, u32)>)
        ensures
            r@.map_values(|p: (AccountId, u32)| (p.0@, p.1)) == visible(self.rows(), mode),
    {
        let mut out: Vec<(AccountId, u32)> = Vec::new();
        let mut i: usize = 0;
        while i < self.entries.len()
            invariant
                i <= self.rows().len(),
                out@.map_values(|p: (AccountId, u32)| (p.0@, p.1)) == visible(
                    self.rows().take(i as int),
                    mode,
                ),
            decreases self.rows().len() - i,
        {
            let ghost prev = out@;
            proof {
                assert(self.rows().take(i + 1).drop_last() =~= self.rows().take(i as int));
            }
            let e = self.entries[i];
            let show = match mode {
                Visibility::All => true,
                Visibility::Voted => e.votes > 0,
                Visibility::Unvoted => e.votes == 0,
            };
            if show {
                out.push((e.stash, e.votes));
                assert(out@.map_values(|p: (AccountId, u32)| (p.0@, p.1)) =~= prev.map_values(
                    |p: (AccountId, u32)| (p.0@, p.1),
                ).push((e.stash@, e.votes)));
            }
            i = i + 1;
        }
        assert(self.rows().take(self.rows().len() as int) =~= self.rows());
        out
    }

    /// The votes counted for the finality key `authority`, if it has an
    /// entry.
    pub fn votes_of(&self, authority: &AccountId) -> (r: Option<u32>)
        requires
            self.wf(),
        ensures
            r is Some <==> has_key(self.rows(), authority@),
            forall|i: int|
                0 <= i < self.rows().len() && self.rows()[i].authority@ == authority@ ==> r
                    == Some(self.rows()[i].votes),
    {
        match self.index_of(authority) {
            Some(at) => Some(self.entries[at].votes),
            None => None,
        }
    }
}

} // verus!
