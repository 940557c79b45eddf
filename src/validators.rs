//! The current validator set: for each stash, the key it votes with in
//! block finality.
use vstd::prelude::*;

use crate::primitives::{AccountId, DecodeError};
use crate::session_keys::{decode_queued_keys, queue_entry, queue_len, queue_ok, SessionKeys};

verus! {

/// The stash bound to the finality key `k`: the last pair that names it.
pub open spec fn stash_for(pairs: Seq<(Seq<u8>, Seq<u8>)>, k: Seq<u8>) -> Option<Seq<u8>>
    decreases pairs.len(),
{
    if pairs.len() == 0 {
        None
    } else if pairs.last().1 == k {
        Some(pairs.last().0)
    } else {
        stash_for(pairs.drop_last(), k)
    }
}

/// `k` is the finality key of some pair.
pub open spec fn names_key(pairs: Seq<(Seq<u8>, Seq<u8>)>, k: Seq<u8>) -> bool {
    exists|i: int| 0 <= i < pairs.len() && (#[trigger] pairs[i]).1 == k
}

/// The (stash, finality key) pairs of a queue that decodes.
pub open spec fn queue_pairs<SK: SessionKeys>(d: Seq<u8>) -> Seq<(Seq<u8>, Seq<u8>)> {
    Seq::new(
        queue_len(d) as nat,
        |i: int| (queue_entry::<SK>(d, i).0, queue_entry::<SK>(d, i).1[SK::grandpa_index() as int]),
    )
}

/// Looking a key up in one more pair.
pub proof fn lemma_stash_for_step(pairs: Seq<(Seq<u8>, Seq<u8>)>, i: int, k: Seq<u8>)
    requires
        0 <= i < pairs.len(),
    ensures
        stash_for(pairs.take(i + 1), k) == if pairs[i].1 == k {
            Some(pairs[i].0)
        } else {
            stash_for(pairs.take(i), k)
        },
{
    assert(pairs.take(i + 1).drop_last() =~= pairs.take(i));
}

/// A key has a stash exactly when some pair names it.
pub proof fn lemma_stash_for_some(pairs: Seq<(Seq<u8>, Seq<u8>)>, k: Seq<u8>)
    ensures
        stash_for(pairs, k) is Some <==> names_key(pairs, k),
    decreases pairs.len(),
{
    if pairs.len() > 0 {
        let init = pairs.drop_last();
        lemma_stash_for_some(init, k);
        if names_key(pairs, k) && pairs.last().1 != k {
            let i = choose|i: int| 0 <= i < pairs.len() && (#[trigger] pairs[i]).1 == k;
            assert(init[i].1 == k);
        }
        if names_key(init, k) {
            let i = choose|i: int| 0 <= i < init.len() && (#[trigger] init[i]).1 == k;
            assert(pairs[i].1 == k);
        }
        if pairs.last().1 == k {
            assert(pairs[pairs.len() - 1].1 == k);
        }
    }
}

/// The validator set, as (stash, finality key) pairs in queue order.
pub struct ValidatorSet {
    pub pairs: Vec<(AccountId, AccountId)>,
}

impl View for ValidatorSet {
    type V = Seq<(Seq<u8>, Seq<u8>)>;

    open spec fn view(&self) -> Seq<(Seq<u8>, Seq<u8>)> {
        self.pairs@.map_values(|p: (AccountId, AccountId)| (p.0@, p.1@))
    }
}

impl ValidatorSet {
    /// The empty set.
    pub fn new() -> (r: ValidatorSet)
        ensures
            r@.len() == 0,
    {
        ValidatorSet { pairs: Vec::new() }
    }

    /// Number of pairs.
    pub fn len(&self) -> (r: usize)
        ensures
            r == self@.len(),
    {
        self.pairs.len()
    }

    /// Projects each (stash, session keys) pair onto its finality key.
    pub fn from_queued_keys<SK: SessionKeys>(queued: &Vec<(AccountId, SK)>) -> (r: ValidatorSet)
        ensures
            r@.len() == queued@.len(),
            forall|i: int|
                0 <= i < queued@.len() ==> #[trigger] r@[i] == (
                    queued@[i].0@,
                    queued@[i].1.keys()[SK::grandpa_index() as int],
                ),
    {
        let mut pairs: Vec<(AccountId, AccountId)> = Vec::new();
        let mut i: usize = 0;
        while i < queued.len()
            invariant
                i <= queued@.len(),
                pairs@.len() == i,
                forall|j: int|
                    0 <= j < i ==> (#[trigger] pairs@[j]).0@ == queued@[j].0@ && pairs@[j].1@
                        == queued@[j].1.keys()[SK::grandpa_index() as int],
            decreases queued@.len() - i,
        {
            let stash = queued[i].0;
            let grandpa = *queued[i].1.grandpa();
            pairs.push((stash, grandpa));
            i = i + 1;
        }
        let r = ValidatorSet { pairs };
        assert forall|i: int| 0 <= i < queued@.len() implies #[trigger] r@[i] == (
            queued@[i].0@,
            queued@[i].1.keys()[SK::grandpa_index() as int],
        ) by {
            assert(r.pairs@[i].0@ == queued@[i].0@);
        }
        r
    }

    /// Decodes a queue of session keys into a validator set.
    pub fn decode<SK: SessionKeys>(raw: &[u8]) -> (r: Result<ValidatorSet, DecodeError>)
        ensures
            r is Ok <==> queue_ok::<SK>(raw@),
            r matches Ok(s) ==> s@ == queue_pairs::<SK>(raw@),
    {
        match decode_queued_keys::<SK>(raw) {
            Ok(q) => {
                let s = ValidatorSet::from_queued_keys(&q);
                assert(s@ =~= queue_pairs::<SK>(raw@));
                Ok(s)
            },
            Err(e) => Err(e),
        }
    }

    /// Replaces the set with the one `raw` encodes; keeps it when `raw`
    /// does not decode.
    pub fn replace<SK: SessionKeys>(&mut self, raw: &[u8]) -> (r: Result<(), DecodeError>)
        ensures
            r is Ok <==> queue_ok::<SK>(raw@),
            r is Ok ==> final(self)@ == queue_pairs::<SK>(raw@),
            r is Err ==> final(self)@ == old(self)@,
    {
        match ValidatorSet::decode::<SK>(raw) {
            Ok(s) => {
                *self = s;
                Ok(())
            },
            Err(e) => Err(e),
        }
    }

    /// The stash whose finality key is `id`.
    pub fn stash_of(&self, id: &AccountId) -> (r: Option<AccountId>)
        ensures
            match r {
                Some(s) => stash_for(self@, id@) == Some(s@),
                None => stash_for(self@, id@) is None,
            },
    {
        let mut found: Option<AccountId> = None;
        let mut i: usize = 0;
        while i < self.pairs.len()
            invariant
                i <= self@.len(),
                self@.len() == self.pairs@.len(),
                match found {
                    Some(s) => stash_for(self@.take(i as int), id@) == Some(s@),
                    None => stash_for(self@.take(i as int), id@) is None,
                },
            decreases self@.len() - i,
        {
            proof {
                lemma_stash_for_step(self@, i as int, id@);
            }
            if self.pairs[i].1.same_as(id) {
                found = Some(self.pairs[i].0);
            }
            i = i + 1;
        }
        assert(self@.take(self@.len() as int) =~= self@);
        found
    }
}

} // verus!
