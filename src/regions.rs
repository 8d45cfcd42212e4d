//! Bookkeeping of shared-memory regions: reserved while a node writes into
//! them, published while their receivers read them, freed once every receiver
//! has acknowledged the message.
use vstd::multiset::Multiset;
use vstd::prelude::*;

verus! {

/// A region that a node is still writing into.
pub struct Reservation<H> {
    pub region_id: String,
    pub dataflow: u128,
    pub owner: String,
    pub output_id: String,
    pub handle: H,
}

/// A region handed out to its receivers, waiting for their acknowledgments.
pub struct Publication<H> {
    pub region_id: String,
    pub dataflow: u128,
    pub producer: String,
    pub token: u64,
    /// One entry per delivery that has not been acknowledged yet.
    pub pending: Vec<String>,
    pub handle: H,
}

/// What became of a region when it was freed.
#[derive(Debug, Clone, PartialEq, Eq)]
pub struct Freed {
    pub dataflow: u128,
    pub producer: String,
    pub token: u64,
}

#[derive(Debug, Clone, Copy, PartialEq, Eq, Structural)]
pub enum TrackerError {
    /// The region id is already reserved.
    RegionIdInUse,
    /// Every drop token has been handed out.
    TokensExhausted,
    /// No published region carries this drop token.
    UnknownDropToken,
    /// The acknowledging node has no delivery of this message outstanding.
    NotAReceiver,
}

pub open spec fn views(s: Seq<String>) -> Seq<Seq<char>> {
    s.map_values(|x: String| x@)
}

/// The multiset of outstanding deliveries left after `acks`, acknowledged in order.
pub open spec fn after_acks(m: Multiset<Seq<char>>, acks: Seq<Seq<char>>) -> Multiset<Seq<char>>
    decreases acks.len(),
{
    if acks.len() == 0 {
        m
    } else {
        after_acks(m.remove(acks[0]), acks.drop_first())
    }
}

/// Each acknowledgment in `acks` meets a delivery that is still outstanding.
pub open spec fn acks_valid(m: Multiset<Seq<char>>, acks: Seq<Seq<char>>) -> bool
    decreases acks.len(),
{
    if acks.len() == 0 {
        true
    } else {
        m.count(acks[0]) > 0 && acks_valid(m.remove(acks[0]), acks.drop_first())
    }
}

/// A region is freed exactly when all of its `k` deliveries are acknowledged:
/// after any run of valid acknowledgments, the deliveries left number `k` minus
/// the acknowledgments, so none are left if and only if all `k` came.
pub proof fn lemma_freed_iff_all_acknowledged(m: Multiset<Seq<char>>, acks: Seq<Seq<char>>)
    requires
        acks_valid(m, acks),
    ensures
        after_acks(m, acks).len() + acks.len() == m.len(),
        after_acks(m, acks).len() == 0 <==> acks.len() == m.len(),
    decreases acks.len(),
{
    if acks.len() > 0 {
        lemma_freed_iff_all_acknowledged(m.remove(acks[0]), acks.drop_first());
    }
}

pub struct RegionTracker<H> {
    pub reserved: Vec<Reservation<H>>,
    pub published: Vec<Publication<H>>,
    pub next_token: u64,
}

impl<H> RegionTracker<H> {
    pub open spec fn wf(&self) -> bool {
        &&& forall|i: int, j: int|
            0 <= i < j < self.reserved@.len() ==> self.reserved@[i].region_id@
                != self.reserved@[j].region_id@
        &&& forall|i: int, j: int|
            0 <= i < j < self.published@.len() ==> self.published@[i].token
                != self.published@[j].token
        &&& forall|i: int|
            0 <= i < self.published@.len() ==> self.published@[i].token < self.next_token
        &&& forall|i: int| 0 <= i < self.published@.len() ==> self.published@[i].pending@.len() > 0
    }

    pub open spec fn reserved_ids(&self) -> Seq<Seq<char>> {
        self.reserved@.map_values(|r: Reservation<H>| r.region_id@)
    }

    pub open spec fn is_reserved(&self, id: Seq<char>) -> bool {
        self.reserved_ids().contains(id)
    }

    pub open spec fn tokens(&self) -> Seq<u64> {
        self.published@.map_values(|p: Publication<H>| p.token)
    }

    pub open spec fn is_published(&self, token: u64) -> bool {
        self.tokens().contains(token)
    }

    /// The index of the publication that carries `token`.
    pub open spec fn index_of(&self, token: u64) -> int {
        choose|i: int| 0 <= i < self.published@.len() && self.published@[i].token == token
    }

    pub proof fn lemma_index_of(&self, i: int)
        requires
            self.wf(),
            0 <= i < self.published@.len(),
        ensures
            self.index_of(self.published@[i].token) == i,
            self.is_published(self.published@[i].token),
    {
        let t = self.published@[i].token;
        assert(self.tokens()[i] == t);
        let j = self.index_of(t);
        assert(0 <= j < self.published@.len() && self.published@[j].token == t);
    }

    pub proof fn lemma_published_has_index(&self, t: u64)
        requires
            self.wf(),
            self.is_published(t),
        ensures
            0 <= self.index_of(t) < self.published@.len(),
            self.published@[self.index_of(t)].token == t,
    {
        let k = self.tokens().index_of(t);
        assert(self.published@[k].token == t);
    }

    /// The deliveries of `token` that are still outstanding.
    pub open spec fn pending_of(&self, token: u64) -> Multiset<Seq<char>> {
        views(self.published@[self.index_of(token)].pending@).to_multiset()
    }

    pub open spec fn producer_of(&self, token: u64) -> Seq<char> {
        self.published@[self.index_of(token)].producer@
    }

    pub fn new() -> (r: Self)
        ensures
            r.wf(),
            r.reserved@.len() == 0,
            r.published@.len() == 0,
    {
        RegionTracker { reserved: Vec::new(), published: Vec::new(), next_token: 0 }
    }

    /// The position of the reservation of `region_id`, if there is one.
    pub fn find_reservation(&self, region_id: &String) -> (r: Option<usize>)
        ensures
            match r {
                Some(i) => i < self.reserved@.len() && self.reserved@[i as int].region_id@
                    == region_id@,
                None => !self.is_reserved(region_id@),
            },
            r is Some ==> self.is_reserved(region_id@),
    {
        let mut i: usize = 0;
        while i < self.reserved.len()
            invariant
                i <= self.reserved@.len(),
                forall|j: int| 0 <= j < i ==> self.reserved@[j].region_id@ != region_id@,
            decreases self.reserved@.len() - i,
        {
            if self.reserved[i].region_id == *region_id {
                proof {
                    assert(self.reserved_ids()[i as int] == region_id@);
                }
                return Some(i);
            }
            i = i + 1;
        }
        proof {
            if self.is_reserved(region_id@) {
                let k = self.reserved_ids().index_of(region_id@);
                assert(self.reserved@[k].region_id@ == region_id@);
            }
        }
        None
    }
}

impl<H> RegionTracker<H> {
    /// Records a new reservation of `region_id`; refused while the id is reserved.
    pub fn reserve(&mut self, region_id: String, dataflow: u128, owner: String, output_id: String, handle: H) -> (r:
        Result<(), TrackerError>)
        requires
            old(self).wf(),
        ensures
            final(self).wf(),
            final(self).published@ == old(self).published@,
            final(self).next_token == old(self).next_token,
            old(self).is_reserved(region_id@) ==> r == Err::<(), TrackerError>(
                TrackerError::RegionIdInUse,
            ) && final(self).reserved@ == old(self).reserved@,
            !old(self).is_reserved(region_id@) ==> r is Ok && final(self).reserved@ == old(self).reserved@.push((Reservation { region_id, dataflow, owner, output_id, handle })),
    {
        match self.find_reservation(&region_id) {
            Some(_) => Err(TrackerError::RegionIdInUse),
            None => {
                proof {
                    assert forall|i: int| 0 <= i < self.reserved@.len() implies self.reserved@[i].region_id@
                        != region_id@ by {
                        assert(self.reserved_ids()[i] == self.reserved@[i].region_id@);
                    }
                }
                self.reserved.push(Reservation { region_id, dataflow, owner, output_id, handle });
                Ok(())
            },
        }
    }

    /// Removes the reservation of `region_id` and hands it back.
    pub fn take_reservation(&mut self, region_id: &String) -> (r: Option<Reservation<H>>)
        requires
            old(self).wf(),
        ensures
            final(self).wf(),
            final(self).published@ == old(self).published@,
            final(self).next_token == old(self).next_token,
            r is None <==> !old(self).is_reserved(region_id@),
            r is None ==> final(self).reserved@ == old(self).reserved@,
            match r {
                Some(res) => exists|i: int|
                    0 <= i < old(self).reserved@.len() && old(self).reserved@[i] == res
                        && final(self).reserved@ == old(self).reserved@.remove(i)
                        && res.region_id@ == region_id@,
                None => true,
            },
            !final(self).is_reserved(region_id@),
    {
        match self.find_reservation(region_id) {
            None => None,
            Some(i) => {
                let ghost before = self.reserved@;
                let res = self.reserved.remove(i);
                proof {
                    assert(before[i as int] == res);
                    if self.is_reserved(region_id@) {
                        let k = self.reserved_ids().index_of(region_id@);
                        if k < i {
                            assert(before[k].region_id@ == region_id@);
                        } else {
                            assert(before[k + 1].region_id@ == region_id@);
                        }
                    }
                }
                Some(res)
            },
        }
    }
}

impl<H> RegionTracker<H> {
    /// Publishes a region with one outstanding delivery per entry of `pending`
    /// and mints its drop token. A region without deliveries is freed at once.
    pub fn publish(&mut self, region_id: String, dataflow: u128, producer: String, pending: Vec<String>, handle: H) -> (r:
        Result<(u64, Option<Freed>), TrackerError>)
        requires
            old(self).wf(),
        ensures
            final(self).wf(),
            final(self).reserved@ == old(self).reserved@,
            r is Err <==> old(self).next_token == u64::MAX,
            r is Err ==> r == Err::<(u64, Option<Freed>), TrackerError>(TrackerError::TokensExhausted)
                && final(self).published@ == old(self).published@,
            match r {
                Ok((token, freed)) => {
                    &&& token == old(self).next_token
                    &&& !old(self).is_published(token)
                    &&& final(self).next_token == token + 1
                    &&& (freed is Some <==> pending@.len() == 0)
                    &&& (freed is Some ==> freed == Some(Freed { dataflow, producer, token })
                        && final(self).published@ == old(self).published@)
                    &&& (freed is None ==> final(self).published@ == old(self).published@.push(
                        (Publication { region_id, dataflow, producer, token, pending, handle }),
                    ))
                },
                Err(_) => final(self).next_token == old(self).next_token,
            },
    {
        if self.next_token == u64::MAX {
            return Err(TrackerError::TokensExhausted);
        }
        let token = self.next_token;
        self.next_token = token + 1;
        proof {
            if old(self).is_published(token) {
                let k = old(self).tokens().index_of(token);
                assert(old(self).published@[k].token == token);
            }
        }
        if pending.len() == 0 {
            Ok((token, Some(Freed { dataflow, producer, token })))
        } else {
            self.published.push(Publication { region_id, dataflow, producer, token, pending, handle });
            Ok((token, None))
        }
    }

    /// The position of the publication that carries `token`, if there is one.
    fn find_publication(&self, token: u64) -> (r: Option<usize>)
        requires
            self.wf(),
        ensures
            r is Some <==> self.is_published(token),
            match r {
                Some(i) => i == self.index_of(token) && i < self.published@.len(),
                None => true,
            },
    {
        let mut i: usize = 0;
        while i < self.published.len()
            invariant
                self.wf(),
                i <= self.published@.len(),
                forall|j: int| 0 <= j < i ==> self.published@[j].token != token,
            decreases self.published@.len() - i,
        {
            if self.published[i].token == token {
                proof {
                    self.lemma_index_of(i as int);
                }
                return Some(i);
            }
            i = i + 1;
        }
        proof {
            if self.is_published(token) {
                self.lemma_published_has_index(token);
            }
        }
        None
    }
}

impl<H> RegionTracker<H> {
    /// Records that `receiver` is done with the message of `token`. The region
    /// is freed, and its producer and token handed back, when this was the last
    /// outstanding delivery.
    pub fn acknowledge(&mut self, token: u64, receiver: &String) -> (r: Result<
        Option<Freed>,
        TrackerError,
    >)
        requires
            old(self).wf(),
        ensures
            final(self).wf(),
            final(self).reserved@ == old(self).reserved@,
            final(self).next_token == old(self).next_token,
            !old(self).is_published(token) ==> r == Err::<Option<Freed>, TrackerError>(
                TrackerError::UnknownDropToken,
            ) && final(self).published@ == old(self).published@,
            old(self).is_published(token) && old(self).pending_of(token).count(receiver@) == 0
                ==> r == Err::<Option<Freed>, TrackerError>(TrackerError::NotAReceiver) && final(self).published@ == old(self).published@,
            old(self).is_published(token) && old(self).pending_of(token).count(receiver@) > 0
                ==> r is Ok && {
                let left = old(self).pending_of(token).remove(receiver@);
                &&& (left.len() == 0 ==> r == Ok::<Option<Freed>, TrackerError>(
                    Some(
                        Freed {
                            dataflow: old(self).published@[old(self).index_of(token)].dataflow,
                            producer: old(self).published@[old(self).index_of(token)].producer,
                            token,
                        },
                    ),
                ) && !final(self).is_published(token))
                &&& (left.len() > 0 ==> r == Ok::<Option<Freed>, TrackerError>(None) && final(self).is_published(token) && final(self).pending_of(token) == left && final(self).producer_of(token) == old(self).producer_of(token) && final(self).published@[final(self).index_of(token)].dataflow == old(self).published@[old(self).index_of(token)].dataflow)
            },
            forall|t: u64|
                t != token ==> (final(self).is_published(t) == old(self).is_published(t)) && (old(self).is_published(t) ==> final(self).pending_of(t) == old(self).pending_of(t) && final(self).producer_of(t) == old(self).producer_of(t)),
    {
        broadcast use vstd::seq_lib::group_to_multiset_ensures;

        let i = match self.find_publication(token) {
            None => {
                return Err(TrackerError::UnknownDropToken);
            },
            Some(i) => i,
        };
        let j = match position(&self.published[i].pending, receiver) {
            None => {
                return Err(TrackerError::NotAReceiver);
            },
            Some(j) => j,
        };
        let ghost before = *self;
        let ghost old_pending = views(self.published@[i as int].pending@);
        proof {
            vstd::seq_lib::to_multiset_remove(old_pending, j as int);
            assert(old_pending[j as int] == receiver@);
        }
        if self.published[i].pending.len() == 1 {
            let p = self.published.remove(i);
            proof {
                assert(before.published@[i as int] == p);
                assert forall|t: u64| t != token implies (self.is_published(t) == before.is_published(
                    t,
                )) && (before.is_published(t) ==> self.pending_of(t) == before.pending_of(t)
                    && self.producer_of(t) == before.producer_of(t)) by {
                    if before.is_published(t) {
                        before.lemma_published_has_index(t);
                        let k = before.index_of(t);
                        let nk = if k < i { k } else { k - 1 };
                        assert(self.published@[nk].token == t);
                        self.lemma_index_of(nk);
                    }
                    if self.is_published(t) {
                        self.lemma_published_has_index(t);
                        let k = self.index_of(t);
                        let ok = if k < i { k } else { k + 1 };
                        assert(before.published@[ok].token == t);
                        before.lemma_index_of(ok);
                    }
                }
                if self.is_published(token) {
                    self.lemma_published_has_index(token);
                    let k = self.index_of(token);
                    let ok = if k < i { k } else { k + 1 };
                    assert(before.published@[ok].token == token);
                }
                assert(views(p.pending@).remove(j as int).len() == 0);
            }
            Ok(Some(Freed { dataflow: p.dataflow, producer: p.producer, token }))
        } else {
            let mut p = self.published.remove(i);
            p.pending.remove(j);
            proof {
                assert(views(p.pending@) =~= old_pending.remove(j as int));
            }
            self.published.insert(i, p);
            proof {
                assert(self.published@[i as int].token == token);
                self.lemma_index_of(i as int);
                assert forall|t: u64| t != token implies (self.is_published(t) == before.is_published(
                    t,
                )) && (before.is_published(t) ==> self.pending_of(t) == before.pending_of(t)
                    && self.producer_of(t) == before.producer_of(t)) by {
                    if before.is_published(t) {
                        before.lemma_published_has_index(t);
                        let k = before.index_of(t);
                        assert(self.published@[k] == before.published@[k]);
                        self.lemma_index_of(k);
                    }
                    if self.is_published(t) {
                        self.lemma_published_has_index(t);
                        let k = self.index_of(t);
                        assert(self.published@[k] == before.published@[k]);
                        before.lemma_index_of(k);
                    }
                }
            }
            Ok(None)
        }
    }
}

/// The position of the first entry of `v` equal to `x`, if there is one.
fn position(v: &Vec<String>, x: &String) -> (r: Option<usize>)
    ensures
        match r {
            Some(i) => i < v@.len() && v@[i as int]@ == x@,
            None => views(v@).to_multiset().count(x@) == 0,
        },
{
    let mut i: usize = 0;
    while i < v.len()
        invariant
            i <= v@.len(),
            forall|j: int| 0 <= j < i ==> v@[j]@ != x@,
        decreases v@.len() - i,
    {
        if v[i] == *x {
            return Some(i);
        }
        i = i + 1;
    }
    proof {
        broadcast use vstd::seq_lib::group_to_multiset_ensures;
        if views(v@).to_multiset().count(x@) > 0 {
            assert(views(v@).contains(x@));
            let k = views(v@).index_of(x@);
            assert(v@[k]@ == x@);
        }
    }
    None
}

} // verus!
