//! The dispatcher: it feeds every live worker the chunk set in cyclic order,
//! each worker at its own pace, and drops a worker from the registry the
//! moment its channel reports that nobody receives any more. One slow or dead
//! worker never touches any other worker's slot.

use vstd::prelude::*;

verus! {

/// One worker slot in the registry: whether it is currently fed, where it
/// stands in the cyclic chunk stream, and — for the proof — every chunk index
/// delivered to this identity so far.
#[derive(Clone, Copy)]
pub struct Slot {
    pub live: bool,
    pub cursor: usize,
    pub received: Ghost<Seq<int>>,
}

/// What one send attempt to a worker's channel came to.
#[derive(Clone, Copy, Debug, PartialEq, Eq, Structural)]
pub enum SendOutcome {
    /// The chunk was handed over.
    Delivered,
    /// The channel has no headroom: only this worker waits, nothing is lost.
    Full,
    /// The channel has no receiver left: the worker is gone.
    Disconnected,
}

/// The dispatcher's registry: one slot per worker identity, and the length of
/// the chunk set being cycled.
pub struct Dispatcher {
    pub num_chunks: usize,
    pub slots: Vec<Slot>,
}

impl Dispatcher {
    /// The registry's invariant: the chunk set is nonempty, every cursor
    /// points into it, and every slot's delivery history is exactly the cyclic
    /// stream `0, 1, ..., num_chunks - 1, 0, 1, ...` up to its own pace.
    pub open spec fn wf(self) -> bool {
        &&& self.num_chunks > 0
        &&& forall|i: int|
            0 <= i < self.slots@.len() ==> (#[trigger] self.slots@[i]).cursor
                < self.num_chunks
        &&& forall|i: int|
            0 <= i < self.slots@.len() ==> (#[trigger] self.slots@[i]).cursor as int
                == self.slots@[i].received@.len() as int % self.num_chunks as int
        &&& forall|i: int, j: int|
            0 <= i < self.slots@.len() && 0 <= j < self.slots@[i].received@.len() ==> (
            #[trigger] self.slots@[i].received@[j]) == j % self.num_chunks as int
    }

    /// How many identities the registry was created with.
    pub open spec fn spec_num_slots(self) -> int {
        self.slots@.len() as int
    }

    /// Creates the registry: identities `0 .. num_workers`, all live, all at
    /// the start of the chunk stream.
    pub fn new(num_workers: usize, num_chunks: usize) -> (r: Dispatcher)
        requires
            num_chunks > 0,
        ensures
            r.wf(),
            r.num_chunks == num_chunks,
            r.spec_num_slots() == num_workers,
            forall|i: int| 0 <= i < num_workers ==> (#[trigger] r.slots@[i]).live,
            forall|i: int| 0 <= i < num_workers ==> (#[trigger] r.slots@[i]).cursor == 0,
            forall|i: int|
                0 <= i < num_workers ==> (#[trigger] r.slots@[i]).received@ == Seq::<int>::empty(),
    {
        let mut slots: Vec<Slot> = Vec::new();
        let mut i: usize = 0;
        while i < num_workers
            invariant
                0 <= i <= num_workers,
                slots@.len() == i,
                forall|k: int|
                    0 <= k < i ==> (#[trigger] slots@[k]).live && slots@[k].cursor == 0
                        && slots@[k].received@ == Seq::<int>::empty(),
            decreases num_workers - i,
        {
            slots.push(Slot { live: true, cursor: 0, received: Ghost(Seq::empty()) });
            i = i + 1;
        }
        let r = Dispatcher { num_chunks, slots };
        proof {
            assert forall|k: int| 0 <= k < r.slots@.len() implies (#[trigger] r.slots@[k]).cursor
                as int == r.slots@[k].received@.len() as int % r.num_chunks as int by {
                vstd::arithmetic::div_mod::lemma_small_mod(0, num_chunks as nat);
            }
        }
        r
    }

    /// The planned round: for every live identity, in increasing order, the
    /// chunk index it is to be handed next.
    pub open spec fn spec_plan(s: Seq<Slot>) -> Seq<(usize, usize)>
        decreases s.len(),
    {
        if s.len() == 0 {
            Seq::empty()
        } else if s.last().live {
            Self::spec_plan(s.drop_last()) + seq![(((s.len() - 1) as usize), s.last().cursor)]
        } else {
            Self::spec_plan(s.drop_last())
        }
    }

    /// Plans one dispatch round over the live workers. The caller attempts
    /// each send and reports the outcomes back one by one.
    pub fn plan(&self) -> (r: Vec<(usize, usize)>)
        ensures
            r@ == Self::spec_plan(self.slots@),
    {
        let mut out: Vec<(usize, usize)> = Vec::new();
        let mut i: usize = 0;
        proof {
            assert(self.slots@.take(0) =~= Seq::<Slot>::empty());
        }
        while i < self.slots.len()
            invariant
                0 <= i <= self.slots@.len(),
                out@ == Self::spec_plan(self.slots@.take(i as int)),
            decreases self.slots@.len() - i,
        {
            proof {
                assert(self.slots@.take(i as int + 1).drop_last() =~= self.slots@.take(i as int));
                assert(self.slots@.take(i as int + 1).last() == self.slots@[i as int]);
            }
            let sl = &self.slots[i];
            if sl.live {
                out.push((i, sl.cursor));
            }
            i = i + 1;
        }
        proof {
            assert(self.slots@.take(i as int) =~= self.slots@);
        }
        out
    }

    /// Every planned entry names a live identity and its next chunk, and
    /// every live identity is planned for: no live worker is starved by the
    /// planning itself.
    pub proof fn lemma_plan_covers_live(s: Seq<Slot>)
        requires
            s.len() <= usize::MAX,
        ensures
            forall|k: int|
                0 <= k < Self::spec_plan(s).len() ==> {
                    let p = #[trigger] Self::spec_plan(s)[k];
                    &&& 0 <= p.0 < s.len()
                    &&& s[p.0 as int].live
                    &&& p.1 == s[p.0 as int].cursor
                },
            forall|id: int|
                0 <= id < s.len() && (#[trigger] s[id]).live ==> exists|k: int|
                    0 <= k < Self::spec_plan(s).len() && (#[trigger] Self::spec_plan(s)[k]).0
                        == id,
        decreases s.len(),
    {
        if s.len() == 0 {
        } else {
            Self::lemma_plan_covers_live(s.drop_last());
            let prev = Self::spec_plan(s.drop_last());
            assert(forall|j: int| 0 <= j < s.len() - 1 ==> s.drop_last()[j] == #[trigger] s[j]);
            if s.last().live {
                let whole = Self::spec_plan(s);
                assert(whole == prev + seq![(((s.len() - 1) as usize), s.last().cursor)]);
                assert(forall|k: int| 0 <= k < prev.len() ==> whole[k] == #[trigger] prev[k]);
                assert(whole[whole.len() - 1].0 == s.len() - 1);
                assert forall|id: int| 0 <= id < s.len() && (#[trigger] s[id]).live implies exists|
                    k: int,
                |
                    0 <= k < whole.len() && (#[trigger] whole[k]).0 == id by {
                    if id < s.len() - 1 {
                        let k = choose|k: int| 0 <= k < prev.len() && (#[trigger] prev[k]).0 == id;
                        assert(whole[k].0 == id);
                    } else {
                        assert(whole[whole.len() - 1].0 == id);
                    }
                }
            } else {
                assert(Self::spec_plan(s) == prev);
            }
        }
    }

    /// Records one send attempt's outcome for one identity. A delivery
    /// advances that worker one step through the cyclic stream; a full
    /// channel leaves it exactly where it was; a dead channel removes it
    /// from the registry. Every other slot is untouched, whatever happened
    /// to this one.
    pub fn record_outcome(&mut self, id: usize, outcome: SendOutcome)
        requires
            old(self).wf(),
            id < old(self).slots@.len(),
            old(self).slots@[id as int].live,
        ensures
            final(self).wf(),
            final(self).num_chunks == old(self).num_chunks,
            final(self).slots@.len() == old(self).slots@.len(),
            forall|k: int|
                0 <= k < old(self).slots@.len() && k != id ==> final(self).slots@[k] == old(
                    self,
                ).slots@[k],
            match outcome {
                SendOutcome::Delivered => {
                    &&& final(self).slots@[id as int].live
                    &&& final(self).slots@[id as int].received@ == old(
                        self,
                    ).slots@[id as int].received@.push(old(self).slots@[id as int].cursor as int)
                    &&& final(self).slots@[id as int].cursor as int == (old(
                        self,
                    ).slots@[id as int].cursor + 1) as int % old(self).num_chunks as int
                },
                SendOutcome::Full => final(self).slots@[id as int] == old(self).slots@[id as int],
                SendOutcome::Disconnected => {
                    &&& !final(self).slots@[id as int].live
                    &&& final(self).slots@[id as int].cursor == old(self).slots@[id as int].cursor
                    &&& final(self).slots@[id as int].received@ == old(
                        self,
                    ).slots@[id as int].received@
                },
            },
    {
        let sl = self.slots[id];
        match outcome {
            SendOutcome::Delivered => {
                let next = if sl.cursor + 1 == self.num_chunks {
                    0
                } else {
                    sl.cursor + 1
                };
                proof {
                    let n = self.num_chunks as int;
                    let len = sl.received@.len() as int;
                    vstd::arithmetic::div_mod::lemma_add_mod_noop(len, 1, n);
                    if n == 1 {
                        vstd::arithmetic::div_mod::lemma_mod_multiples_basic(len + 1, 1);
                    } else {
                        vstd::arithmetic::div_mod::lemma_small_mod(1, n as nat);
                        if sl.cursor + 1 == n {
                            vstd::arithmetic::div_mod::lemma_mod_self_0(n);
                        } else {
                            vstd::arithmetic::div_mod::lemma_small_mod(
                                (sl.cursor + 1) as nat,
                                n as nat,
                            );
                        }
                    }
                    assert(next as int == (len + 1) % n);
                }
                let updated = Slot {
                    live: sl.live,
                    cursor: next,
                    received: Ghost(sl.received@.push(sl.cursor as int)),
                };
                self.slots[id] = updated;
            },
            SendOutcome::Full => {},
            SendOutcome::Disconnected => {
                let updated = Slot { live: false, cursor: sl.cursor, received: sl.received };
                self.slots[id] = updated;
            },
        }
    }

    /// Re-registers a replacement worker under an existing identity: the slot
    /// turns live again and resumes the cyclic stream where the identity left
    /// off; every other slot is untouched.
    pub fn register(&mut self, id: usize)
        requires
            old(self).wf(),
            id < old(self).slots@.len(),
        ensures
            final(self).wf(),
            final(self).num_chunks == old(self).num_chunks,
            final(self).slots@.len() == old(self).slots@.len(),
            final(self).slots@[id as int].live,
            final(self).slots@[id as int].cursor == old(self).slots@[id as int].cursor,
            final(self).slots@[id as int].received@ == old(self).slots@[id as int].received@,
            forall|k: int|
                0 <= k < old(self).slots@.len() && k != id ==> final(self).slots@[k] == old(
                    self,
                ).slots@[k],
    {
        let sl = self.slots[id];
        let updated = Slot { live: true, cursor: sl.cursor, received: sl.received };
        self.slots[id] = updated;
    }

    /// Whether an identity is currently registered.
    pub fn is_live(&self, id: usize) -> (r: bool)
        requires
            id < self.slots@.len(),
        ensures
            r == self.slots@[id as int].live,
    {
        self.slots[id].live
    }

    /// How many identities are currently registered.
    pub open spec fn spec_live_count(s: Seq<Slot>) -> int
        decreases s.len(),
    {
        if s.len() == 0 {
            0
        } else {
            Self::spec_live_count(s.drop_last()) + if s.last().live {
                1int
            } else {
                0int
            }
        }
    }

    /// Counts the registered identities.
    pub fn live_count(&self) -> (r: usize)
        ensures
            r as int == Self::spec_live_count(self.slots@),
    {
        let mut n: usize = 0;
        let mut i: usize = 0;
        proof {
            assert(self.slots@.take(0) =~= Seq::<Slot>::empty());
        }
        while i < self.slots.len()
            invariant
                0 <= i <= self.slots@.len(),
                n as int == Self::spec_live_count(self.slots@.take(i as int)),
                n <= i,
            decreases self.slots@.len() - i,
        {
            proof {
                assert(self.slots@.take(i as int + 1).drop_last() =~= self.slots@.take(i as int));
                assert(self.slots@.take(i as int + 1).last() == self.slots@[i as int]);
            }
            if self.slots[i].live {
                n = n + 1;
            }
            i = i + 1;
        }
        proof {
            assert(self.slots@.take(i as int) =~= self.slots@);
        }
        n
    }

    /// Flipping one slot's liveness moves the count by exactly one; the
    /// count ignores everything else about the slots.
    pub proof fn lemma_live_count_update(s: Seq<Slot>, id: int, v: Slot)
        requires
            0 <= id < s.len(),
        ensures
            Self::spec_live_count(s.update(id, v)) == Self::spec_live_count(s) + (if v.live {
                1int
            } else {
                0int
            }) - (if s[id].live {
                1int
            } else {
                0int
            }),
        decreases s.len(),
    {
        let t = s.update(id, v);
        if id == s.len() - 1 {
            assert(t.drop_last() =~= s.drop_last());
            assert(t.last() == v);
        } else {
            assert(t.drop_last() =~= s.drop_last().update(id, v));
            assert(t.last() == s.last());
            Self::lemma_live_count_update(s.drop_last(), id, v);
        }
    }

    /// Deregistration is exact: after a `Disconnected` outcome for one
    /// identity the registry holds one worker fewer, and after the supervisor
    /// re-registers that identity it is back at full strength — the failure
    /// cost exactly one slot, exactly until its replacement arrived.
    pub proof fn lemma_respawn_restores_count(pre: Dispatcher, mid: Dispatcher, post: Dispatcher, id: int)
        requires
            0 <= id < pre.slots@.len(),
            pre.slots@[id].live,
            !mid.slots@[id].live,
            post.slots@[id].live,
            mid.slots@.len() == pre.slots@.len(),
            post.slots@.len() == pre.slots@.len(),
            forall|k: int| 0 <= k < pre.slots@.len() && k != id ==> mid.slots@[k] == pre.slots@[k],
            forall|k: int|
                0 <= k < pre.slots@.len() && k != id ==> post.slots@[k] == mid.slots@[k],
        ensures
            Self::spec_live_count(mid.slots@) == Self::spec_live_count(pre.slots@) - 1,
            Self::spec_live_count(post.slots@) == Self::spec_live_count(pre.slots@),
    {
        assert(mid.slots@ =~= pre.slots@.update(id, mid.slots@[id]));
        Self::lemma_live_count_update(pre.slots@, id, mid.slots@[id]);
        assert(post.slots@ =~= mid.slots@.update(id, post.slots@[id]));
        Self::lemma_live_count_update(mid.slots@, id, post.slots@[id]);
    }

    /// Per-worker cyclic delivery: whatever mix of deliveries, stalls,
    /// failures and respawns brought the registry here, the `j`-th chunk any
    /// identity ever received was chunk `j mod num_chunks` — the chunk set in
    /// insertion order, repeated forever, with no skip and no repeat.
    pub proof fn lemma_cyclic_delivery(d: Dispatcher, i: int, j: int)
        requires
            d.wf(),
            0 <= i < d.slots@.len(),
            0 <= j < d.slots@[i].received@.len(),
        ensures
            d.slots@[i].received@[j] == j % d.num_chunks as int,
    {
    }
}

} // verus!
