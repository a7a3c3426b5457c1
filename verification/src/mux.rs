//! The fan-in multiplexer model: one FIFO event queue per registered
//! subscription source and a round-robin cursor.  `next` serves the
//! first non-empty queue at or after the cursor and moves the cursor
//! past it, so no source is passed over while it holds an event; within
//! one source, events leave in the order they arrived.  The blocking
//! merge loop around it performs the waiting; registration is a
//! startup-only operation, before that loop runs.

use vstd::prelude::*;

verus! {

/// An index into a cyclic range of `n` positions, reduced from `[0, 2n)`
/// into `[0, n)`.
pub open spec fn spec_wrap(i: int, n: int) -> int {
    if i < n {
        i
    } else {
        i - n
    }
}

/// How many events all queues hold together.
pub open spec fn spec_total_len(qs: Seq<Seq<(Seq<char>, Seq<u8>)>>) -> nat
    decreases qs.len(),
{
    if qs.len() == 0 {
        0
    } else {
        qs[0].len() + spec_total_len(qs.subrange(1, qs.len() as int))
    }
}

/// Law: liveness of the merge — serving one event from a source removes
/// exactly that one event from the backlog, so a backlog of `n` events
/// is gone after `n` served calls, whatever order the sources produced
/// them in.
pub proof fn lemma_serve_shrinks_backlog(qs: Seq<Seq<(Seq<char>, Seq<u8>)>>, src: int)
    requires
        0 <= src < qs.len(),
        qs[src].len() > 0,
    ensures
        spec_total_len(qs.update(src, qs[src].subrange(1, qs[src].len() as int)))
            == spec_total_len(qs) - 1,
    decreases qs.len(),
{
    let qs2 = qs.update(src, qs[src].subrange(1, qs[src].len() as int));
    if src == 0 {
        assert(qs2[0] == qs[src].subrange(1, qs[src].len() as int));
        assert(qs2.subrange(1, qs2.len() as int) =~= qs.subrange(1, qs.len() as int));
    } else {
        assert(qs2[0] == qs[0]);
        assert(qs2.subrange(1, qs2.len() as int) =~= qs.subrange(1, qs.len() as int).update(
            src - 1,
            qs[src].subrange(1, qs[src].len() as int),
        ));
        lemma_serve_shrinks_backlog(qs.subrange(1, qs.len() as int), src - 1);
    }
}

/// All queues empty exactly when the backlog is empty.
pub proof fn lemma_total_len_zero(qs: Seq<Seq<(Seq<char>, Seq<u8>)>>)
    ensures
        (spec_total_len(qs) == 0) <==> (forall|i: int|
            0 <= i < qs.len() ==> #[trigger] qs[i].len() == 0),
    decreases qs.len(),
{
    if qs.len() != 0 {
        let tail = qs.subrange(1, qs.len() as int);
        lemma_total_len_zero(tail);
        if spec_total_len(qs) == 0 {
            assert forall|i: int| 0 <= i < qs.len() implies #[trigger] qs[i].len() == 0 by {
                if i >= 1 {
                    assert(qs[i] == tail[i - 1]);
                }
            }
        } else {
            if qs[0].len() == 0 {
                let j = choose|j: int| 0 <= j < tail.len() && #[trigger] tail[j].len() != 0;
                assert(qs[j + 1].len() != 0);
            }
        }
    }
}

/// The fan-in multiplexer: one FIFO queue per registered source and the
/// round-robin cursor.
pub struct FanIn {
    queues: Vec<Vec<(String, Vec<u8>)>>,
    cursor: usize,
}

impl FanIn {
    /// The queued events of every source, oldest first.
    pub closed spec fn spec_queues(&self) -> Seq<Seq<(Seq<char>, Seq<u8>)>> {
        self.queues.deep_view()
    }

    /// The round-robin cursor: the source the next scan starts from.
    pub closed spec fn spec_cursor(&self) -> int {
        self.cursor as int
    }

    /// The cursor always points into the registered sources.
    pub open spec fn wf(&self) -> bool {
        if self.spec_queues().len() == 0 {
            self.spec_cursor() == 0
        } else {
            0 <= self.spec_cursor() < self.spec_queues().len()
        }
    }

    /// A multiplexer with no sources registered yet.
    pub fn new() -> (m: FanIn)
        ensures
            m.wf(),
            m.spec_queues() =~= Seq::<Seq<(Seq<char>, Seq<u8>)>>::empty(),
            m.spec_cursor() == 0,
    {
        let m = FanIn { queues: Vec::new(), cursor: 0 };
        proof {
            assert(m.spec_queues() =~= Seq::<Seq<(Seq<char>, Seq<u8>)>>::empty());
        }
        m
    }

    /// Registers one subscription source and hands back its handle.
    /// Registration is a startup-only operation: it happens before the
    /// merge loop runs.
    pub fn register(&mut self) -> (h: usize)
        requires
            old(self).wf(),
        ensures
            final(self).wf(),
            h == old(self).spec_queues().len(),
            final(self).spec_queues() == old(self).spec_queues().push(
                Seq::<(Seq<char>, Seq<u8>)>::empty(),
            ),
            final(self).spec_cursor() == old(self).spec_cursor(),
    {
        let h = self.queues.len();
        let q: Vec<(String, Vec<u8>)> = Vec::new();
        self.queues.push(q);
        proof {
            assert(self.spec_queues() =~~= old(self).spec_queues().push(
                Seq::<(Seq<char>, Seq<u8>)>::empty(),
            ));
        }
        h
    }

    /// Queues one event produced by a registered source; an unknown
    /// handle is reported and changes nothing.
    pub fn push(&mut self, handle: usize, topic: String, payload: Vec<u8>) -> (ok: bool)
        requires
            old(self).wf(),
        ensures
            final(self).wf(),
            final(self).spec_cursor() == old(self).spec_cursor(),
            ok == (handle < old(self).spec_queues().len()),
            !ok ==> final(self).spec_queues() == old(self).spec_queues(),
            ok ==> final(self).spec_queues() == old(self).spec_queues().update(
                handle as int,
                old(self).spec_queues()[handle as int].push((topic@, payload@)),
            ),
    {
        if handle >= self.queues.len() {
            proof {
                assert(self.spec_queues() =~= old(self).spec_queues());
            }
            return false;
        }
        let ghost qs0 = self.spec_queues();
        let ghost v0 = self.queues@;
        let mut q = self.queues.remove(handle);
        q.push((topic, payload));
        self.queues.insert(handle, q);
        proof {
            v0.remove_ensures(handle as int);
            qs0.remove_ensures(handle as int);
            assert(self.spec_queues() =~~= qs0.update(
                handle as int,
                qs0[handle as int].push((topic@, payload@)),
            ));
        }
        true
    }

    /// Serves one event if any source holds one: the FIFO head of the
    /// first non-empty source at or after the cursor, which the cursor
    /// then moves past.  With every source empty it reports nothing and
    /// changes nothing.
    #[verifier::loop_isolation(false)]
    pub fn next(&mut self) -> (r: Option<(usize, String, Vec<u8>)>)
        requires
            old(self).wf(),
        ensures
            final(self).wf(),
            final(self).spec_queues().len() == old(self).spec_queues().len(),
            match r {
                None => *final(self) == *old(self) && (forall|i: int|
                    0 <= i < old(self).spec_queues().len()
                        ==> #[trigger] old(self).spec_queues()[i].len() == 0),
                Some((src, topic, payload)) => {
                    let n = old(self).spec_queues().len() as int;
                    let qs = old(self).spec_queues();
                    &&& 0 <= (src as int) < n
                    &&& qs[src as int].len() > 0
                    &&& (topic@, payload@) == qs[src as int][0]
                    &&& final(self).spec_queues() == qs.update(
                        src as int,
                        qs[src as int].subrange(1, qs[src as int].len() as int),
                    )
                    &&& final(self).spec_cursor() == spec_wrap(src as int + 1, n)
                    &&& forall|k: int|
                        0 <= k < spec_wrap(src as int + n - old(self).spec_cursor(), n)
                            ==> qs[#[trigger] spec_wrap(old(self).spec_cursor() + k, n)].len()
                                == 0
                },
            },
    {
        let n = self.queues.len();
        if n == 0 {
            return None;
        }
        let ghost qs0 = self.spec_queues();
        let ghost c0 = self.spec_cursor();
        let mut k: usize = 0;
        while k < n
            invariant
                k <= n,
                self == old(self),
                forall|j: int| 0 <= j < k ==> qs0[#[trigger] spec_wrap(c0 + j, n as int)].len()
                    == 0,
            decreases n - k,
        {
            let idx = if k < n - self.cursor {
                self.cursor + k
            } else {
                k - (n - self.cursor)
            };
            proof {
                assert(idx as int == spec_wrap(c0 + k, n as int));
            }
            if self.queues[idx].len() > 0 {
                let ghost v0 = self.queues@;
                let mut q = self.queues.remove(idx);
                let ev = q.remove(0);
                self.queues.insert(idx, q);
                self.cursor = if idx + 1 < n {
                    idx + 1
                } else {
                    0
                };
                proof {
                    v0.remove_ensures(idx as int);
                    qs0.remove_ensures(idx as int);
                    assert(self.spec_queues() =~~= qs0.update(
                        idx as int,
                        qs0[idx as int].subrange(1, qs0[idx as int].len() as int),
                    ));
                    assert((ev.0@, ev.1@) == qs0[idx as int][0]);
                    assert(spec_wrap(idx as int + n - c0, n as int) == k as int);
                }
                return Some((idx, ev.0, ev.1));
            }
            k = k + 1;
        }
        proof {
            assert forall|i: int| 0 <= i < n implies #[trigger] qs0[i].len() == 0 by {
                let j = if i >= c0 {
                    i - c0
                } else {
                    i + n - c0
                };
                assert(spec_wrap(c0 + j, n as int) == i);
                assert(qs0[spec_wrap(c0 + j, n as int)].len() == 0);
            }
        }
        None
    }
}

} // verus!
