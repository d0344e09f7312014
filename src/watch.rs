use vstd::prelude::*;

verus! {

/// Interest of a caller, `id`, in the moment the decided index reaches `idx`.
#[derive(Clone, Copy, Debug, PartialEq, Eq, Structural)]
pub struct Watch {
    pub id: u64,
    pub idx: usize,
}

/// Identifiers of the watches of `ws` that a decided index `d` fulfils, in
/// order of registration.
pub open spec fn due(ws: Seq<Watch>, d: usize) -> Seq<u64>
    decreases ws.len(),
{
    if ws.len() == 0 {
        Seq::empty()
    } else if ws.last().idx <= d {
        due(ws.drop_last(), d).push(ws.last().id)
    } else {
        due(ws.drop_last(), d)
    }
}

/// The watches of `ws` that a decided index `d` leaves waiting.
pub open spec fn waiting(ws: Seq<Watch>, d: usize) -> Seq<Watch>
    decreases ws.len(),
{
    if ws.len() == 0 {
        Seq::empty()
    } else if ws.last().idx <= d {
        waiting(ws.drop_last(), d)
    } else {
        waiting(ws.drop_last(), d).push(ws.last())
    }
}

/// Registry of callers waiting for the decided index to reach a target.
/// Each watch is handed out once, by the first `fulfil` whose decided index
/// reaches its target, and then forgotten.
pub struct WatchRegistry {
    watches: Vec<Watch>,
    next_id: u64,
}

impl WatchRegistry {
    pub closed spec fn watches_spec(&self) -> Seq<Watch> {
        self.watches@
    }

    pub closed spec fn next_id_spec(&self) -> u64 {
        self.next_id
    }

    pub fn new() -> (r: WatchRegistry)
        ensures
            r.watches_spec().len() == 0,
            r.next_id_spec() == 0,
    {
        WatchRegistry { watches: Vec::new(), next_id: 0 }
    }

    /// Number of watches still waiting.
    pub fn len(&self) -> (r: usize)
        ensures
            r == self.watches_spec().len(),
    {
        self.watches.len()
    }

    /// Registers interest in the decided index reaching `idx`, and returns the
    /// identifier of the watch.
    pub fn register(&mut self, idx: usize) -> (r: u64)
        requires
            old(self).next_id_spec() < u64::MAX,
        ensures
            r == old(self).next_id_spec(),
            final(self).next_id_spec() == old(self).next_id_spec() + 1,
            final(self).watches_spec() == old(self).watches_spec().push(Watch { id: r, idx }),
    {
        let id = self.next_id;
        self.watches.push(Watch { id, idx });
        self.next_id = id + 1;
        id
    }

    /// Hands out, in order of registration, the identifiers of the watches
    /// whose target `decided_idx` reaches, and keeps the others.
    pub fn fulfil(&mut self, decided_idx: usize) -> (r: Vec<u64>)
        ensures
            r@ == due(old(self).watches_spec(), decided_idx),
            final(self).watches_spec() == waiting(old(self).watches_spec(), decided_idx),
            final(self).next_id_spec() == old(self).next_id_spec(),
    {
        let mut done: Vec<u64> = Vec::new();
        let mut kept: Vec<Watch> = Vec::new();
        let ws = &self.watches;
        let mut i: usize = 0;
        while i < ws.len()
            invariant
                0 <= i <= ws@.len(),
                done@ == due(ws@.subrange(0, i as int), decided_idx),
                kept@ == waiting(ws@.subrange(0, i as int), decided_idx),
            decreases ws@.len() - i,
        {
            assert(ws@.subrange(0, i + 1).drop_last() =~= ws@.subrange(0, i as int));
            let w = ws[i];
            if w.idx <= decided_idx {
                done.push(w.id);
            } else {
                kept.push(w);
            }
            i = i + 1;
        }
        assert(ws@.subrange(0, i as int) =~= ws@);
        self.watches = kept;
        done
    }
}

/// A watch is handed out by at most one call: after a `fulfil` that hands it
/// out, no later decided index hands it out again.
pub proof fn lemma_fulfilled_once(ws: Seq<Watch>, d1: usize, d2: usize, id: u64)
    requires
        due(ws, d1).contains(id),
        forall|i: int, j: int| 0 <= i < j < ws.len() ==> ws[i].id != ws[j].id,
    ensures
        !due(waiting(ws, d1), d2).contains(id),
{
    lemma_due_ids(ws, d1, id);
    let i = choose|i: int| 0 <= i < ws.len() && ws[i].id == id && ws[i].idx <= d1;
    let rest = waiting(ws, d1);
    lemma_waiting_elems(ws, d1);
    lemma_due_ids(rest, d2, id);
    if due(rest, d2).contains(id) {
        let k = choose|k: int| 0 <= k < rest.len() && rest[k].id == id && rest[k].idx <= d2;
        let j = choose|j: int| 0 <= j < ws.len() && ws[j] == rest[k];
        assert(i == j);
    }
}

proof fn lemma_due_ids(ws: Seq<Watch>, d: usize, id: u64)
    ensures
        due(ws, d).contains(id) ==> exists|i: int|
            0 <= i < ws.len() && ws[i].id == id && ws[i].idx <= d,
    decreases ws.len(),
{
    if ws.len() > 0 {
        lemma_due_ids(ws.drop_last(), d, id);
        if due(ws, d).contains(id) {
            if ws.last().idx <= d && ws.last().id == id {
                assert(ws[ws.len() - 1].id == id);
            } else {
                if ws.last().idx <= d {
                    let k = choose|k: int| 0 <= k < due(ws, d).len() && due(ws, d)[k] == id;
                    assert(due(ws.drop_last(), d)[k] == id);
                }
                let i = choose|i: int|
                    0 <= i < ws.drop_last().len() && ws.drop_last()[i].id == id
                        && ws.drop_last()[i].idx <= d;
                assert(ws[i].id == id);
            }
        }
    }
}

proof fn lemma_waiting_elems(ws: Seq<Watch>, d: usize)
    ensures
        forall|k: int|
            0 <= k < waiting(ws, d).len() ==> (#[trigger] waiting(ws, d)[k]).idx > d && exists|i: int|
                0 <= i < ws.len() && ws[i] == waiting(ws, d)[k],
    decreases ws.len(),
{
    if ws.len() > 0 {
        let prev = ws.drop_last();
        lemma_waiting_elems(prev, d);
        assert forall|k: int| 0 <= k < waiting(ws, d).len() implies (#[trigger] waiting(
            ws,
            d,
        )[k]).idx > d && exists|i: int| 0 <= i < ws.len() && ws[i] == waiting(ws, d)[k] by {
            if k < waiting(prev, d).len() {
                assert(waiting(ws, d)[k] == waiting(prev, d)[k]);
                let i = choose|i: int| 0 <= i < prev.len() && prev[i] == waiting(prev, d)[k];
                assert(ws[i] == waiting(ws, d)[k]);
            } else {
                assert(ws[ws.len() - 1] == waiting(ws, d)[k]);
            }
        }
    }
}

} // verus!
