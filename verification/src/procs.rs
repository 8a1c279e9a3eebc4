//! The host functions attached to an isolate, by id.
use vstd::prelude::*;

verus! {

/// One attached host function: the realm it was attached into, and the function
/// until it is released.
pub struct ProcSlot<P> {
    pub context_id: i32,
    pub proc: Option<P>,
}

/// The host functions of an isolate. A released slot is used again, so that a
/// long-lived isolate whose realms come and go does not grow without end.
pub struct ProcTable<P> {
    slots: Vec<ProcSlot<P>>,
    free: Vec<usize>,
}

/// The mathematical value of a `ProcTable`.
#[verifier::ext_equal]
pub ghost struct Procs<P> {
    pub slots: Seq<ProcSlot<P>>,
    /// The released slots, the one to be used next at the end.
    pub free: Seq<usize>,
}

impl<P> View for ProcTable<P> {
    type V = Procs<P>;

    closed spec fn view(&self) -> Procs<P> {
        Procs { slots: self.slots@, free: self.free@ }
    }
}

/// What always holds: the free slots are those without a function, each once.
pub open spec fn procs_wf<P>(t: Procs<P>) -> bool {
    &&& t.slots.len() <= usize::MAX
    &&& forall|i: int|
        0 <= i < t.free.len() ==> (#[trigger] t.free[i]) < t.slots.len()
            && t.slots[t.free[i] as int].proc is None
    &&& forall|i: int, j: int|
        0 <= i < j < t.free.len() ==> #[trigger] t.free[i] != #[trigger] t.free[j]
    &&& forall|k: int|
        0 <= k < t.slots.len() && (#[trigger] t.slots[k]).proc is None ==> t.free.contains(
            k as usize,
        )
}

/// The function with an id, if it is attached.
pub open spec fn proc_of<P>(t: Procs<P>, id: int) -> Option<P> {
    if 0 <= id < t.slots.len() {
        t.slots[id].proc
    } else {
        None
    }
}

/// The table once a function is attached, and its id.
pub open spec fn attached<P>(t: Procs<P>, slot: ProcSlot<P>) -> (Procs<P>, nat) {
    if t.free.len() > 0 {
        let id = t.free.last();
        (Procs { slots: t.slots.update(id as int, slot), free: t.free.drop_last() }, id as nat)
    } else {
        (Procs { slots: t.slots.push(slot), ..t }, t.slots.len())
    }
}

/// Whether a slot holds a function of a realm.
pub open spec fn held<P>(s: ProcSlot<P>, context_id: i32) -> bool {
    s.context_id == context_id && s.proc is Some
}

/// The first `n` slots once the functions of a realm among them are released.
pub open spec fn emptied<P>(slots: Seq<ProcSlot<P>>, context_id: i32, n: nat) -> Seq<ProcSlot<P>> {
    Seq::new(
        slots.len(),
        |i: int|
            if i < n && held(slots[i], context_id) {
                ProcSlot { context_id, proc: None }
            } else {
                slots[i]
            },
    )
}

/// The positions of a realm's functions among the first `n` slots.
pub open spec fn positions<P>(slots: Seq<ProcSlot<P>>, context_id: i32, n: nat) -> Seq<usize>
    decreases n,
{
    if n == 0 {
        Seq::empty()
    } else {
        let before = positions(slots, context_id, (n - 1) as nat);
        if held(slots[n - 1], context_id) {
            before.push((n - 1) as usize)
        } else {
            before
        }
    }
}

/// The table once all functions of a realm are released.
pub open spec fn released<P>(t: Procs<P>, context_id: i32) -> Procs<P> {
    Procs {
        slots: emptied(t.slots, context_id, t.slots.len()),
        free: t.free + positions(t.slots, context_id, t.slots.len()),
    }
}

proof fn lemma_positions<P>(slots: Seq<ProcSlot<P>>, context_id: i32, n: nat)
    requires
        n <= slots.len() <= usize::MAX,
    ensures
        ({
            let p = positions(slots, context_id, n);
            &&& forall|i: int|
                0 <= i < p.len() ==> (#[trigger] p[i]) < n && held(slots[p[i] as int], context_id)
            &&& forall|i: int, j: int| 0 <= i < j < p.len() ==> #[trigger] p[i] < #[trigger] p[j]
            &&& forall|k: int|
                0 <= k < n && held(#[trigger] slots[k], context_id) ==> p.contains(k as usize)
        }),
    decreases n,
{
    if n > 0 {
        let before = positions(slots, context_id, (n - 1) as nat);
        lemma_positions(slots, context_id, (n - 1) as nat);
        let p = positions(slots, context_id, n);
        assert forall|k: int| 0 <= k < n && held(#[trigger] slots[k], context_id) implies p.contains(
            k as usize,
        ) by {
            if k == n - 1 {
                assert(p[p.len() - 1] == k as usize);
            } else {
                assert(before.contains(k as usize));
                let i = choose|i: int| 0 <= i < before.len() && before[i] == k as usize;
                assert(p[i] == k as usize);
            }
        }
    }
}

proof fn lemma_released_wf<P>(t: Procs<P>, context_id: i32)
    requires
        procs_wf(t),
    ensures
        procs_wf(released(t, context_id)),
{
    let n = t.slots.len();
    let p = positions(t.slots, context_id, n);
    lemma_positions(t.slots, context_id, n);
    let r = released(t, context_id);
    assert forall|i: int| 0 <= i < r.free.len() implies (#[trigger] r.free[i]) < r.slots.len()
        && r.slots[r.free[i] as int].proc is None by {
        if i < t.free.len() {
            assert(r.free[i] == t.free[i]);
        } else {
            assert(r.free[i] == p[i - t.free.len()]);
        }
    }
    assert forall|i: int, j: int| 0 <= i < j < r.free.len() implies #[trigger] r.free[i]
        != #[trigger] r.free[j] by {
        if j < t.free.len() {
            assert(r.free[i] == t.free[i] && r.free[j] == t.free[j]);
        } else if i < t.free.len() {
            assert(r.free[i] == t.free[i] && r.free[j] == p[j - t.free.len()]);
            assert(t.slots[t.free[i] as int].proc is None);
            assert(held(t.slots[p[j - t.free.len()] as int], context_id));
        } else {
            assert(r.free[i] == p[i - t.free.len()] && r.free[j] == p[j - t.free.len()]);
        }
    }
    assert forall|k: int|
        0 <= k < r.slots.len() && (#[trigger] r.slots[k]).proc is None implies r.free.contains(
        k as usize,
    ) by {
        if t.slots[k].proc is None {
            assert(t.free.contains(k as usize));
            let i = choose|i: int| 0 <= i < t.free.len() && t.free[i] == k as usize;
            assert(r.free[i] == k as usize);
        } else {
            assert(held(t.slots[k], context_id));
            assert(p.contains(k as usize));
            let i = choose|i: int| 0 <= i < p.len() && p[i] == k as usize;
            assert(r.free[t.free.len() + i] == k as usize);
        }
    }
}

impl<P> ProcTable<P> {
    /// A table without functions.
    pub fn new() -> (r: ProcTable<P>)
        ensures
            procs_wf(r@),
            r@ == (Procs::<P> { slots: Seq::empty(), free: Seq::empty() }),
    {
        ProcTable { slots: Vec::new(), free: Vec::new() }
    }

    /// The function with an id, if it is attached.
    pub fn get(&self, host_fn_id: usize) -> (r: Option<&P>)
        ensures
            match (r, proc_of(self@, host_fn_id as int)) {
                (Some(p), Some(want)) => *p == want,
                (None, None) => true,
                _ => false,
            },
    {
        if host_fn_id < self.slots.len() {
            match &self.slots[host_fn_id].proc {
                Some(p) => Some(p),
                None => None,
            }
        } else {
            None
        }
    }

    /// Takes in a function and gives its id: a free slot is used first.
    pub fn allocate(&mut self, slot: ProcSlot<P>) -> (id: usize)
        requires
            procs_wf(old(self)@),
            slot.proc is Some,
        ensures
            procs_wf(final(self)@),
            (final(self)@, id as nat) == attached(old(self)@, slot),
    {
        let ghost before = self@;
        match self.free.pop() {
            Some(id) => {
                self.slots.set(id, slot);
                proof {
                    let t = self@;
                    let last = before.free.len() - 1;
                    assert forall|k: int|
                        0 <= k < t.slots.len() && (#[trigger] t.slots[k]).proc is None implies t.free.contains(
                    k as usize) by {
                        assert(before.slots[k].proc is None);
                        assert(before.free.contains(k as usize));
                        let i = choose|i: int|
                            0 <= i < before.free.len() && before.free[i] == k as usize;
                        assert(i != last);
                        assert(t.free[i] == k as usize);
                    }
                    assert forall|i: int| 0 <= i < t.free.len() implies (#[trigger] t.free[i])
                        < t.slots.len() && t.slots[t.free[i] as int].proc is None by {
                        assert(t.free[i] == before.free[i]);
                        assert(before.free[i] != before.free[last]);
                    }
                    assert forall|i: int, j: int|
                        0 <= i < j < t.free.len() implies #[trigger] t.free[i] != #[trigger] t.free[j] by {
                        assert(t.free[i] == before.free[i] && t.free[j] == before.free[j]);
                    }
                }
                id
            },
            None => {
                self.slots.push(slot);
                proof {
                    let t = self@;
                    assert forall|k: int|
                        0 <= k < t.slots.len() && (#[trigger] t.slots[k]).proc is None implies t.free.contains(
                    k as usize) by {
                        assert(before.slots[k].proc is None);
                    }
                }
                let count: usize = self.slots.len();
                count - 1
            },
        }
    }

    /// Releases every function attached into a realm; its ids may be given
    /// again. A function that was released before is not released twice.
    pub fn release(&mut self, context_id: i32)
        requires
            procs_wf(old(self)@),
        ensures
            procs_wf(final(self)@),
            final(self)@ == released(old(self)@, context_id),
    {
        let ghost t = self@;
        proof {
            lemma_released_wf(t, context_id);
        }
        let mut i: usize = 0;
        assert(emptied(t.slots, context_id, 0) =~= t.slots);
        assert(t.free + positions(t.slots, context_id, 0) =~= t.free);
        while i < self.slots.len()
            invariant
                i <= t.slots.len(),
                self@.slots == emptied(t.slots, context_id, i as nat),
                self@.free == t.free + positions(t.slots, context_id, i as nat),
            decreases self.slots.len() - i,
        {
            let ghost before = self@;
            assert(before.slots[i as int] == t.slots[i as int]);
            if self.slots[i].context_id == context_id && self.slots[i].proc.is_some() {
                self.slots.set(i, ProcSlot { context_id, proc: None });
                self.free.push(i);
            }
            proof {
                assert(self@.slots =~= emptied(t.slots, context_id, (i + 1) as nat));
                assert(self@.free =~= t.free + positions(t.slots, context_id, (i + 1) as nat));
            }
            i = i + 1;
        }
        assert(self@.slots =~= emptied(t.slots, context_id, t.slots.len()));
    }
}

/// Attaching a function gives it an id under which nothing was attached, and
/// leaves every other function where it was.
pub proof fn law_attach_disturbs_nothing<P>(t: Procs<P>, slot: ProcSlot<P>, other: int)
    requires
        procs_wf(t),
    ensures
        ({
            let (after, id) = attached(t, slot);
            &&& proc_of(t, id as int) is None
            &&& proc_of(after, id as int) == slot.proc
            &&& other != id ==> proc_of(after, other) == proc_of(t, other)
        }),
{
    if t.free.len() > 0 {
        let last = t.free.len() - 1;
        assert(t.free[last] < t.slots.len());
    }
}

/// Attaching keeps the table valid.
pub proof fn lemma_attached_stays_valid<P>(t: Procs<P>, slot: ProcSlot<P>)
    requires
        procs_wf(t),
        slot.proc is Some,
        t.slots.len() < usize::MAX,
    ensures
        procs_wf(attached(t, slot).0),
        attached(t, slot).0.slots.len() <= t.slots.len() + 1,
{
    let (after, id) = attached(t, slot);
    if t.free.len() > 0 {
        let last = t.free.len() - 1;
        assert(t.free[last] < t.slots.len());
        assert forall|i: int| 0 <= i < after.free.len() implies (#[trigger] after.free[i])
            < after.slots.len() && after.slots[after.free[i] as int].proc is None by {
            assert(after.free[i] == t.free[i]);
            assert(t.free[i] != t.free[last]);
        }
        assert forall|k: int|
            0 <= k < after.slots.len() && (
            #[trigger] after.slots[k]).proc is None implies after.free.contains(k as usize) by {
            assert(t.slots[k].proc is None);
            assert(t.free.contains(k as usize));
            let i = choose|i: int| 0 <= i < t.free.len() && t.free[i] == k as usize;
            assert(i != last);
            assert(after.free[i] == k as usize);
        }
    } else {
        assert forall|k: int|
            0 <= k < after.slots.len() && (
            #[trigger] after.slots[k]).proc is None implies after.free.contains(k as usize) by {
            assert(t.slots[k].proc is None);
            assert(t.free.contains(k as usize));
        }
    }
}

/// A function is released with the realm that it was attached into, and not with
/// any other.
pub proof fn law_function_lives_as_long_as_its_realm<P>(
    t: Procs<P>,
    slot: ProcSlot<P>,
    context_id: i32,
)
    requires
        procs_wf(t),
        slot.proc is Some,
        t.slots.len() < usize::MAX,
    ensures
        ({
            let (after, id) = attached(t, slot);
            if context_id == slot.context_id {
                proc_of(released(after, context_id), id as int) is None
            } else {
                proc_of(released(after, context_id), id as int) == slot.proc
            }
        }),
{
    let (after, id) = attached(t, slot);
    lemma_attached_stays_valid(t, slot);
    law_attach_disturbs_nothing(t, slot, 0);
    law_release_is_exact_and_idempotent(after, context_id, id as int);
}

/// Releasing a realm releases exactly its functions, and a second time changes
/// nothing.
pub proof fn law_release_is_exact_and_idempotent<P>(t: Procs<P>, context_id: i32, id: int)
    requires
        procs_wf(t),
    ensures
        ({
            let r = released(t, context_id);
            &&& 0 <= id < t.slots.len() && t.slots[id].context_id == context_id ==> proc_of(r, id) is None
            &&& 0 <= id < t.slots.len() && t.slots[id].context_id != context_id ==> proc_of(r, id)
                == proc_of(t, id)
            &&& released(r, context_id) == r
        }),
{
    let r = released(t, context_id);
    lemma_positions_none(r.slots, context_id, r.slots.len());
    assert(emptied(r.slots, context_id, r.slots.len()) =~= r.slots);
    assert(r.free + positions(r.slots, context_id, r.slots.len()) =~= r.free);
}

proof fn lemma_positions_none<P>(slots: Seq<ProcSlot<P>>, context_id: i32, n: nat)
    requires
        n <= slots.len(),
        forall|i: int| 0 <= i < n ==> !held(#[trigger] slots[i], context_id),
    ensures
        positions(slots, context_id, n) == Seq::<usize>::empty(),
    decreases n,
{
    if n > 0 {
        lemma_positions_none(slots, context_id, (n - 1) as nat);
        assert(!held(slots[n - 1], context_id));
    }
}

/// A slot that is freed is used again before the table grows.
pub proof fn law_freed_slots_are_reused<P>(t: Procs<P>, slot: ProcSlot<P>)
    requires
        procs_wf(t),
    ensures
        t.free.len() > 0 ==> attached(t, slot).0.slots.len() == t.slots.len(),
{
}

} // verus!
