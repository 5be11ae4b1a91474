//! Handing out the machine's cores to the processes that the comparisons
//! start, one process per core.

use vstd::prelude::*;

verus! {

/// The free cores and the queue of those waiting for one (both used as
/// stacks: the last in is served first).
pub struct ThreadManager {
    free_cores: Vec<usize>,
    waiters: Vec<u64>,
}

/// The right to run on a core; it goes back to the manager when dropped.
pub struct Permit {
    pub core_id: usize,
}

/// The mathematical value of a `ThreadManager`.
pub struct ManagerView {
    pub free: Seq<usize>,
    pub waiters: Seq<u64>,
}

impl View for ThreadManager {
    type V = ManagerView;

    closed spec fn view(&self) -> ManagerView {
        ManagerView { free: self.free_cores@, waiters: self.waiters@ }
    }
}

/// A request for a core: the last free core when there is one and nobody
/// waits, else the requester joins the waiters.
pub open spec fn acquire_spec(v: ManagerView, waiter: u64) -> (ManagerView, Option<usize>) {
    if v.free.len() > 0 && v.waiters.len() == 0 {
        (ManagerView { free: v.free.drop_last(), waiters: v.waiters }, Some(v.free.last()))
    } else {
        (ManagerView { free: v.free, waiters: v.waiters.push(waiter) }, None)
    }
}

/// A core given back: it goes to the last waiter when there is one, else it
/// becomes free.
pub open spec fn release_spec(v: ManagerView, core: usize) -> (ManagerView, Option<u64>) {
    if v.waiters.len() > 0 {
        (ManagerView { free: v.free, waiters: v.waiters.drop_last() }, Some(v.waiters.last()))
    } else {
        (ManagerView { free: v.free.push(core), waiters: v.waiters }, None)
    }
}

/// The manager's state agrees with `held`, the cores in use: the free cores
/// are distinct, none is in use, together with those in use they are exactly
/// the cores `0..cap`, and nobody waits while a core is free.
pub open spec fn manager_wf(v: ManagerView, cap: nat, held: Set<usize>) -> bool {
    &&& v.free.no_duplicates()
    &&& forall|i: int| 0 <= i < v.free.len() ==> !held.contains(#[trigger] v.free[i])
    &&& forall|c: usize| #[trigger] held.contains(c) ==> c < cap
    &&& forall|i: int| 0 <= i < v.free.len() ==> #[trigger] v.free[i] < cap
    &&& forall|c: usize| c < cap ==> (held.contains(c) || #[trigger] v.free.contains(c))
    &&& v.waiters.len() > 0 ==> v.free.len() == 0
}

impl ThreadManager {
    /// A manager of the cores `0..cap`, all free.
    pub fn new(cap: usize) -> (r: Self)
        ensures
            r@.free == Seq::new(cap as nat, |i: int| i as usize),
            r@.waiters == Seq::<u64>::empty(),
            manager_wf(r@, cap as nat, Set::empty()),
    {
        let mut free_cores: Vec<usize> = Vec::new();
        let mut i: usize = 0;
        while i < cap
            invariant
                i <= cap,
                free_cores@ == Seq::new(i as nat, |k: int| k as usize),
            decreases cap - i,
        {
            free_cores.push(i);
            i = i + 1;
            assert(free_cores@ =~= Seq::new(i as nat, |k: int| k as usize));
        }
        let r = ThreadManager { free_cores, waiters: Vec::new() };
        assert forall|c: usize| c < cap implies #[trigger] r@.free.contains(c) by {
            assert(r@.free[c as int] == c);
        }
        r
    }

    /// Asks for a core for `waiter`: `Some(core)` at once, or `None` when
    /// `waiter` has to wait to be handed one.
    pub fn acquire(&mut self, waiter: u64) -> (r: Option<usize>)
        ensures
            (final(self)@, r) == acquire_spec(old(self)@, waiter),
    {
        if self.free_cores.len() > 0 && self.waiters.len() == 0 {
            let c = self.free_cores.pop().unwrap();
            Some(c)
        } else {
            self.waiters.push(waiter);
            None
        }
    }

    /// Gives a core back: `Some(waiter)` when it goes on to that waiter,
    /// `None` when it becomes free.
    pub fn notify_waiter(&mut self, core_id: usize) -> (r: Option<u64>)
        ensures
            (final(self)@, r) == release_spec(old(self)@, core_id),
    {
        if self.waiters.len() > 0 {
            let w = self.waiters.pop().unwrap();
            Some(w)
        } else {
            self.free_cores.push(core_id);
            None
        }
    }
}

/// A core is never handed out twice: a granted core was free and not in use,
/// and the state stays consistent with it in use; a refused request only
/// queues the requester.
pub proof fn lemma_acquire_keeps_cores(v: ManagerView, cap: nat, held: Set<usize>, waiter: u64)
    requires
        manager_wf(v, cap, held),
    ensures
        ({
            let (v2, r) = acquire_spec(v, waiter);
            match r {
                Some(c) => c < cap && !held.contains(c) && manager_wf(v2, cap, held.insert(c)),
                None => manager_wf(v2, cap, held) && v2.waiters == v.waiters.push(waiter),
            }
        }),
{
    let (v2, r) = acquire_spec(v, waiter);
    match r {
        Some(c) => {
            let n = v.free.len();
            assert(v.free[n - 1] == c);
            assert(v2.free =~= v.free.drop_last());
            assert forall|i: int| 0 <= i < v2.free.len() implies !held.insert(c).contains(
                #[trigger] v2.free[i],
            ) by {
                assert(v2.free[i] == v.free[i]);
                assert(v.free[i] != v.free[n - 1]);
            }
            assert forall|d: usize| d < cap implies (held.insert(c).contains(d)
                || #[trigger] v2.free.contains(d)) by {
                if !held.contains(d) && d != c {
                    assert(v.free.contains(d));
                    let i = choose|i: int| 0 <= i < v.free.len() && v.free[i] == d;
                    assert(i != n - 1);
                    assert(v2.free[i] == d);
                }
            }
            assert forall|i: int| 0 <= i < v2.free.len() implies #[trigger] v2.free[i] < cap by {
                assert(v2.free[i] == v.free[i]);
            }
        },
        None => {
            assert forall|d: usize| d < cap implies (held.contains(d)
                || #[trigger] v2.free.contains(d)) by {
                assert(v.free.contains(d) || held.contains(d));
            }
        },
    }
}

/// A core given back either goes straight to a waiter (still in use) or
/// becomes free again, and the state stays consistent either way.
pub proof fn lemma_release_keeps_cores(v: ManagerView, cap: nat, held: Set<usize>, core: usize)
    requires
        manager_wf(v, cap, held),
        held.contains(core),
    ensures
        ({
            let (v2, r) = release_spec(v, core);
            match r {
                Some(w) => manager_wf(v2, cap, held) && w == v.waiters.last(),
                None => manager_wf(v2, cap, held.remove(core)) && v2.free == v.free.push(core),
            }
        }),
{
    let (v2, r) = release_spec(v, core);
    match r {
        Some(w) => {
            assert forall|d: usize| d < cap implies (held.contains(d)
                || #[trigger] v2.free.contains(d)) by {
                assert(v.free.contains(d) || held.contains(d));
            }
        },
        None => {
            let n = v.free.len();
            assert(v2.free[n as int] == core);
            assert forall|i: int| 0 <= i < v2.free.len() implies !held.remove(core).contains(
                #[trigger] v2.free[i],
            ) by {
                if i < n {
                    assert(v2.free[i] == v.free[i]);
                }
            }
            assert(v2.free.no_duplicates()) by {
                assert forall|i: int, j: int|
                    0 <= i < v2.free.len() && 0 <= j < v2.free.len() && i != j implies v2.free[i]
                    != v2.free[j] by {
                    if i < n && j < n {
                        assert(v2.free[i] == v.free[i] && v2.free[j] == v.free[j]);
                    } else if i < n {
                        assert(v2.free[i] == v.free[i]);
                        assert(!held.contains(v.free[i]));
                    } else if j < n {
                        assert(v2.free[j] == v.free[j]);
                        assert(!held.contains(v.free[j]));
                    }
                }
            }
            assert forall|d: usize| d < cap implies (held.remove(core).contains(d)
                || #[trigger] v2.free.contains(d)) by {
                if d == core {
                    assert(v2.free[n as int] == d);
                } else if !held.contains(d) {
                    assert(v.free.contains(d));
                    let i = choose|i: int| 0 <= i < v.free.len() && v.free[i] == d;
                    assert(v2.free[i] == d);
                }
            }
            assert forall|i: int| 0 <= i < v2.free.len() implies #[trigger] v2.free[i] < cap by {
                if i < n {
                    assert(v2.free[i] == v.free[i]);
                }
            }
        },
    }
}

} // verus!
