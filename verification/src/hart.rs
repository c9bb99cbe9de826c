use vstd::prelude::*;
use std::collections::VecDeque;
use crate::memory::{AddressSpaceId, MemorySet, Satp};

verus! {

/// Index of the first set in `s[i..]` registered for address space `asid`,
/// or `s.len()` if none is.
pub open spec fn find_mm_set(s: Seq<MemorySet>, i: int, asid: nat) -> int
    decreases s.len() - i,
{
    if i >= s.len() {
        s.len() as int
    } else if s[i].address_space_id.spec_value() == asid {
        i
    } else {
        find_mm_set(s, i + 1, asid)
    }
}

/// One call of `alloc_address_space_id` on a hart whose waiting numbers are
/// `free` (oldest first), whose largest number handed out is `max` and
/// whose maximum is `hart_max`: it hands out `r` and leaves `free2` and
/// `max2`. The oldest waiting number goes first; with none waiting, the
/// number above `max`, up to `hart_max`; otherwise none.
pub open spec fn alloc_step(
    free: Seq<usize>,
    max: nat,
    hart_max: nat,
    r: Option<AddressSpaceId>,
    free2: Seq<usize>,
    max2: nat,
) -> bool {
    if free.len() > 0 {
        &&& r == Some(AddressSpaceId::spec_from_raw(free[0]))
        &&& free2 == free.drop_first()
        &&& max2 == max
    } else if max < hart_max {
        &&& r == Some(AddressSpaceId::spec_from_raw((max + 1) as usize))
        &&& free2 == free
        &&& max2 == max + 1
    } else {
        &&& r is None
        &&& free2 == free
        &&& max2 == max
    }
}

/// One call of `free_address_space_id(a)` on a hart whose waiting numbers
/// are `free` and whose largest number handed out is `max`: the largest
/// number (but not the kernel's 0) lowers the counter, any other number
/// waits at the end of `free`.
pub open spec fn free_step(free: Seq<usize>, max: nat, a: nat, free2: Seq<usize>, max2: nat) -> bool {
    if a == max && max > 0 {
        &&& max2 == max - 1
        &&& free2 == free
    } else {
        &&& max2 == max
        &&& free2 == free.push(a as usize)
    }
}

/// No two sets of `s` are registered for the same address space.
pub open spec fn mm_sets_distinct(s: Seq<MemorySet>) -> bool {
    forall|a: int, b: int|
        0 <= a < b < s.len() ==> (#[trigger] s[a]).address_space_id != (#[trigger] s[b]).address_space_id
}

/// What a hardware thread keeps while the kernel runs on it: its number,
/// the address space and process it runs, the address space numbers it
/// hands out, and the user address spaces registered with it.
pub struct KernelHartInfo<P: Clone> {
    hart_id: usize,
    current_address_space_id: AddressSpaceId,
    current_process: Option<P>,
    hart_max_asid: AddressSpaceId,
    asid_free: VecDeque<usize>,
    asid_max: usize,
    user_mm_sets: Vec<MemorySet>,
    prev_asid: usize,
}

impl<P: Clone> KernelHartInfo<P> {
    /// No two registered user address spaces share a number, and no
    /// number above the hart's maximum was handed out.
    #[verifier::type_invariant]
    spec fn wf(self) -> bool {
        &&& mm_sets_distinct(self.user_mm_sets@)
        &&& self.asid_max <= self.hart_max_asid.spec_value()
    }

    pub closed spec fn spec_hart_id(&self) -> usize {
        self.hart_id
    }

    pub closed spec fn spec_address_space_id(&self) -> AddressSpaceId {
        self.current_address_space_id
    }

    pub closed spec fn spec_process(&self) -> Option<P> {
        self.current_process
    }

    /// Address space numbers given back and waiting to be handed out again,
    /// oldest first.
    pub closed spec fn spec_free(&self) -> Seq<usize> {
        self.asid_free@
    }

    /// The largest address space number handed out so far; 0, the
    /// kernel's own number, when none was.
    pub closed spec fn spec_max(&self) -> usize {
        self.asid_max
    }

    /// The largest number of address spaces this hart supports.
    pub closed spec fn spec_hart_max(&self) -> nat {
        self.hart_max_asid.spec_value()
    }

    /// The registered user address spaces, in order of registration.
    pub closed spec fn spec_mm_sets(&self) -> Seq<MemorySet> {
        self.user_mm_sets@
    }

    /// The address space number last entered in user mode.
    pub closed spec fn spec_prev_asid(&self) -> usize {
        self.prev_asid
    }

    /// The state of a hart just brought up: it runs address space 0 (the
    /// kernel's, never handed out), no process, has handed out no address
    /// space number and has no user address space registered.
    pub fn new(hart_id: usize, hart_max_asid: AddressSpaceId) -> (h: Self)
        ensures
            h.spec_hart_id() == hart_id,
            h.spec_address_space_id() == AddressSpaceId::spec_from_raw(0),
            h.spec_process() is None,
            h.spec_hart_max() == hart_max_asid.spec_value(),
            h.spec_free() == Seq::<usize>::empty(),
            h.spec_max() == 0,
            h.spec_mm_sets() == Seq::<MemorySet>::empty(),
            h.spec_prev_asid() == 0,
            h.spec_max() <= h.spec_hart_max(),
    {
        KernelHartInfo {
            hart_id,
            current_address_space_id: AddressSpaceId::from_raw(0),
            current_process: None,
            hart_max_asid,
            asid_free: VecDeque::new(),
            asid_max: 0,
            user_mm_sets: Vec::new(),
            prev_asid: 0,
        }
    }

    /// The number of this hardware thread.
    pub fn hart_id(&self) -> (r: usize)
        ensures
            r == self.spec_hart_id(),
    {
        self.hart_id
    }

    /// Records `asid` as the address space now running.
    pub fn load_address_space_id(&mut self, asid: AddressSpaceId)
        ensures
            final(self).spec_address_space_id() == asid,
            final(self).spec_hart_id() == old(self).spec_hart_id(),
            final(self).spec_process() == old(self).spec_process(),
            final(self).spec_hart_max() == old(self).spec_hart_max(),
            final(self).spec_free() == old(self).spec_free(),
            final(self).spec_max() == old(self).spec_max(),
            final(self).spec_mm_sets() == old(self).spec_mm_sets(),
            final(self).spec_prev_asid() == old(self).spec_prev_asid(),
    {
        proof {
            use_type_invariant(&*self);
        }
        self.current_address_space_id = asid;
    }

    /// The address space now running.
    pub fn current_address_space_id(&self) -> (r: AddressSpaceId)
        ensures
            r == self.spec_address_space_id(),
    {
        self.current_address_space_id
    }

    /// Records `process` as the process now running.
    pub fn load_process(&mut self, process: P)
        ensures
            final(self).spec_process() == Some(process),
            final(self).spec_address_space_id() == old(self).spec_address_space_id(),
            final(self).spec_hart_id() == old(self).spec_hart_id(),
            final(self).spec_hart_max() == old(self).spec_hart_max(),
            final(self).spec_free() == old(self).spec_free(),
            final(self).spec_max() == old(self).spec_max(),
            final(self).spec_mm_sets() == old(self).spec_mm_sets(),
            final(self).spec_prev_asid() == old(self).spec_prev_asid(),
    {
        proof {
            use_type_invariant(&*self);
        }
        self.current_process = Some(process);
    }

    /// A clone of the process now running, if one was recorded.
    pub fn current_process(&self) -> (r: Option<P>)
        ensures
            match self.spec_process() {
                Some(p) => r matches Some(q) && cloned::<P>(p, q),
                None => r is None,
            },
    {
        match &self.current_process {
            Some(p) => Some(p.clone()),
            None => None,
        }
    }

    /// Hands out an address space number: the oldest one given back, if
    /// any; otherwise the next fresh one above the largest handed out so
    /// far (so 0, the kernel's, never is), up to the hart's maximum;
    /// otherwise none.
    pub fn alloc_address_space_id(&mut self) -> (r: Option<AddressSpaceId>)
        ensures
            final(self).spec_hart_id() == old(self).spec_hart_id(),
            final(self).spec_address_space_id() == old(self).spec_address_space_id(),
            final(self).spec_process() == old(self).spec_process(),
            final(self).spec_hart_max() == old(self).spec_hart_max(),
            final(self).spec_mm_sets() == old(self).spec_mm_sets(),
            final(self).spec_prev_asid() == old(self).spec_prev_asid(),
            alloc_step(
                old(self).spec_free(),
                old(self).spec_max() as nat,
                old(self).spec_hart_max(),
                r,
                final(self).spec_free(),
                final(self).spec_max() as nat,
            ),
            old(self).spec_max() <= old(self).spec_hart_max(),
            final(self).spec_max() <= final(self).spec_hart_max(),
    {
        proof {
            use_type_invariant(&*self);
        }
        if self.asid_free.len() > 0 {
            let mut free: VecDeque<usize> = VecDeque::new();
            core::mem::swap(&mut free, &mut self.asid_free);
            let idx = free.pop_front();
            self.asid_free = free;
            match idx {
                Some(idx) => {
                    proof {
                        assert(self.asid_free@ =~= old(self).asid_free@.drop_first());
                    }
                    return Some(AddressSpaceId::from_raw(idx));
                },
                None => {
                    return None;
                },
            }
        }
        if self.asid_max < self.hart_max_asid.into_inner() {
            let ans = self.asid_max + 1;
            self.asid_max = ans;
            Some(AddressSpaceId::from_raw(ans))
        } else {
            None
        }
    }

    /// Gives address space number `asid` back. If it is the largest number
    /// handed out (and not the kernel's 0), the counter goes down by one;
    /// otherwise the number waits to be handed out again.
    pub fn free_address_space_id(&mut self, asid: AddressSpaceId)
        ensures
            final(self).spec_hart_id() == old(self).spec_hart_id(),
            final(self).spec_address_space_id() == old(self).spec_address_space_id(),
            final(self).spec_process() == old(self).spec_process(),
            final(self).spec_hart_max() == old(self).spec_hart_max(),
            final(self).spec_mm_sets() == old(self).spec_mm_sets(),
            final(self).spec_prev_asid() == old(self).spec_prev_asid(),
            free_step(
                old(self).spec_free(),
                old(self).spec_max() as nat,
                asid.spec_value(),
                final(self).spec_free(),
                final(self).spec_max() as nat,
            ),
            old(self).spec_max() <= old(self).spec_hart_max(),
            final(self).spec_max() <= final(self).spec_hart_max(),
    {
        proof {
            use_type_invariant(&*self);
        }
        let value = asid.into_inner();
        if value == self.asid_max && self.asid_max > 0 {
            self.asid_max = self.asid_max - 1;
        } else {
            let mut free: VecDeque<usize> = VecDeque::new();
            core::mem::swap(&mut free, &mut self.asid_free);
            free.push_back(value);
            self.asid_free = free;
        }
    }

    /// Registers user address space `mm_set`. Refused, returning `false`,
    /// when a set is already registered for its address space number.
    pub fn load_user_mm_set(&mut self, mm_set: MemorySet) -> (ok: bool)
        ensures
            ok == (find_mm_set(old(self).spec_mm_sets(), 0, mm_set.address_space_id.spec_value())
                == old(self).spec_mm_sets().len()),
            ok ==> final(self).spec_mm_sets() == old(self).spec_mm_sets().push(mm_set),
            !ok ==> final(self).spec_mm_sets() == old(self).spec_mm_sets(),
            final(self).spec_hart_id() == old(self).spec_hart_id(),
            final(self).spec_address_space_id() == old(self).spec_address_space_id(),
            final(self).spec_process() == old(self).spec_process(),
            final(self).spec_hart_max() == old(self).spec_hart_max(),
            final(self).spec_free() == old(self).spec_free(),
            final(self).spec_max() == old(self).spec_max(),
            final(self).spec_prev_asid() == old(self).spec_prev_asid(),
    {
        proof {
            use_type_invariant(&*self);
        }
        let target = mm_set.address_space_id.into_inner();
        let n = self.user_mm_sets.len();
        let mut i: usize = 0;
        while i < n
            invariant
                n == self.user_mm_sets@.len(),
                i <= n,
                self == old(self),
                mm_sets_distinct(self.user_mm_sets@),
                target == mm_set.address_space_id.spec_value(),
                find_mm_set(self.user_mm_sets@, 0, target as nat) == find_mm_set(self.user_mm_sets@, i as int, target as nat),
                forall|k: int| 0 <= k < i ==> (#[trigger] self.user_mm_sets@[k]).address_space_id.spec_value() != target,
            decreases n - i,
        {
            if self.user_mm_sets[i].address_space_id.into_inner() == target {
                return false;
            }
            i = i + 1;
        }
        proof {
            let s = self.user_mm_sets@;
            assert forall|a: int, b: int| 0 <= a < b < s.push(mm_set).len() implies
                (#[trigger] s.push(mm_set)[a]).address_space_id != (#[trigger] s.push(mm_set)[b]).address_space_id by {
                if b == s.len() {
                    assert(s[a].address_space_id.spec_value() != target);
                } else {
                    assert(s[a] == s.push(mm_set)[a]);
                    assert(s[b] == s.push(mm_set)[b]);
                }
            }
        }
        let mut sets: Vec<MemorySet> = Vec::new();
        core::mem::swap(&mut sets, &mut self.user_mm_sets);
        sets.push(mm_set);
        self.user_mm_sets = sets;
        true
    }

    /// Removes and returns the registered user address space whose number
    /// is `asid`, if any; afterwards none is registered under `asid`.
    pub fn unload_user_mm_set(&mut self, asid: usize) -> (r: Option<MemorySet>)
        ensures
            ({
                let s = old(self).spec_mm_sets();
                let j = find_mm_set(s, 0, asid as nat);
                if j < s.len() {
                    &&& r == Some(s[j])
                    &&& final(self).spec_mm_sets() == s.remove(j)
                } else {
                    &&& r is None
                    &&& final(self).spec_mm_sets() == s
                }
            }),
            find_mm_set(final(self).spec_mm_sets(), 0, asid as nat) == final(self).spec_mm_sets().len(),
            final(self).spec_hart_id() == old(self).spec_hart_id(),
            final(self).spec_address_space_id() == old(self).spec_address_space_id(),
            final(self).spec_process() == old(self).spec_process(),
            final(self).spec_hart_max() == old(self).spec_hart_max(),
            final(self).spec_free() == old(self).spec_free(),
            final(self).spec_max() == old(self).spec_max(),
            final(self).spec_prev_asid() == old(self).spec_prev_asid(),
    {
        proof {
            use_type_invariant(&*self);
        }
        let n = self.user_mm_sets.len();
        let mut index: usize = 0;
        while index < n
            invariant
                n == self.user_mm_sets@.len(),
                index <= n,
                self == old(self),
                mm_sets_distinct(self.user_mm_sets@),
                find_mm_set(self.user_mm_sets@, 0, asid as nat) == find_mm_set(self.user_mm_sets@, index as int, asid as nat),
            ensures
                index <= n,
                self == old(self),
                mm_sets_distinct(self.user_mm_sets@),
                find_mm_set(self.user_mm_sets@, 0, asid as nat) == index,
            decreases n - index,
        {
            if self.user_mm_sets[index].address_space_id.into_inner() == asid {
                break;
            }
            index = index + 1;
        }
        if index < n {
            proof {
                let s = self.user_mm_sets@;
                assert forall|a: int, b: int| 0 <= a < b < s.remove(index as int).len() implies
                    (#[trigger] s.remove(index as int)[a]).address_space_id != (#[trigger] s.remove(index as int)[b]).address_space_id by {
                    let a2 = if a < index { a } else { a + 1 };
                    let b2 = if b < index { b } else { b + 1 };
                    assert(s.remove(index as int)[a] == s[a2]);
                    assert(s.remove(index as int)[b] == s[b2]);
                }
                lemma_find_mm_set_range(s, 0, asid as nat);
                assert forall|k: int| 0 <= k < s.remove(index as int).len() implies
                    (#[trigger] s.remove(index as int)[k]).address_space_id.spec_value() != asid by {
                    let k2 = if k < index { k } else { k + 1 };
                    assert(s.remove(index as int)[k] == s[k2]);
                    crate::memory::lemma_address_space_id_eq(s[k2].address_space_id, s[index as int].address_space_id);
                }
                lemma_find_mm_set_absent(s.remove(index as int), 0, asid as nat);
            }
            let mut sets: Vec<MemorySet> = Vec::new();
            core::mem::swap(&mut sets, &mut self.user_mm_sets);
            let mm_set = sets.remove(index);
            self.user_mm_sets = sets;
            Some(mm_set)
        } else {
            None
        }
    }

    /// The `satp` value of the first registered user address space whose
    /// number is `asid`, if any.
    pub fn user_satp(&self, asid: usize) -> (r: Option<Satp>)
        ensures
            ({
                let s = self.spec_mm_sets();
                let j = find_mm_set(s, 0, asid as nat);
                if j < s.len() {
                    r == Some(s[j].satp)
                } else {
                    r is None
                }
            }),
    {
        let n = self.user_mm_sets.len();
        let mut i: usize = 0;
        while i < n
            invariant
                n == self.user_mm_sets@.len(),
                i <= n,
                find_mm_set(self.user_mm_sets@, 0, asid as nat) == find_mm_set(self.user_mm_sets@, i as int, asid as nat),
            decreases n - i,
        {
            if self.user_mm_sets[i].address_space_id.into_inner() == asid {
                return Some(self.user_mm_sets[i].satp());
            }
            i = i + 1;
        }
        None
    }

    /// The `satp` value of the user address space last entered, if it is
    /// still registered.
    pub fn prev_satp(&self) -> (r: Option<Satp>)
        ensures
            ({
                let s = self.spec_mm_sets();
                let j = find_mm_set(s, 0, self.spec_prev_asid() as nat);
                if j < s.len() {
                    r == Some(s[j].satp)
                } else {
                    r is None
                }
            }),
    {
        let asid = self.prev_asid;
        self.user_satp(asid)
    }

    /// Records `asid` as the user address space about to be entered.
    pub fn set_prev_asid(&mut self, asid: usize)
        ensures
            final(self).spec_prev_asid() == asid,
            final(self).spec_hart_id() == old(self).spec_hart_id(),
            final(self).spec_address_space_id() == old(self).spec_address_space_id(),
            final(self).spec_process() == old(self).spec_process(),
            final(self).spec_hart_max() == old(self).spec_hart_max(),
            final(self).spec_free() == old(self).spec_free(),
            final(self).spec_max() == old(self).spec_max(),
            final(self).spec_mm_sets() == old(self).spec_mm_sets(),
    {
        proof {
            use_type_invariant(&*self);
        }
        self.prev_asid = asid;
    }

    /// The user address space number last entered.
    pub fn get_prev_asid(&self) -> (r: usize)
        ensures
            r == self.spec_prev_asid(),
    {
        self.prev_asid
    }
}

proof fn lemma_find_mm_set_range(s: Seq<MemorySet>, i: int, asid: nat)
    requires
        0 <= i <= s.len(),
    ensures
        i <= find_mm_set(s, i, asid) <= s.len(),
        find_mm_set(s, i, asid) < s.len() ==> s[find_mm_set(s, i, asid)].address_space_id.spec_value() == asid,
    decreases s.len() - i,
{
    if i < s.len() {
        lemma_find_mm_set_range(s, i + 1, asid);
    }
}

proof fn lemma_find_mm_set_push(s: Seq<MemorySet>, i: int, m: MemorySet, asid: nat)
    requires
        0 <= i <= s.len(),
        find_mm_set(s, i, asid) == s.len(),
    ensures
        find_mm_set(s.push(m), i, asid) == if m.address_space_id.spec_value() == asid { s.len() as int } else { s.len() + 1int },
    decreases s.len() - i,
{
    if i < s.len() {
        assert(s.push(m)[i] == s[i]);
        lemma_find_mm_set_push(s, i + 1, m, asid);
    } else {
        assert(s.push(m)[i] == m);
        assert(find_mm_set(s.push(m), i + 1, asid) == s.len() + 1);
    }
}

/// After a user address space is registered, looking up its number finds
/// it: `user_satp` gives its `satp` value.
pub proof fn lemma_satp_after_load(s: Seq<MemorySet>, m: MemorySet)
    requires
        find_mm_set(s, 0, m.address_space_id.spec_value()) == s.len(),
    ensures
        find_mm_set(s.push(m), 0, m.address_space_id.spec_value()) == s.len(),
        s.push(m)[s.len() as int].satp == m.satp,
{
    lemma_find_mm_set_push(s, 0, m, m.address_space_id.spec_value());
}

/// Registering a user address space and then removing its number gives
/// back that set and leaves the registry as it was.
pub proof fn lemma_unload_after_load(s: Seq<MemorySet>, m: MemorySet)
    requires
        find_mm_set(s, 0, m.address_space_id.spec_value()) == s.len(),
    ensures
        ({
            let j = find_mm_set(s.push(m), 0, m.address_space_id.spec_value());
            &&& j < s.push(m).len()
            &&& s.push(m)[j] == m
            &&& s.push(m).remove(j) == s
        }),
{
    lemma_find_mm_set_push(s, 0, m, m.address_space_id.spec_value());
    assert(s.push(m).remove(s.len() as int) =~= s);
}

/// Registering is refused exactly when the number is taken, so the
/// registry never holds two sets for one address space number.
pub proof fn lemma_load_keeps_distinct(s: Seq<MemorySet>, m: MemorySet)
    requires
        mm_sets_distinct(s),
        find_mm_set(s, 0, m.address_space_id.spec_value()) == s.len(),
    ensures
        mm_sets_distinct(s.push(m)),
{
    assert forall|a: int, b: int| 0 <= a < b < s.push(m).len() implies
        (#[trigger] s.push(m)[a]).address_space_id != (#[trigger] s.push(m)[b]).address_space_id by {
        if b == s.len() {
            lemma_find_mm_set_none(s, 0, m.address_space_id.spec_value());
            assert(s[a].address_space_id.spec_value() != m.address_space_id.spec_value());
        } else {
            assert(s.push(m)[a] == s[a]);
            assert(s.push(m)[b] == s[b]);
        }
    }
}

proof fn lemma_find_mm_set_absent(s: Seq<MemorySet>, i: int, asid: nat)
    requires
        0 <= i <= s.len(),
        forall|k: int| i <= k < s.len() ==> (#[trigger] s[k]).address_space_id.spec_value() != asid,
    ensures
        find_mm_set(s, i, asid) == s.len(),
    decreases s.len() - i,
{
    if i < s.len() {
        lemma_find_mm_set_absent(s, i + 1, asid);
    }
}

proof fn lemma_find_mm_set_none(s: Seq<MemorySet>, i: int, asid: nat)
    requires
        0 <= i <= s.len(),
        find_mm_set(s, i, asid) == s.len(),
    ensures
        forall|k: int| i <= k < s.len() ==> (#[trigger] s[k]).address_space_id.spec_value() != asid,
    decreases s.len() - i,
{
    if i < s.len() {
        lemma_find_mm_set_none(s, i + 1, asid);
    }
}

proof fn lemma_alloc_sequence_state(
    frees: Seq<Seq<usize>>,
    maxes: Seq<nat>,
    results: Seq<Option<AddressSpaceId>>,
    hart_max: nat,
    i: int,
)
    requires
        frees.len() == results.len() + 1,
        maxes.len() == results.len() + 1,
        frees[0] == Seq::<usize>::empty(),
        maxes[0] == 0,
        forall|k: int| #![trigger results[k]] 0 <= k < results.len()
            ==> alloc_step(frees[k], maxes[k], hart_max, results[k], frees[k + 1], maxes[k + 1]),
        0 <= i <= results.len(),
    ensures
        frees[i] == Seq::<usize>::empty(),
        maxes[i] == if i < hart_max { i as nat } else { hart_max },
    decreases i,
{
    if i > 0 {
        lemma_alloc_sequence_state(frees, maxes, results, hart_max, i - 1);
        let _ = results[i - 1];
    }
}

/// Handing out address space numbers on a hart just brought up, with none
/// given back: the calls hand out 1, 2, ... up to the hart's maximum (never
/// 0, the kernel's), and none after.
pub proof fn lemma_alloc_sequence(
    frees: Seq<Seq<usize>>,
    maxes: Seq<nat>,
    results: Seq<Option<AddressSpaceId>>,
    hart_max: nat,
)
    requires
        frees.len() == results.len() + 1,
        maxes.len() == results.len() + 1,
        frees[0] == Seq::<usize>::empty(),
        maxes[0] == 0,
        forall|k: int| #![trigger results[k]] 0 <= k < results.len()
            ==> alloc_step(frees[k], maxes[k], hart_max, results[k], frees[k + 1], maxes[k + 1]),
    ensures
        forall|k: int| 0 <= k < results.len() ==> #[trigger] results[k] == if k < hart_max {
            Some(AddressSpaceId::spec_from_raw((k + 1) as usize))
        } else {
            None
        },
{
    assert forall|k: int| 0 <= k < results.len() implies #[trigger] results[k] == if k < hart_max {
        Some(AddressSpaceId::spec_from_raw((k + 1) as usize))
    } else {
        None
    } by {
        lemma_alloc_sequence_state(frees, maxes, results, hart_max, k);
    }
}

/// Freeing and handing out again: a number that was handed out (between 1
/// and the largest handed out) and is given back while no other number
/// waits is the next one handed out, whether it was the largest (the
/// counter goes down and up again) or not (it waits and goes out first).
pub proof fn lemma_free_then_alloc(
    free: Seq<usize>,
    max: nat,
    hart_max: nat,
    a: AddressSpaceId,
    free1: Seq<usize>,
    max1: nat,
    r: Option<AddressSpaceId>,
    free2: Seq<usize>,
    max2: nat,
)
    requires
        free.len() == 0,
        max <= hart_max,
        1 <= a.spec_value() <= max,
        free_step(free, max, a.spec_value(), free1, max1),
        alloc_step(free1, max1, hart_max, r, free2, max2),
    ensures
        r == Some(a),
{
    crate::memory::lemma_from_raw_into_inner(a);
}

/// What a call on a hart does to its running address space and to the
/// user address space number last entered: `load_address_space_id`,
/// `set_prev_asid`, or any other method, which keeps both (as each one's
/// contract states).
pub enum HartEvent {
    LoadAddressSpace(AddressSpaceId),
    SetPrevAsid(usize),
    Other,
}

/// `e` takes the running address space from `cur` to `cur2` and the
/// number last entered from `prev` to `prev2`.
pub open spec fn hart_step(e: HartEvent, cur: AddressSpaceId, prev: usize, cur2: AddressSpaceId, prev2: usize) -> bool {
    match e {
        HartEvent::LoadAddressSpace(a) => cur2 == a && prev2 == prev,
        HartEvent::SetPrevAsid(p) => cur2 == cur && prev2 == p,
        HartEvent::Other => cur2 == cur && prev2 == prev,
    }
}

/// The running address space after the first `i` events, on a hart just
/// brought up: the last one loaded, or the kernel's 0.
pub open spec fn last_loaded(events: Seq<HartEvent>, i: int) -> AddressSpaceId
    decreases i,
{
    if i <= 0 {
        AddressSpaceId::spec_from_raw(0)
    } else {
        match events[i - 1] {
            HartEvent::LoadAddressSpace(a) => a,
            _ => last_loaded(events, i - 1),
        }
    }
}

/// The number last entered after the first `i` events, on a hart just
/// brought up: the last one set, or 0.
pub open spec fn last_prev(events: Seq<HartEvent>, i: int) -> usize
    decreases i,
{
    if i <= 0 {
        0
    } else {
        match events[i - 1] {
            HartEvent::SetPrevAsid(p) => p,
            _ => last_prev(events, i - 1),
        }
    }
}

/// Over any series of calls on a hart just brought up (`new`), the running
/// address space is the last one loaded (the kernel's 0 before any), and
/// the number last entered is the last one set (0 before any): no other
/// call changes either.
pub proof fn lemma_hart_trace(events: Seq<HartEvent>, curs: Seq<AddressSpaceId>, prevs: Seq<usize>)
    requires
        curs.len() == events.len() + 1,
        prevs.len() == events.len() + 1,
        curs[0] == AddressSpaceId::spec_from_raw(0),
        prevs[0] == 0,
        forall|k: int| #![trigger events[k]] 0 <= k < events.len()
            ==> hart_step(events[k], curs[k], prevs[k], curs[k + 1], prevs[k + 1]),
    ensures
        forall|i: int| 0 <= i <= events.len() ==> #[trigger] curs[i] == last_loaded(events, i) && prevs[i] == last_prev(events, i),
{
    assert forall|i: int| 0 <= i <= events.len() implies #[trigger] curs[i] == last_loaded(events, i) && prevs[i] == last_prev(events, i) by {
        lemma_hart_trace_upto(events, curs, prevs, i);
    }
}

proof fn lemma_hart_trace_upto(events: Seq<HartEvent>, curs: Seq<AddressSpaceId>, prevs: Seq<usize>, i: int)
    requires
        curs.len() == events.len() + 1,
        prevs.len() == events.len() + 1,
        curs[0] == AddressSpaceId::spec_from_raw(0),
        prevs[0] == 0,
        forall|k: int| #![trigger events[k]] 0 <= k < events.len()
            ==> hart_step(events[k], curs[k], prevs[k], curs[k + 1], prevs[k + 1]),
        0 <= i <= events.len(),
    ensures
        curs[i] == last_loaded(events, i),
        prevs[i] == last_prev(events, i),
    decreases i,
{
    if i > 0 {
        lemma_hart_trace_upto(events, curs, prevs, i - 1);
        let _ = events[i - 1];
    }
}

} // verus!
