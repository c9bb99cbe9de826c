use vstd::prelude::*;

verus! {

/// Bookkeeping for nested interrupt masking on one hart: how deep the
/// masking is nested and whether interrupts were enabled before the
/// outermost masking.
pub struct IntrMaskingInfo {
    nested_level: usize,
    sie_before_masking: bool,
}

impl IntrMaskingInfo {
    pub closed spec fn spec_level(&self) -> usize {
        self.nested_level
    }

    pub closed spec fn spec_sie_before(&self) -> bool {
        self.sie_before_masking
    }

    /// How deep the masking is nested.
    pub fn nested_level(&self) -> (r: usize)
        ensures
            r == self.spec_level(),
    {
        self.nested_level
    }

    /// No masking in progress.
    pub fn new() -> (r: Self)
        ensures
            r.spec_level() == 0,
            !r.spec_sie_before(),
    {
        Self { nested_level: 0, sie_before_masking: false }
    }

    /// The bookkeeping after entering one more level with interrupt-enable
    /// bit `sie`: it is remembered only at the outermost level.
    pub closed spec fn entered(self, sie: bool) -> Self {
        IntrMaskingInfo {
            nested_level: (self.nested_level + 1) as usize,
            sie_before_masking: if self.nested_level == 0 { sie } else { self.sie_before_masking },
        }
    }

    /// The bookkeeping after leaving one level.
    pub closed spec fn exited(self) -> Self {
        IntrMaskingInfo { nested_level: (self.nested_level - 1) as usize, sie_before_masking: self.sie_before_masking }
    }

    /// Whether leaving one level must enable interrupts again: the
    /// outermost level is left and they were enabled before it.
    pub closed spec fn exit_restores(self) -> bool {
        self.nested_level == 1 && self.sie_before_masking
    }

    /// Enters one more level of masking. `sie` is the interrupt-enable bit
    /// as it was just before the caller masked interrupts; it is remembered
    /// only when this is the outermost level.
    pub fn enter(&mut self, sie: bool)
        requires
            old(self).spec_level() < usize::MAX,
        ensures
            *final(self) == old(self).entered(sie),
            final(self).spec_level() == old(self).spec_level() + 1,
    {
        if self.nested_level == 0 {
            self.sie_before_masking = sie;
        }
        self.nested_level = self.nested_level + 1;
    }

    /// Leaves one level of masking. Returns whether the caller must enable
    /// interrupts again: when the outermost level is left and they were
    /// enabled before it.
    pub fn exit(&mut self) -> (restore: bool)
        requires
            old(self).spec_level() > 0,
        ensures
            *final(self) == old(self).exited(),
            final(self).spec_level() == old(self).spec_level() - 1,
            restore == old(self).exit_restores(),
    {
        self.nested_level = self.nested_level - 1;
        self.nested_level == 0 && self.sie_before_masking
    }
}

/// The bookkeeping after entering one level for each interrupt-enable bit
/// of `sies`, in order.
pub open spec fn entered_all(info: IntrMaskingInfo, sies: Seq<bool>) -> IntrMaskingInfo
    decreases sies.len(),
{
    if sies.len() == 0 {
        info
    } else {
        entered_all(info, sies.drop_last()).entered(sies.last())
    }
}

/// The bookkeeping after leaving `k` levels.
pub open spec fn exited_n(info: IntrMaskingInfo, k: nat) -> IntrMaskingInfo
    decreases k,
{
    if k == 0 {
        info
    } else {
        exited_n(info, (k - 1) as nat).exited()
    }
}

proof fn lemma_entered_all(info: IntrMaskingInfo, sies: Seq<bool>)
    requires
        info.spec_level() + sies.len() <= usize::MAX,
    ensures
        entered_all(info, sies).spec_level() == info.spec_level() + sies.len(),
        entered_all(info, sies).spec_sie_before() == if info.spec_level() == 0 && sies.len() > 0 {
            sies[0]
        } else {
            info.spec_sie_before()
        },
    decreases sies.len(),
{
    if sies.len() > 0 {
        lemma_entered_all(info, sies.drop_last());
    }
}

proof fn lemma_exited_n(info: IntrMaskingInfo, k: nat)
    requires
        k <= info.spec_level(),
    ensures
        exited_n(info, k).spec_level() == info.spec_level() - k,
        exited_n(info, k).spec_sie_before() == info.spec_sie_before(),
    decreases k,
{
    if k > 0 {
        lemma_exited_n(info, (k - 1) as nat);
    }
}

/// Nested masking at any depth: from no masking, entering once for each
/// bit of `sies` and then leaving as often, no exit but the last asks to
/// enable interrupts, the last asks exactly when interrupts were enabled
/// before the outermost masking (`sies[0]`), and no masking is left in
/// progress.
pub proof fn lemma_nested_masking(info: IntrMaskingInfo, sies: Seq<bool>)
    requires
        info.spec_level() == 0,
        0 < sies.len() <= usize::MAX,
    ensures
        forall|k: nat| k < sies.len() ==> #[trigger] exited_n(entered_all(info, sies), k).exit_restores()
            == (k == sies.len() - 1 && sies[0]),
        exited_n(entered_all(info, sies), sies.len()).spec_level() == 0,
{
    lemma_entered_all(info, sies);
    let e = entered_all(info, sies);
    assert forall|k: nat| k < sies.len() implies #[trigger] exited_n(e, k).exit_restores()
        == (k == sies.len() - 1 && sies[0]) by {
        lemma_exited_n(e, k);
    }
    lemma_exited_n(e, sies.len());
}

/// Masking interrupts around a critical section and unmasking them after:
/// from no masking, entering with interrupt-enable bit `sie` and leaving
/// again asks to enable interrupts exactly when `sie` was set, and leaves
/// no masking in progress.
pub proof fn lemma_enter_exit_outermost(info: IntrMaskingInfo, sie: bool)
    requires
        info.spec_level() == 0,
    ensures
        info.entered(sie).exit_restores() == sie,
        info.entered(sie).exited().spec_level() == 0,
{
}

/// A nested critical section changes nothing: inside masking, entering and
/// leaving again asks for no unmasking and restores the bookkeeping.
pub proof fn lemma_enter_exit_nested(info: IntrMaskingInfo, sie: bool)
    requires
        0 < info.spec_level() < usize::MAX,
    ensures
        !info.entered(sie).exit_restores(),
        info.entered(sie).exited() == info,
{
}

} // verus!
