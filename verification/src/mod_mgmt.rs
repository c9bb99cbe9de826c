use vstd::prelude::*;

verus! {

/// The kind of a kernel module, in initialization order: block devices
/// first.
#[derive(Debug, Clone, Copy, PartialEq, Eq, PartialOrd, Ord, Structural)]
pub enum ModuleType {
    Block,
    Other,
}

/// A kernel module as the linker lays it out: the address of its
/// initialization function and its kind.
#[derive(Debug, Clone, Copy)]
pub struct Module {
    pub init: usize,
    pub ty: ModuleType,
}

/// The number of each module kind.
pub open spec fn module_type_number(t: ModuleType) -> u32 {
    match t {
        ModuleType::Block => 0,
        ModuleType::Other => 1,
    }
}

impl ModuleType {
    /// The kind's number.
    pub fn number(&self) -> (n: u32)
        ensures
            n == module_type_number(*self),
    {
        match self {
            ModuleType::Block => 0,
            ModuleType::Other => 1,
        }
    }
}

} // verus!
