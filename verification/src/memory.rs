//! Pointers into another process, and the errors of following them.
use vstd::prelude::*;

verus! {

/// What the operating system refused when another process was looked up or read.
///
/// Where a reason came with the refusal, it is kept as the text that describes it.
#[derive(Clone, Debug)]
pub enum MemoryError {
    ProcessNotFound,
    ModuleNotFound,
    SnapshotFailed(String),
    ReadMemoryFailed(String),
    WriteMemoryFailed(String),
}

impl MemoryError {
    /// The two errors are of one kind and give the same reason.
    pub open spec fn same(self, other: MemoryError) -> bool {
        match (self, other) {
            (MemoryError::ProcessNotFound, MemoryError::ProcessNotFound) => true,
            (MemoryError::ModuleNotFound, MemoryError::ModuleNotFound) => true,
            (MemoryError::SnapshotFailed(a), MemoryError::SnapshotFailed(b)) => a@ == b@,
            (MemoryError::ReadMemoryFailed(a), MemoryError::ReadMemoryFailed(b)) => a@ == b@,
            (MemoryError::WriteMemoryFailed(a), MemoryError::WriteMemoryFailed(b)) => a@ == b@,
            _ => false,
        }
    }
}

impl PartialEq for MemoryError {
    fn eq(&self, other: &MemoryError) -> (r: bool) {
        match (self, other) {
            (MemoryError::ProcessNotFound, MemoryError::ProcessNotFound) => true,
            (MemoryError::ModuleNotFound, MemoryError::ModuleNotFound) => true,
            (MemoryError::SnapshotFailed(a), MemoryError::SnapshotFailed(b)) => *a == *b,
            (MemoryError::ReadMemoryFailed(a), MemoryError::ReadMemoryFailed(b)) => *a == *b,
            (MemoryError::WriteMemoryFailed(a), MemoryError::WriteMemoryFailed(b)) => *a == *b,
            _ => false,
        }
    }
}

impl vstd::std_specs::cmp::PartialEqSpecImpl for MemoryError {
    open spec fn obeys_eq_spec() -> bool {
        true
    }

    open spec fn eq_spec(&self, other: &MemoryError) -> bool {
        self.same(*other)
    }
}

/// A chain of offsets that leads from the base of a module to a value.
#[derive(Debug)]
pub struct Pointer {
    /// The offsets at which the next address is read, in order.
    pub offsets: Vec<usize>,
    /// What is added to the address that was read last.
    pub final_offset: usize,
}

/// A [`Pointer`] as a value.
pub struct PointerView {
    pub offsets: Seq<usize>,
    pub final_offset: usize,
}

impl View for Pointer {
    type V = PointerView;

    open spec fn view(&self) -> PointerView {
        PointerView { offsets: self.offsets@, final_offset: self.final_offset }
    }
}

impl Clone for Pointer {
    fn clone(&self) -> (r: Pointer)
        ensures
            r@ == self@,
    {
        let offsets = self.offsets.clone();
        assert(offsets@ =~= self.offsets@);
        Pointer { offsets, final_offset: self.final_offset }
    }
}

impl PartialEq for Pointer {
    fn eq(&self, other: &Pointer) -> (r: bool) {
        let r = self.offsets == other.offsets && self.final_offset == other.final_offset;
        assert(r ==> self.offsets@ =~= other.offsets@);
        r
    }
}

impl vstd::std_specs::cmp::PartialEqSpecImpl for Pointer {
    open spec fn obeys_eq_spec() -> bool {
        true
    }

    open spec fn eq_spec(&self, other: &Pointer) -> bool {
        self@ == other@
    }
}

/// A read of another process that failed, with where it failed.
#[derive(Debug)]
pub struct ReadError {
    /// The chain that was being followed, if one was.
    pub pointer: Option<Pointer>,
    /// The address that could not be read, or 0 where no address was involved.
    pub address: usize,
    pub error: MemoryError,
}

/// A [`ReadError`] as a value.
pub struct ReadErrorView {
    pub pointer: Option<PointerView>,
    pub address: usize,
    pub error: MemoryError,
}

impl View for ReadError {
    type V = ReadErrorView;

    open spec fn view(&self) -> ReadErrorView {
        ReadErrorView {
            pointer: match self.pointer {
                Some(p) => Some(p@),
                None => None,
            },
            address: self.address,
            error: self.error,
        }
    }
}

impl ReadErrorView {
    /// The two errors tell of the same failure in the same place.
    pub open spec fn same(self, other: ReadErrorView) -> bool {
        &&& self.pointer == other.pointer
        &&& self.address == other.address
        &&& self.error.same(other.error)
    }
}

impl Clone for ReadError {
    fn clone(&self) -> (r: ReadError)
        ensures
            r@.same(self@),
    {
        ReadError {
            pointer: match &self.pointer {
                Some(p) => Some(p.clone()),
                None => None,
            },
            address: self.address,
            error: match &self.error {
                MemoryError::ProcessNotFound => MemoryError::ProcessNotFound,
                MemoryError::ModuleNotFound => MemoryError::ModuleNotFound,
                MemoryError::SnapshotFailed(s) => MemoryError::SnapshotFailed(s.clone()),
                MemoryError::ReadMemoryFailed(s) => MemoryError::ReadMemoryFailed(s.clone()),
                MemoryError::WriteMemoryFailed(s) => MemoryError::WriteMemoryFailed(s.clone()),
            },
        }
    }
}

impl PartialEq for ReadError {
    fn eq(&self, other: &ReadError) -> (r: bool) {
        let pointers = match (&self.pointer, &other.pointer) {
            (None, None) => true,
            (Some(p), Some(q)) => *p == *q,
            _ => false,
        };
        pointers && self.address == other.address && self.error == other.error
    }
}

impl vstd::std_specs::cmp::PartialEqSpecImpl for ReadError {
    open spec fn obeys_eq_spec() -> bool {
        true
    }

    open spec fn eq_spec(&self, other: &ReadError) -> bool {
        self@.same(other@)
    }
}

/// Two errors are the same exactly if they are of one kind, at the same address, along the same
/// chain or both without one, and if the same reasons are given for them, character by character.
pub proof fn lemma_same_errors(a: ReadErrorView, b: ReadErrorView)
    ensures
        a.same(b) ==> a.address == b.address && a.pointer == b.pointer,
        a.same(b) ==> {
            &&& a.error is ProcessNotFound == b.error is ProcessNotFound
            &&& a.error is ModuleNotFound == b.error is ModuleNotFound
            &&& a.error is SnapshotFailed == b.error is SnapshotFailed
            &&& a.error is ReadMemoryFailed == b.error is ReadMemoryFailed
            &&& a.error is WriteMemoryFailed == b.error is WriteMemoryFailed
            &&& a.error matches MemoryError::SnapshotFailed(x) ==> (
            b.error matches MemoryError::SnapshotFailed(y) && x@ == y@)
            &&& a.error matches MemoryError::ReadMemoryFailed(x) ==> (
            b.error matches MemoryError::ReadMemoryFailed(y) && x@ == y@)
            &&& a.error matches MemoryError::WriteMemoryFailed(x) ==> (
            b.error matches MemoryError::WriteMemoryFailed(y) && x@ == y@)
        },
        a.address == b.address && a.pointer == b.pointer && {
            ||| a.error is ProcessNotFound && b.error is ProcessNotFound
            ||| a.error is ModuleNotFound && b.error is ModuleNotFound
            ||| a.error matches MemoryError::SnapshotFailed(x) && (
            b.error matches MemoryError::SnapshotFailed(y) && x@ == y@)
            ||| a.error matches MemoryError::ReadMemoryFailed(x) && (
            b.error matches MemoryError::ReadMemoryFailed(y) && x@ == y@)
            ||| a.error matches MemoryError::WriteMemoryFailed(x) && (
            b.error matches MemoryError::WriteMemoryFailed(y) && x@ == y@)
        } ==> a.same(b),
{
}

} // verus!
