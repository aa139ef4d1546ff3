//! The calculus with two kinds of binary agent, constructors and
//! duplicators, and equations that are classified when they are built.
//!
//! The heap and the pointers of this module are the plain form of the
//! arena, in which a reference to an agent says of which kind the agent is.

pub mod display;
pub mod heap;
pub mod laws;
pub mod machine;
pub mod net;
pub mod runtime;
pub mod store;

use vstd::prelude::*;

use self::heap::Ptr;

verus! {

/// A reference to a term of a heap.
#[derive(Copy, Clone, Debug, Eq, PartialEq, Hash)]
pub enum TermPtr {
    CellPtr(CellPtr),
    VarPtr(VarPtr),
}

/// A reference to an agent of a heap: the unboxed eraser, or the slot of a
/// constructor or of a duplicator.
#[derive(Copy, Clone, Debug, Eq, PartialEq, Hash)]
pub enum CellPtr {
    Era,
    CtrPtr(Ptr),
    DupPtr(Ptr),
}

/// A reference to a wire of a heap.
#[derive(Copy, Clone, Debug, Eq, PartialEq, Hash)]
pub struct VarPtr(pub Ptr);

/// One end of a wire of a heap.
pub struct Port {
    pub ptr: VarPtr,
}

/// What can stand where a term reference of a heap is expected.
pub trait IntoTermPtr: Sized {
    /// The term reference that the value stands for.
    spec fn term_ptr(self) -> TermPtr;

    fn into_term_ptr(self) -> (term_ptr: TermPtr)
        ensures
            term_ptr == self.term_ptr(),
    ;
}

impl IntoTermPtr for TermPtr {
    open spec fn term_ptr(self) -> TermPtr {
        self
    }

    fn into_term_ptr(self) -> (term_ptr: TermPtr) {
        self
    }
}

impl IntoTermPtr for CellPtr {
    open spec fn term_ptr(self) -> TermPtr {
        TermPtr::CellPtr(self)
    }

    fn into_term_ptr(self) -> (term_ptr: TermPtr) {
        TermPtr::CellPtr(self)
    }
}

impl IntoTermPtr for VarPtr {
    open spec fn term_ptr(self) -> TermPtr {
        TermPtr::VarPtr(self)
    }

    fn into_term_ptr(self) -> (term_ptr: TermPtr) {
        TermPtr::VarPtr(self)
    }
}

impl IntoTermPtr for Port {
    open spec fn term_ptr(self) -> TermPtr {
        TermPtr::VarPtr(self.ptr)
    }

    fn into_term_ptr(self) -> (term_ptr: TermPtr) {
        TermPtr::VarPtr(self.ptr)
    }
}

impl From<CellPtr> for TermPtr {
    fn from(value: CellPtr) -> (term_ptr: TermPtr) {
        TermPtr::CellPtr(value)
    }
}

impl vstd::std_specs::convert::FromSpecImpl<CellPtr> for TermPtr {
    open spec fn obeys_from_spec() -> bool {
        true
    }

    open spec fn from_spec(value: CellPtr) -> TermPtr {
        TermPtr::CellPtr(value)
    }
}

impl From<VarPtr> for TermPtr {
    fn from(value: VarPtr) -> (term_ptr: TermPtr) {
        TermPtr::VarPtr(value)
    }
}

impl vstd::std_specs::convert::FromSpecImpl<VarPtr> for TermPtr {
    open spec fn obeys_from_spec() -> bool {
        true
    }

    open spec fn from_spec(value: VarPtr) -> TermPtr {
        TermPtr::VarPtr(value)
    }
}

impl From<Port> for TermPtr {
    fn from(value: Port) -> (term_ptr: TermPtr) {
        TermPtr::VarPtr(value.ptr)
    }
}

impl vstd::std_specs::convert::FromSpecImpl<Port> for TermPtr {
    open spec fn obeys_from_spec() -> bool {
        true
    }

    open spec fn from_spec(value: Port) -> TermPtr {
        TermPtr::VarPtr(value.ptr)
    }
}

/// The word of a reference to an agent: the index shifted by one bit with
/// the kind in the lowest bit, and for the eraser a word that no index
/// gives.
pub open spec fn encode(cell_ptr: CellPtr) -> u64 {
    match cell_ptr {
        CellPtr::CtrPtr(ptr) => (ptr.index as u64) << 1,
        CellPtr::DupPtr(ptr) => ((ptr.index as u64) << 1) | 1,
        CellPtr::Era => ERA_WORD,
    }
}

/// The word of the eraser.
pub const ERA_WORD: u64 = 0xFFFF_FFFF_FFFF_FFFE;

/// The word of a wire that is unset.
pub const UNSET_WORD: u64 = 0xFFFF_FFFF_FFFF_FFFF;

/// The reference to an agent that a word stands for, if it stands for one.
pub open spec fn decode(word: u64) -> Result<CellPtr, u64> {
    if word == ERA_WORD {
        Ok(CellPtr::Era)
    } else if word >> 33 != 0 {
        Err(word)
    } else if word & 1 == 1 {
        Ok(CellPtr::DupPtr(Ptr { index: (word >> 1) as u32 }))
    } else {
        Ok(CellPtr::CtrPtr(Ptr { index: (word >> 1) as u32 }))
    }
}

proof fn lemma_words(index: u32)
    by (bit_vector)
    ensures
        ((index as u64) << 1) >> 33 == 0,
        (((index as u64) << 1) | 1) >> 33 == 0,
        ((index as u64) << 1) & 1 == 0,
        (((index as u64) << 1) | 1) & 1 == 1,
        (((index as u64) << 1) >> 1) as u32 == index,
        ((((index as u64) << 1) | 1) >> 1) as u32 == index,
        (index as u64) << 1 != 0xFFFF_FFFF_FFFF_FFFEu64,
        ((index as u64) << 1) | 1 != 0xFFFF_FFFF_FFFF_FFFEu64,
        (index as u64) << 1 != 0xFFFF_FFFF_FFFF_FFFFu64,
        ((index as u64) << 1) | 1 != 0xFFFF_FFFF_FFFF_FFFFu64,
{
}

/// Decoding undoes encoding, and no reference has the word of an unset
/// wire.
pub proof fn lemma_decode_encode(cell_ptr: CellPtr)
    ensures
        decode(encode(cell_ptr)) == Ok::<CellPtr, u64>(cell_ptr),
        encode(cell_ptr) != UNSET_WORD,
{
    match cell_ptr {
        CellPtr::CtrPtr(ptr) => {
            lemma_words(ptr.index);
        },
        CellPtr::DupPtr(ptr) => {
            lemma_words(ptr.index);
        },
        CellPtr::Era => {},
    }
}

impl From<CellPtr> for u64 {
    fn from(value: CellPtr) -> (word: u64) {
        match value {
            CellPtr::CtrPtr(ptr) => (ptr.index as u64) << 1,
            CellPtr::DupPtr(ptr) => ((ptr.index as u64) << 1) | 1,
            CellPtr::Era => ERA_WORD,
        }
    }
}

impl vstd::std_specs::convert::FromSpecImpl<CellPtr> for u64 {
    open spec fn obeys_from_spec() -> bool {
        true
    }

    open spec fn from_spec(value: CellPtr) -> u64 {
        encode(value)
    }
}

impl TryFrom<u64> for CellPtr {
    type Error = u64;

    fn try_from(value: u64) -> (cell_ptr: Result<Self, Self::Error>) {
        if value == ERA_WORD {
            return Ok(CellPtr::Era);
        }
        if value >> 33 != 0 {
            return Err(value);
        }
        let index = value >> 1;
        let is_dup = value & 1 == 1;
        if is_dup {
            Ok(CellPtr::DupPtr(Ptr { index: index as u32 }))
        } else {
            Ok(CellPtr::CtrPtr(Ptr { index: index as u32 }))
        }
    }
}

impl vstd::std_specs::convert::TryFromSpecImpl<u64> for CellPtr {
    open spec fn obeys_try_from_spec() -> bool {
        true
    }

    open spec fn try_from_spec(word: u64) -> Result<Self, Self::Error> {
        decode(word)
    }
}

} // verus!
