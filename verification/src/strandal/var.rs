//! Wires: single-assignment cells stored as one 64-bit word.

use vstd::prelude::*;

use super::store::Ptr;

verus! {

/// What a wire that has been written holds.
#[derive(Debug, Clone, Copy, PartialEq, Eq, Structural)]
pub enum VarValue {
    /// Forwarded to another wire.
    Var(Ptr),
    /// Bound to the eraser.
    Era,
    /// Bound to the agent in the given slot.
    Cell(Ptr),
}

/// The word that stands for a wire state: a tag in the two top bits and the
/// slot index in the low 32 bits.
pub open spec fn encode(state: Option<VarValue>) -> u64 {
    match state {
        None => 0u64,
        Some(VarValue::Var(ptr)) => (1u64 << 62) | (ptr.0 as u64),
        Some(VarValue::Era) => 2u64 << 62,
        Some(VarValue::Cell(ptr)) => (3u64 << 62) | (ptr.0 as u64),
    }
}

/// The wire state that a word stands for. Every word stands for one.
pub open spec fn decode(word: u64) -> Option<VarValue> {
    let tag = word >> 62;
    let payload = Ptr((word & 0xFFFF_FFFF) as u32);
    if tag == 0 {
        None
    } else if tag == 1 {
        Some(VarValue::Var(payload))
    } else if tag == 2 {
        Some(VarValue::Era)
    } else {
        Some(VarValue::Cell(payload))
    }
}

/// How far a wire state is along `Unset`, `LinkedTo`, `Bound`.
pub open spec fn rank(state: Option<VarValue>) -> nat {
    match state {
        None => 0,
        Some(VarValue::Var(_)) => 1,
        Some(VarValue::Era) => 2,
        Some(VarValue::Cell(_)) => 2,
    }
}

proof fn lemma_tagged(tag: u64, index: u32)
    by (bit_vector)
    requires
        tag < 4,
    ensures
        ((tag << 62) | (index as u64)) >> 62 == tag,
        (((tag << 62) | (index as u64)) & 0xFFFF_FFFF) as u32 == index,
        (tag << 62) >> 62 == tag,
{
}

/// Decoding undoes encoding: the word of a state stands for that state.
pub proof fn lemma_decode_encode(state: Option<VarValue>)
    ensures
        decode(encode(state)) == state,
{
    match state {
        None => {
            assert(0u64 >> 62 == 0) by (bit_vector);
        },
        Some(VarValue::Var(ptr)) => {
            lemma_tagged(1, ptr.0);
        },
        Some(VarValue::Era) => {
            lemma_tagged(2, 0);
        },
        Some(VarValue::Cell(ptr)) => {
            lemma_tagged(3, ptr.0);
        },
    }
}

impl VarValue {
    /// Packs a wire state into its word.
    pub fn to_u64(var_value: Option<VarValue>) -> (word: u64)
        ensures
            word == encode(var_value),
            decode(word) == var_value,
    {
        proof {
            lemma_decode_encode(var_value);
        }
        match var_value {
            None => 0,
            Some(VarValue::Var(ptr)) => (1u64 << 62) | (ptr.as_u32() as u64),
            Some(VarValue::Era) => 2u64 << 62,
            Some(VarValue::Cell(ptr)) => (3u64 << 62) | (ptr.as_u32() as u64),
        }
    }

    /// Unpacks a word. No word is rejected: the two tag bits name one of
    /// the four states.
    pub fn from_u64(value: u64) -> (state: Result<Option<VarValue>, u64>)
        ensures
            state == Ok::<Option<VarValue>, u64>(decode(value)),
    {
        let tag = value >> 62;
        assert(tag < 4) by (bit_vector)
            requires
                tag == value >> 62,
        ;
        if tag == 0 {
            Ok(None)
        } else if tag == 1 {
            Ok(Some(VarValue::Var(Ptr::new((value & 0xFFFF_FFFF) as u32))))
        } else if tag == 2 {
            Ok(Some(VarValue::Era))
        } else {
            Ok(Some(VarValue::Cell(Ptr::new((value & 0xFFFF_FFFF) as u32))))
        }
    }
}

/// A wire. It starts unset; each write swaps in a new state and hands back
/// the one it replaced.
#[derive(Debug, Clone, Copy, PartialEq, Eq, Structural)]
pub struct Var(pub u64);

impl Var {
    /// The state the wire is in.
    pub open spec fn value(self) -> Option<VarValue> {
        decode(self.0)
    }

    /// The wire that holds the given state.
    pub open spec fn holding(state: Option<VarValue>) -> Var {
        Var(encode(state))
    }

    /// A fresh, unset wire.
    pub fn new() -> (var: Var)
        ensures
            var == Var::holding(None),
            var.value().is_none(),
    {
        Var(VarValue::to_u64(None))
    }

    /// Swaps `new_value` in and returns the state that was there before.
    pub fn set(&mut self, new_value: VarValue) -> (prior: Option<VarValue>)
        ensures
            prior == old(self).value(),
            *final(self) == Var::holding(Some(new_value)),
            final(self).value() == Some(new_value),
    {
        let old_value = self.0;
        self.0 = VarValue::to_u64(Some(new_value));
        match VarValue::from_u64(old_value) {
            Ok(prior) => prior,
            Err(_) => None,
        }
    }

    /// Forwards the wire to `var_ptr`.
    pub fn link(&mut self, var_ptr: Ptr) -> (prior: Option<VarValue>)
        ensures
            prior == old(self).value(),
            *final(self) == Var::holding(Some(VarValue::Var(var_ptr))),
            final(self).value() == Some(VarValue::Var(var_ptr)),
    {
        self.set(VarValue::Var(var_ptr))
    }

    /// Binds the wire to the agent at `cell_ptr`.
    pub fn assign_cell(&mut self, cell_ptr: Ptr) -> (prior: Option<VarValue>)
        ensures
            prior == old(self).value(),
            *final(self) == Var::holding(Some(VarValue::Cell(cell_ptr))),
            final(self).value() == Some(VarValue::Cell(cell_ptr)),
    {
        self.set(VarValue::Cell(cell_ptr))
    }

    /// Binds the wire to the eraser.
    pub fn assign_era(&mut self) -> (prior: Option<VarValue>)
        ensures
            prior == old(self).value(),
            *final(self) == Var::holding(Some(VarValue::Era)),
            final(self).value() == Some(VarValue::Era),
    {
        self.set(VarValue::Era)
    }

    /// The state the wire is in; the wire is left as it is.
    pub fn read(&self) -> (state: Option<VarValue>)
        ensures
            state == self.value(),
    {
        match VarValue::from_u64(self.0) {
            Ok(state) => state,
            Err(_) => None,
        }
    }
}

/// One of the two ends of a wire.
#[derive(Debug, Clone, Copy, PartialEq, Eq, Structural)]
pub struct VarUse {
    pub ptr: Ptr,
}

impl VarUse {
    pub fn new(ptr: Ptr) -> (var_use: VarUse)
        ensures
            var_use.ptr == ptr,
    {
        VarUse { ptr }
    }

    /// The slot of the wire this end belongs to.
    pub fn ptr(&self) -> (ptr: Ptr)
        ensures
            ptr == self.ptr,
    {
        self.ptr
    }
}

} // verus!
