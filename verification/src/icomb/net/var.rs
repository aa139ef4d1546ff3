//! Wires of the two-kind calculus: one 64-bit word that is unset, or names
//! an agent, the eraser or another wire.

use vstd::prelude::*;

use super::cell::CellPtr;
use super::term::Term;
use super::term::TermPtr;
use crate::icomb::store::Ptr;

verus! {

/// The state of a wire: unset, or what it was set to.
#[derive(Copy, Clone, Debug, Eq, PartialEq, Hash)]
pub struct VarValue(pub Option<TermPtr>);

/// A reference to a wire.
#[derive(Copy, Clone, Debug, Eq, PartialEq, Hash)]
pub struct VarPtr(pub Ptr<Var>);

impl VarPtr {
    /// The reference to the wire in the slot of the given index.
    pub open spec fn at(index: u32) -> VarPtr {
        VarPtr(Ptr::at(index))
    }

    /// The reference to the wire in the slot, unless the pointer names no
    /// slot.
    pub fn from_ptr(value: Ptr<Var>) -> (var_ptr: Option<VarPtr>)
        ensures
            var_ptr == if value.index == 0 {
                None
            } else {
                Some(VarPtr(value))
            },
    {
        if value.is_nil() {
            return None;
        } else {
            return Some(VarPtr(value));
        }
    }
}

/// The word of a wire state: bit 63 says that the wire is set, bit 62 that
/// it names a wire, bit 61 that it names the eraser; the low 32 bits hold
/// the index.
pub open spec fn encode(state: VarValue) -> u64 {
    match state.0 {
        None => 0u64,
        Some(TermPtr::CellPtr(CellPtr::Ref(ptr))) => (1u64 << 63) | (ptr.index as u64),
        Some(TermPtr::CellPtr(CellPtr::Era)) => (1u64 << 63) | (1u64 << 61),
        Some(TermPtr::VarPtr(var_ptr)) => (1u64 << 63) | (1u64 << 62) | (var_ptr.0.index as u64),
    }
}

/// The wire state of a word. Every word stands for one.
pub open spec fn decode(word: u64) -> VarValue {
    let index = (word & 0xFFFF_FFFF) as u32;
    if word >> 63 == 0 {
        VarValue(None)
    } else if (word >> 62) & 1 == 0 {
        if (word >> 61) & 1 == 0 {
            VarValue(Some(TermPtr::CellPtr(CellPtr::at(index))))
        } else {
            VarValue(Some(TermPtr::CellPtr(CellPtr::Era)))
        }
    } else {
        VarValue(Some(TermPtr::VarPtr(VarPtr::at(index))))
    }
}

proof fn lemma_words(index: u32)
    by (bit_vector)
    ensures
        0u64 >> 63 == 0,
        ((1u64 << 63) | (index as u64)) >> 63 == 1,
        (((1u64 << 63) | (index as u64)) >> 62) & 1 == 0,
        (((1u64 << 63) | (index as u64)) >> 61) & 1 == 0,
        (((1u64 << 63) | (index as u64)) & 0xFFFF_FFFF) as u32 == index,
        ((1u64 << 63) | (1u64 << 61)) >> 63 == 1,
        (((1u64 << 63) | (1u64 << 61)) >> 62) & 1 == 0,
        (((1u64 << 63) | (1u64 << 61)) >> 61) & 1 == 1,
        ((1u64 << 63) | (1u64 << 62) | (index as u64)) >> 63 == 1,
        (((1u64 << 63) | (1u64 << 62) | (index as u64)) >> 62) & 1 == 1,
        (((1u64 << 63) | (1u64 << 62) | (index as u64)) & 0xFFFF_FFFF) as u32 == index,
{
}

/// Decoding undoes encoding: the word of a state stands for that state.
pub proof fn lemma_decode_encode(state: VarValue)
    ensures
        decode(encode(state)) == state,
{
    match state.0 {
        None => {
            lemma_words(0);
        },
        Some(TermPtr::CellPtr(CellPtr::Ref(ptr))) => {
            lemma_words(ptr.index);
        },
        Some(TermPtr::CellPtr(CellPtr::Era)) => {
            lemma_words(0);
        },
        Some(TermPtr::VarPtr(var_ptr)) => {
            lemma_words(var_ptr.0.index);
        },
    }
}

impl From<VarValue> for u64 {
    fn from(maybe_term_ptr: VarValue) -> (word: u64) {
        match maybe_term_ptr.0 {
            None => {
                return 0;
            },
            Some(term_ptr) => {
                let value: u64 = 1u64 << 63;
                match term_ptr {
                    TermPtr::CellPtr(cell_ptr) => {
                        match cell_ptr {
                            CellPtr::Ref(ptr) => {
                                return value | (ptr.get_index() as u64);
                            },
                            CellPtr::Era => {
                                return value | (1u64 << 61);
                            },
                        }
                    },
                    TermPtr::VarPtr(var_ptr) => {
                        return value | (1u64 << 62) | (var_ptr.0.get_index() as u64);
                    },
                }
            },
        }
    }
}

impl vstd::std_specs::convert::FromSpecImpl<VarValue> for u64 {
    open spec fn obeys_from_spec() -> bool {
        true
    }

    open spec fn from_spec(state: VarValue) -> u64 {
        encode(state)
    }
}

impl TryFrom<u64> for VarValue {
    type Error = u64;

    fn try_from(value: u64) -> (state: Result<Self, Self::Error>) {
        let index = (value & 0xFFFF_FFFF) as u32;
        if value >> 63 == 0 {
            Ok(VarValue(None))
        } else {
            // set
            if (value >> 62) & 1 == 0 {
                // to an agent
                if (value >> 61) & 1 == 0 {
                    Ok(VarValue(Some(TermPtr::CellPtr(CellPtr::Ref(Ptr::at_index(index))))))
                } else {
                    Ok(VarValue(Some(TermPtr::CellPtr(CellPtr::Era))))
                }
            } else {
                // to a wire
                Ok(VarValue(Some(TermPtr::VarPtr(VarPtr(Ptr::at_index(index))))))
            }
        }
    }
}

impl vstd::std_specs::convert::TryFromSpecImpl<u64> for VarValue {
    open spec fn obeys_try_from_spec() -> bool {
        true
    }

    open spec fn try_from_spec(word: u64) -> Result<Self, Self::Error> {
        Ok(decode(word))
    }
}

/// A wire: unset at first, then set by swaps that hand back what was there.
#[derive(Copy, Clone, Debug, PartialEq, Eq, Hash)]
pub struct Var {
    pub value: u64,
}

impl Var {
    /// The state the wire is in.
    pub open spec fn state(self) -> Option<TermPtr> {
        decode(self.value).0
    }

    /// The wire that holds the given state.
    pub open spec fn holding(state: Option<TermPtr>) -> Var {
        Var { value: encode(VarValue(state)) }
    }

    /// A fresh, unset wire.
    pub fn new() -> (var: Var)
        ensures
            var == Var::holding(None),
            var.state().is_none(),
    {
        proof {
            lemma_decode_encode(VarValue(None));
        }
        Var { value: 0 }
    }

    /// Swaps `term_ptr` in and returns what the wire was set to before.
    pub fn set(&mut self, term_ptr: TermPtr) -> (prior: Option<TermPtr>)
        ensures
            prior == old(self).state(),
            *final(self) == Var::holding(Some(term_ptr)),
            final(self).state() == Some(term_ptr),
    {
        proof {
            lemma_decode_encode(VarValue(Some(term_ptr)));
        }
        let old_var_value = self.value;
        self.value = u64::from(VarValue(Some(term_ptr)));
        match VarValue::try_from(old_var_value) {
            Ok(state) => state.0,
            Err(_) => None,
        }
    }

    /// What the wire is set to; the wire is left as it is.
    pub fn read(&self) -> (state: Option<TermPtr>)
        ensures
            state == self.state(),
    {
        match VarValue::try_from(self.value) {
            Ok(state) => state.0,
            Err(_) => None,
        }
    }

    /// The wire, if the term is one; the term itself if not.
    pub fn try_from_term(value: Term) -> (var: Result<Var, Term>)
        ensures
            match value {
                Term::Var(v) => var == Ok::<Var, Term>(v),
                Term::Cell(_) => var == Err::<Var, Term>(value),
            },
    {
        match value {
            Term::Var(var) => Ok(var),
            _ => Err(value),
        }
    }
}

} // verus!
