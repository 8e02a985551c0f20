//! Block-request priorities, totally ordered from least to most urgent.

use vstd::prelude::*;

use crate::bigend::{be_bytes, be_val, lemma_be_bytes_len, lemma_be_roundtrip, lemma_be_val_bound,
    lemma_pow256_table, read_be, write_be};
use crate::buffer::{Reader, Writer};
use crate::error::Error;
use crate::serial::Serializable;
use crate::util;
use core::cmp::Ordering;
use vstd::std_specs::cmp::PartialOrdSpec;

verus! {

/// How urgently a block is wanted.
#[derive(Clone, Copy, Debug, PartialEq, Eq, Structural, Hash)]
pub enum Priority {
    Least,
    Low,
    Medium,
    High,
}

/// The wire code of a priority; the codes carry the ordering.
pub open spec fn priority_code(m: Priority) -> nat {
    match m {
        Priority::Least => 0,
        Priority::Low => 1,
        Priority::Medium => 2,
        Priority::High => 3,
    }
}

/// The priority a wire code names, if any.
pub open spec fn priority_from_code(code: nat) -> Option<Priority> {
    if code == 0 {
        Some(Priority::Least)
    } else if code == 1 {
        Some(Priority::Low)
    } else if code == 2 {
        Some(Priority::Medium)
    } else if code == 3 {
        Some(Priority::High)
    } else {
        None
    }
}

impl DeepView for Priority {
    type V = Priority;

    open spec fn deep_view(&self) -> Priority {
        *self
    }
}

impl Priority {
    /// The priority a wire code names; unknown codes are a wire error.
    pub fn from_code(code: u8) -> (r: Result<Self, Error>)
        ensures
            match r {
                Ok(p) => priority_from_code(code as nat) == Some(p),
                Err(_) => priority_from_code(code as nat) is None,
            },
    {
        if code == 0 {
            Ok(Priority::Least)
        } else if code == 1 {
            Ok(Priority::Low)
        } else if code == 2 {
            Ok(Priority::Medium)
        } else if code == 3 {
            Ok(Priority::High)
        } else {
            Err(Error)
        }
    }

    /// This priority's wire code.
    pub fn code(self) -> (r: u8)
        ensures
            r as nat == priority_code(self),
    {
        match self {
            Priority::Least => 0,
            Priority::Low => 1,
            Priority::Medium => 2,
            Priority::High => 3,
        }
    }

    /// This priority's display name.
    pub fn name(self) -> &'static str {
        match self {
            Priority::Least => "Least",
            Priority::Low => "Low",
            Priority::Medium => "Medium",
            Priority::High => "High",
        }
    }
}

impl PartialOrd for Priority {
    /// Priorities compare by their codes.
    fn partial_cmp(&self, other: &Self) -> (r: Option<Ordering>) {
        let a = self.code();
        let b = other.code();
        if a < b {
            Some(Ordering::Less)
        } else if a == b {
            Some(Ordering::Equal)
        } else {
            Some(Ordering::Greater)
        }
    }
}

impl vstd::std_specs::cmp::PartialOrdSpecImpl for Priority {
    open spec fn obeys_partial_cmp_spec() -> bool {
        true
    }

    open spec fn partial_cmp_spec(&self, other: &Self) -> Option<Ordering> {
        if priority_code(*self) < priority_code(*other) {
            Some(Ordering::Less)
        } else if priority_code(*self) == priority_code(*other) {
            Some(Ordering::Equal)
        } else {
            Some(Ordering::Greater)
        }
    }
}

/// Priorities are totally ordered by urgency: least, low, medium, high. Two
/// priorities compare less-than exactly when their codes do, so the chain
/// `Least < Low < Medium < High` holds.
pub proof fn lemma_priority_order(a: Priority, b: Priority)
    ensures
        a.partial_cmp_spec(&b) == Some(Ordering::Less) <==> priority_code(a) < priority_code(b),
        Priority::Least.partial_cmp_spec(&Priority::Low) == Some(Ordering::Less),
        Priority::Low.partial_cmp_spec(&Priority::Medium) == Some(Ordering::Less),
        Priority::Medium.partial_cmp_spec(&Priority::High) == Some(Ordering::Less),
{
}

impl Serializable for Priority {
    open spec fn encodable(m: Priority) -> bool {
        true
    }

    open spec fn encode(m: Priority) -> Seq<u8> {
        be_bytes(priority_code(m), 1)
    }

    open spec fn decode(input: Seq<u8>) -> Option<(Priority, int)> {
        if input.len() >= 1 {
            match priority_from_code(be_val(input.take(1))) {
                Some(p) => Some((p, 1)),
                None => None,
            }
        } else {
            None
        }
    }

    open spec fn scan(input: Seq<u8>) -> Option<int> {
        if input.len() >= 1 {
            Some(1)
        } else {
            None
        }
    }

    proof fn lemma_encode_decode(m: Priority, rest: Seq<u8>) {
        lemma_pow256_table();
        lemma_be_bytes_len(priority_code(m), 1);
        lemma_be_roundtrip(priority_code(m), 1);
        assert((Self::encode(m) + rest).take(1) =~= Self::encode(m));
    }

    proof fn lemma_decode_sound(input: Seq<u8>) {
        if input.len() >= 1 {
            if let Some(p) = priority_from_code(be_val(input.take(1))) {
                lemma_be_bytes_len(priority_code(p), 1);
            }
        }
    }

    proof fn lemma_scan_sound(input: Seq<u8>) {
    }

    fn wire_size(&self) -> (n: usize) {
        proof {
            lemma_be_bytes_len(priority_code(*self), 1);
        }
        1
    }

    fn wire_write(&self, out: &mut Writer) {
        let code = self.code();
        write_be(out, code as u128, 1);
    }

    fn wire_read(input: &mut Reader) -> (r: Result<Self, Error>) {
        let n = input.remaining_len();
        if n < 1 {
            return Err(Error);
        }
        let ghost rem0 = input.remaining_spec();
        let code = read_be(input, 1);
        proof {
            lemma_be_val_bound(rem0.take(1));
            lemma_pow256_table();
        }
        Priority::from_code(code as u8)
    }

    fn wire_skip(input: &mut Reader) -> (r: Result<(), Error>) {
        util::fixed_skip(input, 1)
    }
}

} // verus!
