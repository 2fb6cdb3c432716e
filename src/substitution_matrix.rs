//! Reference bases and the substitution matrix that ranks, for each reference base, the three
//! bases that can replace it.
use vstd::prelude::*;

use crate::error::Error;

verus! {

/// A reference base that a substitution can apply to.
#[derive(Clone, Copy, Debug, PartialEq, Eq, Structural)]
pub enum Base {
    A,
    C,
    G,
    T,
}

/// The row of a base in the matrix.
pub open spec fn base_index(b: Base) -> int {
    match b {
        Base::A => 0,
        Base::C => 1,
        Base::G => 2,
        Base::T => 3,
    }
}

/// The upper-case letter of a base.
pub open spec fn base_letter(b: Base) -> u8 {
    match b {
        Base::A => 0x41u8,
        Base::C => 0x43u8,
        Base::G => 0x47u8,
        Base::T => 0x54u8,
    }
}

/// The base that a letter of either case names, if any.
pub open spec fn base_of(raw: u8) -> Option<Base> {
    if raw == 0x41 || raw == 0x61 {
        Some(Base::A)
    } else if raw == 0x43 || raw == 0x63 {
        Some(Base::C)
    } else if raw == 0x47 || raw == 0x67 {
        Some(Base::G)
    } else if raw == 0x54 || raw == 0x74 {
        Some(Base::T)
    } else {
        None
    }
}

impl Base {
    /// Reads a base from its letter, in either case.
    pub fn from_u8(raw: u8) -> (r: Option<Base>)
        ensures
            r == base_of(raw),
    {
        if raw == 0x41 || raw == 0x61 {
            Some(Base::A)
        } else if raw == 0x43 || raw == 0x63 {
            Some(Base::C)
        } else if raw == 0x47 || raw == 0x67 {
            Some(Base::G)
        } else if raw == 0x54 || raw == 0x74 {
            Some(Base::T)
        } else {
            None
        }
    }

    /// The upper-case letter of the base.
    pub fn to_u8(self) -> (r: u8)
        ensures
            r == base_letter(self),
    {
        match self {
            Base::A => 0x41,
            Base::C => 0x43,
            Base::G => 0x47,
            Base::T => 0x54,
        }
    }

    fn index(self) -> (r: usize)
        ensures
            r == base_index(self),
    {
        match self {
            Base::A => 0,
            Base::C => 1,
            Base::G => 2,
            Base::T => 3,
        }
    }
}

/// The number of ranked alternates of each reference base.
pub const ALTERNATE_COUNT: usize = 3;

/// For each reference base, the three other bases in rank order: the base of code `c` for
/// reference base `b` is entry `3 * row(b) + c`.
#[derive(Clone, Debug)]
pub struct SubstitutionMatrix {
    substitutions: Vec<Base>,
}

/// A valid matrix: each row holds three distinct bases, none of them the row's own base.
pub open spec fn valid_rows(entries: Seq<Base>) -> bool {
    &&& entries.len() == 12
    &&& forall|i: int| 0 <= i < 12 ==> base_index(#[trigger] entries[i]) != i / 3
    &&& forall|i: int, j: int|
        0 <= i < 12 && 0 <= j < 12 && i != j && i / 3 == j / 3 ==> #[trigger] entries[i]
            != #[trigger] entries[j]
}

impl SubstitutionMatrix {
    /// The entries, row by row.
    pub closed spec fn entries(&self) -> Seq<Base> {
        self.substitutions@
    }

    /// A matrix is valid.
    pub closed spec fn wf(&self) -> bool {
        valid_rows(self.substitutions@)
    }

    /// The base of code `code` for reference base `b`.
    pub open spec fn spec_get(&self, b: Base, code: u8) -> Option<Base> {
        if code < 3 {
            Some(self.entries()[3 * base_index(b) + code])
        } else {
            None
        }
    }

    /// Builds a matrix from its twelve entries, row by row for A, C, G and T; fails when a base
    /// is mapped to itself, a row repeats a base, or the count is wrong.
    pub fn new(substitutions: Vec<Base>) -> (r: Result<SubstitutionMatrix, Error>)
        ensures
            valid_rows(substitutions@) ==> (r matches Ok(m) && m.entries() == substitutions@ && m.wf()),
            !valid_rows(substitutions@) ==> r == Err::<SubstitutionMatrix, Error>(Error::InvalidData),
    {
        if substitutions.len() != 12 {
            return Err(Error::InvalidData);
        }
        let mut i: usize = 0;
        while i < 12
            invariant
                substitutions@.len() == 12,
                i <= 12,
                forall|k: int| 0 <= k < i ==> base_index(#[trigger] substitutions@[k]) != k / 3,
                forall|k: int, l: int|
                    0 <= k < i && 0 <= l < 12 && k != l && k / 3 == l / 3 ==> #[trigger] substitutions@[k]
                        != #[trigger] substitutions@[l],
            decreases 12 - i,
        {
            let b: Base = substitutions[i];
            if b.index() == i / 3 {
                return Err(Error::InvalidData);
            }
            let row: usize = i / 3 * 3;
            let mut j: usize = row;
            while j < row + 3
                invariant
                    substitutions@.len() == 12,
                    i < 12,
                    row == i / 3 * 3,
                    row <= j <= row + 3,
                    b == substitutions@[i as int],
                    forall|l: int| row <= l < j && l != i ==> substitutions@[l] != b,
                decreases row + 3 - j,
            {
                if j != i && substitutions[j] == b {
                    return Err(Error::InvalidData);
                }
                j = j + 1;
            }
            assert forall|l: int| 0 <= l < 12 && i != l && i / 3 == l / 3 implies substitutions@[i as int] != substitutions@[l] by {
                assert(row <= l < row + 3);
            }
            i = i + 1;
        }
        Ok(SubstitutionMatrix { substitutions })
    }

    /// The base of code `code` for reference base `b`; codes above 2 name none.
    pub fn get(&self, b: Base, code: u8) -> (r: Option<Base>)
        requires
            self.wf(),
        ensures
            r == self.spec_get(b, code),
            r matches Some(s) ==> s != b,
    {
        if code < 3 {
            Some(self.substitutions[3 * b.index() + code as usize])
        } else {
            None
        }
    }
}

impl Default for SubstitutionMatrix {
    /// The matrix that ranks the alternates of each base in alphabetical order.
    fn default() -> (r: SubstitutionMatrix)
        ensures
            r.wf(),
            r.entries() == seq![
                Base::C, Base::G, Base::T,
                Base::A, Base::G, Base::T,
                Base::A, Base::C, Base::T,
                Base::A, Base::C, Base::G,
            ],
    {
        let substitutions: Vec<Base> = vec![
            Base::C, Base::G, Base::T,
            Base::A, Base::G, Base::T,
            Base::A, Base::C, Base::T,
            Base::A, Base::C, Base::G,
        ];
        let m = SubstitutionMatrix { substitutions };
        assert(valid_rows(m.substitutions@));
        m
    }
}

} // verus!
