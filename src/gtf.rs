//! Fields of GTF annotation lines: the strand and the reference sequence name.
use vstd::prelude::*;
use vstd::string::StringSliceAdditionalSpecFns;

verus! {

/// A record's strand.
#[derive(Clone, Copy, Debug, Eq, PartialEq)]
pub enum Strand {
    /// Forward strand (`+`).
    Forward,
    /// Reverse strand (`-`).
    Reverse,
}

/// Why text is not a strand.
#[derive(Clone, Debug, Eq, PartialEq)]
pub enum ParseError {
    /// The input is empty.
    Empty,
    /// The input is neither `+` nor `-`.
    Invalid(String),
}

impl Strand {
    /// Reads a strand: `+` is forward, `-` reverse.
    pub fn parse(s: &str) -> (r: Result<Strand, ParseError>)
        ensures
            s.spec_bytes() == seq![0x2bu8] ==> r == Ok::<Strand, ParseError>(Strand::Forward),
            s.spec_bytes() == seq![0x2du8] ==> r == Ok::<Strand, ParseError>(Strand::Reverse),
            s.spec_bytes().len() == 0 ==> r == Err::<Strand, ParseError>(ParseError::Empty),
            s.spec_bytes().len() != 0 && s.spec_bytes() != seq![0x2bu8] && s.spec_bytes() != seq![0x2du8]
                ==> (r matches Err(ParseError::Invalid(t)) && t@ == s@),
    {
        let b: &[u8] = s.as_bytes();
        if b.len() == 0 {
            Err(ParseError::Empty)
        } else if b.len() == 1 && b[0] == 0x2b {
            assert(b@ =~= seq![0x2bu8]);
            Ok(Strand::Forward)
        } else if b.len() == 1 && b[0] == 0x2d {
            assert(b@ =~= seq![0x2du8]);
            Ok(Strand::Reverse)
        } else {
            proof {
                if b@.len() == 1 {
                    assert(b@ != seq![0x2bu8] && b@ != seq![0x2du8]) by {
                        assert(b@[0] != 0x2b && b@[0] != 0x2d);
                    }
                }
            }
            Err(ParseError::Invalid(s.to_owned()))
        }
    }
}

impl core::str::FromStr for Strand {
    type Err = ParseError;

    fn from_str(s: &str) -> Result<Strand, ParseError> {
        Strand::parse(s)
    }
}

/// Writes a reference sequence name: its bytes, as they are.
pub fn write_reference_sequence_name(buf: &mut Vec<u8>, reference_sequence_name: &str)
    ensures
        final(buf)@ == old(buf)@ + reference_sequence_name.spec_bytes(),
{
    let b: &[u8] = reference_sequence_name.as_bytes();
    let mut i: usize = 0;
    while i < b.len()
        invariant
            i <= b@.len(),
            b@ == reference_sequence_name.spec_bytes(),
            buf@ == old(buf)@ + b@.subrange(0, i as int),
        decreases b@.len() - i,
    {
        buf.push(b[i]);
        assert(b@.subrange(0, i + 1) =~= b@.subrange(0, i as int).push(b@[i as int]));
        i = i + 1;
    }
    assert(b@.subrange(0, b@.len() as int) =~= b@);
}

} // verus!
