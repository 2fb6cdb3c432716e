//! The preservation map of a compression header: what a container keeps, the substitution
//! matrix, and the dictionary of auxiliary tag sets.
use vstd::prelude::*;

use crate::container::{itf8_nonneg_at, read_itf8_nonneg};
use crate::error::Error;
use crate::num::{byte_at, read_u8};
use crate::substitution_matrix::{base_of, valid_rows, Base, SubstitutionMatrix};

verus! {

/// An auxiliary field key: its two-byte tag.
#[derive(Clone, Copy, Debug, PartialEq, Eq, Structural)]
pub struct Key {
    pub first: u8,
    pub second: u8,
}

/// Lists of auxiliary field keys, selected per record by index.
pub type TagIdsDictionary = Vec<Vec<Key>>;

/// The per-container preservation map. It does not change once built.
#[derive(Debug)]
pub struct PreservationMap {
    read_names_included: bool,
    ap_data_series_delta: bool,
    reference_required: bool,
    substitution_matrix: SubstitutionMatrix,
    tag_ids_dictionary: TagIdsDictionary,
}

impl PreservationMap {
    /// Whether read names are kept verbatim.
    pub closed spec fn spec_read_names_included(&self) -> bool {
        self.read_names_included
    }

    /// Whether alignment positions are stored as deltas.
    pub closed spec fn spec_ap_data_series_delta(&self) -> bool {
        self.ap_data_series_delta
    }

    /// Whether decoding needs the reference sequence.
    pub closed spec fn spec_reference_required(&self) -> bool {
        self.reference_required
    }

    /// The substitution matrix.
    pub closed spec fn spec_substitution_matrix(&self) -> SubstitutionMatrix {
        self.substitution_matrix
    }

    /// The tag dictionary.
    pub closed spec fn spec_tag_ids_dictionary(&self) -> Seq<Seq<Key>> {
        self.tag_ids_dictionary@.map_values(|keys: Vec<Key>| keys@)
    }

    /// Builds a preservation map from its parts.
    pub fn new(
        read_names_included: bool,
        ap_data_series_delta: bool,
        reference_required: bool,
        substitution_matrix: SubstitutionMatrix,
        tag_ids_dictionary: TagIdsDictionary,
    ) -> (r: PreservationMap)
        ensures
            r.spec_read_names_included() == read_names_included,
            r.spec_ap_data_series_delta() == ap_data_series_delta,
            r.spec_reference_required() == reference_required,
            r.spec_substitution_matrix() == substitution_matrix,
            r.spec_tag_ids_dictionary() == tag_ids_dictionary@.map_values(|keys: Vec<Key>| keys@),
    {
        PreservationMap {
            read_names_included,
            ap_data_series_delta,
            reference_required,
            substitution_matrix,
            tag_ids_dictionary,
        }
    }

    /// Whether read names are kept verbatim.
    pub fn read_names_included(&self) -> (r: bool)
        ensures
            r == self.spec_read_names_included(),
    {
        self.read_names_included
    }

    /// Whether alignment positions are stored as deltas.
    pub fn ap_data_series_delta(&self) -> (r: bool)
        ensures
            r == self.spec_ap_data_series_delta(),
    {
        self.ap_data_series_delta
    }

    /// Whether decoding needs the reference sequence.
    pub fn reference_required(&self) -> (r: bool)
        ensures
            r == self.spec_reference_required(),
    {
        self.reference_required
    }

    /// The substitution matrix.
    pub fn substitution_matrix(&self) -> (r: &SubstitutionMatrix)
        ensures
            *r == self.spec_substitution_matrix(),
    {
        &self.substitution_matrix
    }

    /// The tag dictionary.
    pub fn tag_ids_dictionary(&self) -> (r: &TagIdsDictionary)
        ensures
            r@.map_values(|keys: Vec<Key>| keys@) == self.spec_tag_ids_dictionary(),
    {
        &self.tag_ids_dictionary
    }
}

/// A flag stored as one byte: 0 or 1.
pub open spec fn flag_at(src: Seq<u8>, pos: int) -> Result<(bool, int), Error> {
    match byte_at(src, pos) {
        Err(e) => Err(e),
        Ok((b, p)) => if b == 0 {
            Ok((false, p))
        } else if b == 1 {
            Ok((true, p))
        } else {
            Err(Error::InvalidData)
        },
    }
}

/// The first `k` matrix entries from `pos` on: upper-case base letters.
pub open spec fn matrix_entries_at(src: Seq<u8>, pos: int, k: nat) -> Result<Seq<Base>, Error>
    decreases k,
{
    if k == 0 {
        Ok(Seq::empty())
    } else {
        match matrix_entries_at(src, pos, (k - 1) as nat) {
            Err(e) => Err(e),
            Ok(bases) => match byte_at(src, pos + k - 1) {
                Err(e) => Err(e),
                Ok((b, _)) => if 0x41 <= b <= 0x5a && base_of(b) is Some {
                    Ok(bases.push(base_of(b).unwrap()))
                } else {
                    Err(Error::InvalidData)
                },
            },
        }
    }
}

/// The first `k` two-byte keys from `pos` on.
pub open spec fn keys_at(src: Seq<u8>, pos: int, k: nat) -> Result<Seq<Key>, Error>
    decreases k,
{
    if k == 0 {
        Ok(Seq::empty())
    } else {
        match keys_at(src, pos, (k - 1) as nat) {
            Err(e) => Err(e),
            Ok(keys) => if 0 <= pos && pos + 2 * k <= src.len() {
                Ok(keys.push(Key { first: src[pos + 2 * k - 2], second: src[pos + 2 * k - 1] }))
            } else {
                Err(Error::UnexpectedEof)
            },
        }
    }
}

/// The first `k` key lists of a tag dictionary from `pos` on: each a count, then its keys.
pub open spec fn dictionary_at(src: Seq<u8>, pos: int, k: nat) -> Result<(Seq<Seq<Key>>, int), Error>
    decreases k,
{
    if k == 0 {
        Ok((Seq::empty(), pos))
    } else {
        match dictionary_at(src, pos, (k - 1) as nat) {
            Err(e) => Err(e),
            Ok((lists, p)) => match itf8_nonneg_at(src, p) {
                Err(e) => Err(e),
                Ok((m, p2)) => match keys_at(src, p2, m as nat) {
                    Err(e) => Err(e),
                    Ok(keys) => Ok((lists.push(keys), p2 + 2 * m)),
                },
            },
        }
    }
}

/// The parts of a preservation map at `pos`, and the position after it: three flags (read
/// names, position deltas, reference required), the twelve matrix entries, then the tag
/// dictionary as a count of key lists.
pub open spec fn preservation_map_at(src: Seq<u8>, pos: int) -> Result<
    (bool, bool, bool, Seq<Base>, Seq<Seq<Key>>, int),
    Error,
> {
    match flag_at(src, pos) {
        Err(e) => Err(e),
        Ok((rn, p1)) => match flag_at(src, p1) {
            Err(e) => Err(e),
            Ok((ap, p2)) => match flag_at(src, p2) {
                Err(e) => Err(e),
                Ok((rr, p3)) => match matrix_entries_at(src, p3, 12) {
                    Err(e) => Err(e),
                    Ok(bases) => if !valid_rows(bases) {
                        Err(Error::InvalidData)
                    } else {
                        match itf8_nonneg_at(src, p3 + 12) {
                            Err(e) => Err(e),
                            Ok((n, p4)) => match dictionary_at(src, p4, n as nat) {
                                Err(e) => Err(e),
                                Ok((dictionary, p5)) => Ok((rn, ap, rr, bases, dictionary, p5)),
                            },
                        }
                    },
                },
            },
        },
    }
}

/// Reads a flag byte.
fn read_flag(src: &[u8], pos: &mut usize) -> (r: Result<bool, Error>)
    ensures
        match flag_at(src@, *old(pos) as int) {
            Ok((b, p)) => r == Ok::<bool, Error>(b) && *final(pos) == p,
            Err(e) => r == Err::<bool, Error>(e),
        },
{
    match read_u8(src, pos) {
        Err(e) => Err(e),
        Ok(0) => Ok(false),
        Ok(1) => Ok(true),
        Ok(_) => Err(Error::InvalidData),
    }
}

/// Reads the twelve matrix entries.
fn read_matrix_entries(src: &[u8], pos: &mut usize) -> (r: Result<Vec<Base>, Error>)
    ensures
        match matrix_entries_at(src@, *old(pos) as int, 12) {
            Ok(bases) => r matches Ok(v) && v@ == bases && *final(pos) == *old(pos) + 12,
            Err(e) => r == Err::<Vec<Base>, Error>(e),
        },
{
    let ghost start: int = *pos as int;
    let mut bases: Vec<Base> = Vec::new();
    let mut k: usize = 0;
    while k < 12
        invariant
            k <= 12,
            start == *old(pos),
            *pos == start + k,
            matrix_entries_at(src@, start, k as nat) == Ok::<Seq<Base>, Error>(bases@),
        decreases 12 - k,
    {
        let b: u8 = match read_u8(src, pos) {
            Ok(b) => b,
            Err(e) => {
                proof {
                    lemma_matrix_entries_failed(src@, start, (k + 1) as nat, 12);
                }
                return Err(e);
            },
        };
        let base: Base = if 0x41 <= b && b <= 0x5a {
            match Base::from_u8(b) {
                Some(base) => base,
                None => {
                    proof {
                        lemma_matrix_entries_failed(src@, start, (k + 1) as nat, 12);
                    }
                    return Err(Error::InvalidData);
                },
            }
        } else {
            proof {
                lemma_matrix_entries_failed(src@, start, (k + 1) as nat, 12);
            }
            return Err(Error::InvalidData);
        };
        bases.push(base);
        k = k + 1;
    }
    Ok(bases)
}

/// Once the matrix entries have failed to read, reading more fails the same way.
proof fn lemma_matrix_entries_failed(src: Seq<u8>, pos: int, k: nat, m: nat)
    requires
        k <= m,
        matrix_entries_at(src, pos, k) is Err,
    ensures
        matrix_entries_at(src, pos, m) == matrix_entries_at(src, pos, k),
    decreases m - k,
{
    if k < m {
        lemma_matrix_entries_failed(src, pos, k, (m - 1) as nat);
    }
}

/// Once the keys have failed to read, reading more fails the same way.
proof fn lemma_keys_failed(src: Seq<u8>, pos: int, k: nat, m: nat)
    requires
        k <= m,
        keys_at(src, pos, k) is Err,
    ensures
        keys_at(src, pos, m) == keys_at(src, pos, k),
    decreases m - k,
{
    if k < m {
        lemma_keys_failed(src, pos, k, (m - 1) as nat);
    }
}

/// Once the dictionary has failed to read, reading more lists fails the same way.
proof fn lemma_dictionary_failed(src: Seq<u8>, pos: int, k: nat, m: nat)
    requires
        k <= m,
        dictionary_at(src, pos, k) is Err,
    ensures
        dictionary_at(src, pos, m) == dictionary_at(src, pos, k),
    decreases m - k,
{
    if k < m {
        lemma_dictionary_failed(src, pos, k, (m - 1) as nat);
    }
}

/// Reads `count` two-byte keys.
fn read_keys(src: &[u8], pos: &mut usize, count: usize) -> (r: Result<Vec<Key>, Error>)
    ensures
        match keys_at(src@, *old(pos) as int, count as nat) {
            Ok(keys) => r matches Ok(v) && v@ == keys && *final(pos) == *old(pos) + 2 * count,
            Err(e) => r == Err::<Vec<Key>, Error>(e),
        },
{
    let ghost start: int = *pos as int;
    let mut keys: Vec<Key> = Vec::new();
    let mut k: usize = 0;
    while k < count
        invariant
            k <= count,
            start == *old(pos),
            *pos == start + 2 * k,
            keys_at(src@, start, k as nat) == Ok::<Seq<Key>, Error>(keys@),
        decreases count - k,
    {
        if src.len() < 2 || *pos > src.len() - 2 {
            proof {
                lemma_keys_failed(src@, start, (k + 1) as nat, count as nat);
            }
            return Err(Error::UnexpectedEof);
        }
        let first: u8 = src[*pos];
        let second: u8 = src[*pos + 1];
        keys.push(Key { first, second });
        *pos = *pos + 2;
        k = k + 1;
    }
    Ok(keys)
}

/// Reads the `count` key lists of a tag dictionary.
fn read_dictionary(src: &[u8], pos: &mut usize, count: usize) -> (r: Result<TagIdsDictionary, Error>)
    ensures
        match dictionary_at(src@, *old(pos) as int, count as nat) {
            Ok((lists, p)) => r matches Ok(v) && v@.map_values(|keys: Vec<Key>| keys@) == lists
                && *final(pos) == p,
            Err(e) => r == Err::<TagIdsDictionary, Error>(e),
        },
{
    let ghost start: int = *pos as int;
    let mut lists: TagIdsDictionary = Vec::new();
    let mut k: usize = 0;
    assert(lists@.map_values(|keys: Vec<Key>| keys@) =~= Seq::<Seq<Key>>::empty());
    while k < count
        invariant
            k <= count,
            start == *old(pos),
            dictionary_at(src@, start, k as nat) == Ok::<(Seq<Seq<Key>>, int), Error>(
                (lists@.map_values(|keys: Vec<Key>| keys@), *pos as int),
            ),
        decreases count - k,
    {
        let m: usize = match read_itf8_nonneg(src, pos) {
            Ok(m) => m,
            Err(e) => {
                proof {
                    lemma_dictionary_failed(src@, start, (k + 1) as nat, count as nat);
                }
                return Err(e);
            },
        };
        let keys: Vec<Key> = match read_keys(src, pos, m) {
            Ok(keys) => keys,
            Err(e) => {
                proof {
                    lemma_dictionary_failed(src@, start, (k + 1) as nat, count as nat);
                }
                return Err(e);
            },
        };
        let ghost before: Seq<Vec<Key>> = lists@;
        lists.push(keys);
        assert(lists@.map_values(|keys: Vec<Key>| keys@) =~= before.map_values(|keys: Vec<Key>| keys@).push(keys@));
        k = k + 1;
    }
    Ok(lists)
}

/// Reads a preservation map: the three flags, the substitution matrix and the tag dictionary.
pub fn read_preservation_map(src: &[u8], pos: &mut usize) -> (r: Result<PreservationMap, Error>)
    ensures
        match preservation_map_at(src@, *old(pos) as int) {
            Ok((rn, ap, rr, bases, dictionary, p)) => r matches Ok(m) && m.spec_read_names_included()
                == rn && m.spec_ap_data_series_delta() == ap && m.spec_reference_required() == rr
                && m.spec_substitution_matrix().entries() == bases && m.spec_substitution_matrix().wf()
                && m.spec_tag_ids_dictionary() == dictionary && *final(pos) == p,
            Err(e) => r == Err::<PreservationMap, Error>(e),
        },
{
    let read_names_included: bool = match read_flag(src, pos) {
        Ok(b) => b,
        Err(e) => return Err(e),
    };
    let ap_data_series_delta: bool = match read_flag(src, pos) {
        Ok(b) => b,
        Err(e) => return Err(e),
    };
    let reference_required: bool = match read_flag(src, pos) {
        Ok(b) => b,
        Err(e) => return Err(e),
    };
    let bases: Vec<Base> = match read_matrix_entries(src, pos) {
        Ok(v) => v,
        Err(e) => return Err(e),
    };
    let substitution_matrix: SubstitutionMatrix = match SubstitutionMatrix::new(bases) {
        Ok(m) => m,
        Err(e) => return Err(e),
    };
    let count: usize = match read_itf8_nonneg(src, pos) {
        Ok(n) => n,
        Err(e) => return Err(e),
    };
    let tag_ids_dictionary: TagIdsDictionary = match read_dictionary(src, pos, count) {
        Ok(d) => d,
        Err(e) => return Err(e),
    };
    Ok(
        PreservationMap::new(
            read_names_included,
            ap_data_series_delta,
            reference_required,
            substitution_matrix,
            tag_ids_dictionary,
        ),
    )
}

} // verus!
