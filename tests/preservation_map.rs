use cram::error::Error;
use cram::preservation_map::{read_preservation_map, Key, PreservationMap};
use cram::substitution_matrix::{Base, SubstitutionMatrix};

fn key(tag: &[u8; 2]) -> Key {
    Key { first: tag[0], second: tag[1] }
}

#[test]
fn preservation_map_from_its_parts() {
    let map = PreservationMap::new(true, false, true, SubstitutionMatrix::default(), vec![vec![key(b"NM")]]);
    assert!(map.read_names_included());
    assert!(!map.ap_data_series_delta());
    assert!(map.reference_required());
    assert_eq!(map.substitution_matrix().get(Base::G, 1), Some(Base::C));
    assert_eq!(map.tag_ids_dictionary(), &vec![vec![key(b"NM")]]);
}

#[test]
fn preservation_map_from_bytes() {
    let mut src = vec![1, 0, 1];
    src.extend_from_slice(b"CGTAGTACTACG");
    src.extend_from_slice(&[2, 1, b'N', b'M', 2, b'R', b'G', b'X', b'1']);
    let mut pos = 0;
    let map = read_preservation_map(&src, &mut pos).unwrap();
    assert_eq!(pos, src.len());
    assert!(map.read_names_included());
    assert!(!map.ap_data_series_delta());
    assert!(map.reference_required());
    assert_eq!(map.substitution_matrix().get(Base::A, 0), Some(Base::C));
    assert_eq!(map.substitution_matrix().get(Base::T, 2), Some(Base::G));
    assert_eq!(
        map.tag_ids_dictionary(),
        &vec![vec![key(b"NM")], vec![key(b"RG"), key(b"X1")]]
    );
}

#[test]
fn preservation_map_errors() {
    // a flag that is neither 0 nor 1
    let mut pos = 0;
    assert!(matches!(read_preservation_map(&[2, 0, 0], &mut pos), Err(Error::InvalidData)));

    // a base mapped to itself
    let mut src = vec![0, 0, 0];
    src.extend_from_slice(b"AGTAGTACTACG");
    src.push(0);
    let mut pos = 0;
    assert!(matches!(read_preservation_map(&src, &mut pos), Err(Error::InvalidData)));

    // a matrix entry that is no base
    let mut src = vec![0, 0, 0];
    src.extend_from_slice(b"CGTAGTACTACN");
    src.push(0);
    let mut pos = 0;
    assert!(matches!(read_preservation_map(&src, &mut pos), Err(Error::InvalidData)));

    // a key list cut short
    let mut src = vec![0, 0, 0];
    src.extend_from_slice(b"CGTAGTACTACG");
    src.extend_from_slice(&[1, 2, b'N', b'M', b'X']);
    let mut pos = 0;
    assert!(matches!(read_preservation_map(&src, &mut pos), Err(Error::UnexpectedEof)));
}
