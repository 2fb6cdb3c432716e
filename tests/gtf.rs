use cram::gtf::{write_reference_sequence_name, ParseError, Strand};

#[test]
fn test_write_reference_sequence_name() {
    let mut buf = Vec::new();
    write_reference_sequence_name(&mut buf, "sq0");
    assert_eq!(buf, b"sq0");
}

#[test]
fn strand_test_from_str() -> Result<(), ParseError> {
    assert_eq!("+".parse::<Strand>()?, Strand::Forward);
    assert_eq!("-".parse::<Strand>()?, Strand::Reverse);

    assert_eq!("".parse::<Strand>(), Err(ParseError::Empty));
    assert_eq!(
        "!".parse::<Strand>(),
        Err(ParseError::Invalid(String::from("!")))
    );

    Ok(())
}

#[test]
fn write_reference_sequence_name_appends() {
    let mut buf = b"chr".to_vec();
    write_reference_sequence_name(&mut buf, "1\t");
    assert_eq!(buf, b"chr1\t");
}
