use cram::error::Error;
use cram::query::{
    intersects, resolve_reference_sequence, Action, Chunk, Interval, Query, RecordLocation, State,
};

fn placed(start: usize, end: usize) -> Option<RecordLocation> {
    Some(RecordLocation::Placed { reference_sequence_id: 0, start, end })
}

#[test]
fn query_yields_only_records_in_the_interval() {
    let chunks = vec![Chunk { start: 0, end: 50 }, Chunk { start: 100, end: 150 }];
    let mut query = Query::new(chunks, 0, Interval { start: 10, end: 20 });

    assert_eq!(query.next_action(), Action::Seek(0));
    assert_eq!(query.state(), State::Read(50));
    assert_eq!(query.next_action(), Action::ReadRecord);

    // decoded within the first chunk, but outside the interval
    assert!(!query.record_read(placed(5, 8), 30));
    assert_eq!(query.state(), State::Read(50));

    assert!(query.record_read(placed(15, 18), 45));

    // the stream has passed the chunk's end: the record still counts, then the next chunk
    assert!(query.record_read(placed(12, 30), 60));
    assert_eq!(query.state(), State::Seek);

    assert_eq!(query.next_action(), Action::Seek(100));
    assert!(!query.record_read(None, 100));
    assert_eq!(query.state(), State::Seek);

    assert_eq!(query.next_action(), Action::Done);
    assert_eq!(query.next_action(), Action::Done);
}

#[test]
fn query_without_chunks_is_done() {
    let mut query = Query::new(Vec::new(), 1, Interval { start: 0, end: 10 });
    assert_eq!(query.next_action(), Action::Done);
    assert_eq!(query.state(), State::Done);
}

#[test]
fn intersection_needs_the_same_reference_and_an_overlap() {
    let interval = Interval { start: 10, end: 20 };
    assert!(intersects(RecordLocation::Placed { reference_sequence_id: 0, start: 19, end: 25 }, 0, interval));
    assert!(!intersects(RecordLocation::Placed { reference_sequence_id: 0, start: 20, end: 25 }, 0, interval));
    assert!(!intersects(RecordLocation::Placed { reference_sequence_id: 0, start: 5, end: 10 }, 0, interval));
    assert!(!intersects(RecordLocation::Placed { reference_sequence_id: 1, start: 15, end: 18 }, 0, interval));
    assert!(!intersects(RecordLocation::Unplaced, 0, interval));
}

#[test]
fn reference_sequence_names_resolve_to_their_index() {
    let names = vec![b"sq0".to_vec(), b"sq1".to_vec(), b"sq1".to_vec()];
    assert_eq!(resolve_reference_sequence(&names, b"sq0"), Ok(0));
    assert_eq!(resolve_reference_sequence(&names, b"sq1"), Ok(1));
    assert_eq!(resolve_reference_sequence(&names, b"sq2"), Err(Error::InvalidInput));
    assert_eq!(resolve_reference_sequence(&Vec::new(), b"sq0"), Err(Error::InvalidInput));
}

#[test]
fn a_failed_query_ends() {
    let chunks = vec![Chunk { start: 0, end: 50 }, Chunk { start: 100, end: 150 }];
    let mut query = Query::new(chunks, 0, Interval { start: 10, end: 20 });
    assert_eq!(query.next_action(), Action::Seek(0));
    // the seek failed
    query.fail();
    assert_eq!(query.state(), State::Done);
    assert_eq!(query.next_action(), Action::Done);
}
