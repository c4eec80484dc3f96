use voice_relay::jitter::JitterBuffer;
use voice_relay::jitter::JitterBufferEntry;

fn entry(sequence_number: u32, timestamp: u64, received_at: u64) -> JitterBufferEntry {
    JitterBufferEntry {
        sequence_number,
        timestamp,
        payload: vec![sequence_number as u8],
        received_at,
    }
}

fn sequences(buffer: &JitterBuffer) -> Vec<u32> {
    buffer.entries.iter().map(|e| e.sequence_number).collect()
}

#[test]
fn entries_stand_in_order_of_sequence() {
    let mut buffer = JitterBuffer::new(20, 400);
    assert!(buffer.is_empty());
    assert_eq!(buffer.len(), 0);
    for seq in [5, 2, 9, 1, 7] {
        assert!(buffer.insert(entry(seq, seq as u64 * 20, 0)));
    }
    assert_eq!(sequences(&buffer), vec![1, 2, 5, 7, 9]);
    assert_eq!(buffer.len(), 5);
    assert!(!buffer.is_empty());
    assert_eq!(buffer.last_played_sequence, 0);
}

#[test]
fn duplicates_and_stale_entries_are_rejected() {
    let mut buffer = JitterBuffer::new(20, 400);
    assert!(buffer.insert(entry(1, 20, 0)));
    assert!(!buffer.insert(entry(1, 20, 0)));
    assert!(!buffer.insert(entry(0, 20, 0)));
    assert_eq!(buffer.pop_next().unwrap().sequence_number, 1);
    assert!(!buffer.insert(entry(1, 20, 0)));
    assert!(buffer.insert(entry(2, 40, 0)));
    assert_eq!(sequences(&buffer), vec![2]);
}

#[test]
fn pop_is_strictly_in_order() {
    let mut buffer = JitterBuffer::new(20, 400);
    for seq in [1, 3, 2, 4] {
        assert!(buffer.insert(entry(seq, seq as u64 * 20, 0)));
    }
    let mut played = Vec::new();
    while let Some(e) = buffer.pop_next() {
        assert_eq!(buffer.last_played_sequence, e.sequence_number);
        played.push(e.sequence_number);
    }
    assert_eq!(played, vec![1, 2, 3, 4]);
    assert!(buffer.is_empty());
    assert_eq!(buffer.last_played_sequence, 4);
}

#[test]
fn a_gap_stalls_the_buffer() {
    let mut buffer = JitterBuffer::new(20, 400);
    assert!(buffer.insert(entry(1, 20, 0)));
    assert!(buffer.insert(entry(2, 40, 20)));
    assert!(buffer.insert(entry(4, 80, 60)));
    assert_eq!(buffer.pop_next().unwrap().sequence_number, 1);
    assert_eq!(buffer.pop_next().unwrap().sequence_number, 2);
    assert!(buffer.pop_next().is_none());
    assert_eq!(buffer.last_played_sequence, 2);
    assert_eq!(sequences(&buffer), vec![4]);

    buffer.cleanup(400, 460);
    assert_eq!(sequences(&buffer), vec![4]);
    buffer.cleanup(400, 461);
    assert!(buffer.is_empty());
    assert_eq!(buffer.last_played_sequence, 2);
    assert!(buffer.insert(entry(3, 60, 470)));
    assert_eq!(buffer.pop_next().unwrap().sequence_number, 3);
}

#[test]
fn a_full_buffer_rejects_what_is_older_than_the_window() {
    let mut buffer = JitterBuffer::new(3, 400);
    assert!(buffer.insert(entry(1, 1000, 0)));
    assert!(buffer.insert(entry(2, 1020, 0)));
    assert!(buffer.insert(entry(3, 1040, 0)));
    assert!(!buffer.insert(entry(4, 1399, 0)));
    assert_eq!(buffer.len(), 3);
    assert!(buffer.insert(entry(4, 1400, 0)));
    assert_eq!(sequences(&buffer), vec![1, 2, 3, 4]);
    assert!(!buffer.insert(entry(5, 1399, 0)));
    assert!(buffer.insert(entry(6, 1401, 0)));
}

#[test]
fn a_buffer_bounded_to_nothing_measures_against_zero() {
    let mut buffer = JitterBuffer::new(0, 400);
    assert!(!buffer.insert(entry(1, 399, 0)));
    assert!(buffer.insert(entry(1, 400, 0)));
    assert!(!buffer.insert(entry(2, 799, 0)));
    assert!(buffer.insert(entry(2, 800, 0)));
}

#[test]
fn the_window_does_not_overflow() {
    let mut buffer = JitterBuffer::new(1, u64::MAX);
    assert!(buffer.insert(entry(1, u64::MAX, 0)));
    assert!(!buffer.insert(entry(2, u64::MAX, 0)));
}

#[test]
fn sequence_numbers_do_not_wrap() {
    let mut buffer = JitterBuffer::new(20, 400);
    buffer.last_played_sequence = u32::MAX - 1;
    assert!(buffer.insert(entry(u32::MAX, 20, 0)));
    assert_eq!(buffer.pop_next().unwrap().sequence_number, u32::MAX);
    assert_eq!(buffer.last_played_sequence, u32::MAX);
    assert!(!buffer.insert(entry(0, 40, 0)));
    assert!(!buffer.insert(entry(1, 40, 0)));
    assert!(buffer.pop_next().is_none());

    let mut fresh = JitterBuffer::new(20, 400);
    assert!(!fresh.insert(entry(0, 40, 0)));
    assert!(fresh.insert(entry(1, 40, 0)));
}

#[test]
fn cleanup_stops_at_the_first_entry_that_is_not_stale() {
    let mut buffer = JitterBuffer::new(20, 400);
    assert!(buffer.insert(entry(2, 20, 0)));
    assert!(buffer.insert(entry(3, 40, 600)));
    assert!(buffer.insert(entry(4, 60, 10)));
    buffer.cleanup(500, 600);
    assert_eq!(sequences(&buffer), vec![3, 4]);
    buffer.cleanup(500, 1100);
    assert_eq!(sequences(&buffer), vec![3, 4]);
    buffer.cleanup(500, 1101);
    assert!(buffer.is_empty());
    assert_eq!(buffer.last_played_sequence, 0);
    buffer.cleanup(500, 5000);
    assert!(buffer.is_empty());
}

#[test]
fn an_entry_stamped_in_the_future_is_not_stale() {
    let mut buffer = JitterBuffer::new(20, 400);
    assert!(buffer.insert(entry(1, 20, 1000)));
    buffer.cleanup(0, 10);
    assert_eq!(buffer.len(), 1);
    buffer.cleanup(0, 1000);
    assert_eq!(buffer.len(), 1);
    buffer.cleanup(0, 1001);
    assert_eq!(buffer.len(), 0);
}

#[test]
fn last_played_never_decreases() {
    let mut buffer = JitterBuffer::new(4, 100);
    let mut last = buffer.last_played_sequence;
    let offers = [3u32, 1, 2, 2, 9, 4, 5, 7, 6, 8, 1, 10];
    for (step, seq) in offers.iter().enumerate() {
        buffer.insert(entry(*seq, step as u64 * 50, step as u64 * 50));
        assert!(buffer.last_played_sequence >= last);
        last = buffer.last_played_sequence;
        buffer.pop_next();
        assert!(buffer.last_played_sequence >= last);
        last = buffer.last_played_sequence;
        buffer.cleanup(120, step as u64 * 50);
        assert!(buffer.last_played_sequence >= last);
        last = buffer.last_played_sequence;
    }
}
