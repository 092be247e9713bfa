use sbs1::message::parse_with_timestamp;
use sbs1::{BatchAggregator, SBS1Message};

fn message(tag: u32) -> SBS1Message {
    let line = format!("MSG,3,{},,,,,,,,,,,,,,,,,,,", tag);
    parse_with_timestamp(&line, tag as u128).expect("a MSG record always decodes")
}

fn tags(batch: &[SBS1Message]) -> Vec<String> {
    batch.iter().map(|m| m.session_id.clone().unwrap()).collect()
}

#[test]
fn twice_the_batch_size_gives_two_full_batches_in_order() {
    let size = 3;
    let mut agg = BatchAggregator::new(size);
    let mut batches: Vec<Vec<SBS1Message>> = Vec::new();
    for tag in 0..(2 * size as u32) {
        if let Some(batch) = agg.offer(message(tag)) {
            batches.push(batch);
        }
    }
    assert_eq!(batches.len(), 2);
    assert_eq!(batches[0].len(), size);
    assert_eq!(batches[1].len(), size);
    assert_eq!(tags(&batches[0]), ["0", "1", "2"]);
    assert_eq!(tags(&batches[1]), ["3", "4", "5"]);
    // nothing is pending, so the final flush has nothing to emit
    assert!(agg.flush().is_none());
}

#[test]
fn one_over_the_batch_size_leaves_one_for_the_flush() {
    let size = 3;
    let mut agg = BatchAggregator::new(size);
    let mut batches: Vec<Vec<SBS1Message>> = Vec::new();
    for tag in 0..(size as u32 + 1) {
        if let Some(batch) = agg.offer(message(tag)) {
            batches.push(batch);
        }
    }
    assert_eq!(batches.len(), 1);
    assert_eq!(tags(&batches[0]), ["0", "1", "2"]);
    let last = agg.flush().expect("one message is pending");
    assert_eq!(tags(&last), ["3"]);
    assert!(agg.flush().is_none());
}

#[test]
fn flush_of_an_empty_buffer_emits_nothing() {
    let mut agg = BatchAggregator::new(5);
    assert!(agg.flush().is_none());
    assert!(agg.offer(message(0)).is_none());
    let only = agg.flush().expect("one message is pending");
    assert_eq!(only.len(), 1);
    assert!(agg.flush().is_none());
}

#[test]
fn batch_size_one_emits_every_message_at_once() {
    let mut agg = BatchAggregator::new(1);
    for tag in 0..4u32 {
        let batch = agg.offer(message(tag)).expect("every offer fills a batch");
        assert_eq!(tags(&batch), [tag.to_string()]);
    }
    assert!(agg.flush().is_none());
}

#[test]
fn messages_are_moved_never_duplicated_or_dropped() {
    let size = 4;
    let total = 11u32;
    let mut agg = BatchAggregator::new(size);
    let mut seen: Vec<String> = Vec::new();
    for tag in 0..total {
        if let Some(batch) = agg.offer(message(tag)) {
            assert_eq!(batch.len(), size);
            seen.extend(tags(&batch));
        }
    }
    if let Some(batch) = agg.flush() {
        assert!(!batch.is_empty());
        assert!(batch.len() < size);
        seen.extend(tags(&batch));
    }
    let expected: Vec<String> = (0..total).map(|t| t.to_string()).collect();
    assert_eq!(seen, expected);
}
