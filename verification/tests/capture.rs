use audio_censor::capture::{CaptureQueue, MonitorSlot, Offer, Poll};

#[test]
fn queue_needs_room() {
    assert!(CaptureQueue::new(0).is_none());
    let queue = CaptureQueue::new(3).unwrap();
    assert_eq!(queue.capacity(), 3);
    assert_eq!(queue.len(), 0);
    assert!(!queue.is_closed());
    assert_eq!(queue.dropped(), 0);
}

#[test]
fn queue_is_first_in_first_out() {
    let mut queue = CaptureQueue::new(4).unwrap();
    assert_eq!(queue.offer(vec![1]), Offer::Enqueued);
    assert_eq!(queue.offer(vec![2, 2]), Offer::Enqueued);
    assert_eq!(queue.offer(vec![3]), Offer::Enqueued);
    assert_eq!(queue.len(), 3);
    assert_eq!(queue.poll(), Poll::Chunk(vec![1]));
    assert_eq!(queue.poll(), Poll::Chunk(vec![2, 2]));
    assert_eq!(queue.offer(vec![4]), Offer::Enqueued);
    assert_eq!(queue.poll(), Poll::Chunk(vec![3]));
    assert_eq!(queue.poll(), Poll::Chunk(vec![4]));
    assert_eq!(queue.poll(), Poll::Wait);
}

#[test]
fn a_full_queue_drops_and_counts() {
    let mut queue = CaptureQueue::new(2).unwrap();
    assert_eq!(queue.offer(vec![1]), Offer::Enqueued);
    assert_eq!(queue.offer(vec![2]), Offer::Enqueued);
    assert_eq!(queue.offer(vec![3]), Offer::Dropped);
    assert_eq!(queue.offer(vec![4]), Offer::Dropped);
    assert_eq!(queue.len(), 2);
    assert_eq!(queue.dropped(), 2);
    assert_eq!(queue.poll(), Poll::Chunk(vec![1]));
    assert_eq!(queue.offer(vec![5]), Offer::Enqueued);
    assert_eq!(queue.poll(), Poll::Chunk(vec![2]));
    assert_eq!(queue.poll(), Poll::Chunk(vec![5]));
    assert_eq!(queue.dropped(), 2);
}

#[test]
fn a_closed_queue_drains_and_then_is_done() {
    let mut queue = CaptureQueue::new(2).unwrap();
    assert_eq!(queue.offer(vec![1]), Offer::Enqueued);
    queue.close();
    assert!(queue.is_closed());
    assert_eq!(queue.offer(vec![2]), Offer::Rejected);
    assert_eq!(queue.dropped(), 0);
    assert_eq!(queue.poll(), Poll::Chunk(vec![1]));
    assert_eq!(queue.poll(), Poll::Done);
    assert_eq!(queue.poll(), Poll::Done);
}

#[test]
fn monitor_slot_holds_the_latest_window() {
    let mut slot = MonitorSlot::new();
    assert_eq!(slot.take(), None);
    assert!(!slot.publish(vec![1]));
    assert!(slot.publish(vec![2]));
    assert_eq!(slot.take(), Some(vec![2]));
    assert_eq!(slot.take(), None);
    assert!(!slot.publish(vec![3]));
}
