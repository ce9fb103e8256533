use std::time::Duration;

use meikipop::runtime::{EventState, ReentrantLockState};
use meikipop::screenshot::interface::RgbImage;
use meikipop::utils::latest_mailbox::{
    LatestMailbox, MailboxItem, Receipt, RecvTimeoutError, SendError, TryRecvError,
};
use meikipop::utils::latest_queue::LatestValueQueue;

#[test]
fn sending_replaces_and_returns_obsolete_pending_work() {
    let mut mailbox = LatestMailbox::new();

    assert_eq!(mailbox.send_replace("old"), Ok(None));
    assert_eq!(mailbox.send_replace("latest"), Ok(Some("old")));
    assert_eq!(
        mailbox.recv_latest(),
        Some(MailboxItem {
            version: 2,
            value: "latest",
        })
    );
}

#[test]
fn a_receiver_waits_until_a_value_arrives() {
    let mut mailbox = LatestMailbox::new();

    assert!(matches!(mailbox.receive_step(false), Receipt::Wait));
    assert_eq!(mailbox.send_replace(42), Ok(None));
    assert_eq!(
        mailbox.recv_latest(),
        Some(MailboxItem {
            version: 1,
            value: 42,
        })
    );
}

#[test]
fn close_discards_pending_work_and_rejects_future_sends() {
    let mut mailbox = LatestMailbox::new();
    mailbox.send_replace("pending").unwrap();

    assert_eq!(mailbox.close(), Some("pending"));
    assert!(mailbox.is_closed());
    assert_eq!(mailbox.recv_latest(), None);
    assert_eq!(mailbox.send_replace("rejected"), Err(SendError("rejected")));
    assert_eq!(mailbox.close(), None);
}

#[test]
fn closing_ends_the_wait_of_a_receiver() {
    let mut mailbox = LatestMailbox::<()>::new();

    assert!(matches!(mailbox.receive_step(false), Receipt::Wait));
    mailbox.close();
    assert!(matches!(mailbox.receive_step(false), Receipt::Closed));
}

#[test]
fn try_receive_distinguishes_empty_from_closed() {
    let mut mailbox = LatestMailbox::new();

    assert_eq!(mailbox.try_recv_latest(), Err(TryRecvError::Empty));
    mailbox.send_replace(7).unwrap();
    assert_eq!(mailbox.try_recv_latest().unwrap().value, 7);
    mailbox.close();
    assert_eq!(mailbox.try_recv_latest(), Err(TryRecvError::Closed));
}

#[test]
fn timed_receive_reports_timeout_and_close() {
    let mut mailbox = LatestMailbox::<()>::new();

    assert_eq!(
        mailbox.recv_latest_timeout(Duration::from_millis(1)),
        Err(RecvTimeoutError::Timeout)
    );
    mailbox.close();
    assert_eq!(
        mailbox.recv_latest_timeout(Duration::from_secs(1)),
        Err(RecvTimeoutError::Closed)
    );
}

#[test]
fn put_replaces_the_previous_unread_value() {
    let mut queue = LatestValueQueue::new();
    queue.put(1);
    queue.put(2);
    assert!(queue.is_ready());
    assert_eq!(queue.get_with(|value: Option<&i32>| value.copied()), Some(2));
    assert!(!queue.is_ready());
}

#[test]
fn trigger_wakes_without_replacing_the_value() {
    let mut queue = LatestValueQueue::new();
    queue.put("value");
    assert!(queue.is_ready());
    assert_eq!(
        queue.get_with(|value: Option<&&str>| value.copied()),
        Some("value")
    );

    queue.trigger();
    assert!(queue.is_ready());
    assert_eq!(
        queue.get_with(|value: Option<&&str>| value.copied()),
        Some("value")
    );
}

fn pixel(bytes: [u8; 3]) -> RgbImage {
    RgbImage {
        data: bytes.to_vec(),
        width: 1,
        height: 1,
    }
}

#[test]
fn typed_ocr_queue_keeps_only_the_latest_image() {
    let mut queue: LatestValueQueue<Option<RgbImage>> = LatestValueQueue::new();
    queue.put(Some(pixel([1, 2, 3])));
    queue.put(Some(pixel([4, 5, 6])));

    assert!(queue.is_ready());
    let data = queue
        .get_with(|image: Option<&Option<RgbImage>>| {
            image
                .and_then(|image| image.as_ref())
                .map(|image| image.data.clone())
        })
        .unwrap();
    assert_eq!(data, [4, 5, 6]);
}

#[test]
fn typed_ocr_queue_carries_the_shutdown_sentinel() {
    let mut queue: LatestValueQueue<Option<RgbImage>> = LatestValueQueue::new();
    queue.put(None);
    assert!(queue.is_ready());
    assert_eq!(
        queue.get_with(|image: Option<&Option<RgbImage>>| image.map(|image| image.is_none())),
        Some(true)
    );
}

#[test]
fn events_let_waiters_proceed_while_they_are_set() {
    let mut event = EventState::new();
    assert!(!event.may_proceed());
    event.set();
    assert!(event.may_proceed());
    event.clear();
    assert!(!event.may_proceed());
}

#[test]
fn locks_belong_to_one_thread_at_a_time() {
    let mut lock = ReentrantLockState::new();
    assert!(lock.acquire(1));
    assert!(lock.acquire(1));
    assert!(!lock.acquire(2));
    assert_eq!(lock.release(1), Ok(false));
    assert!(!lock.acquire(2));
    assert!(lock.release(2).is_err());
    assert_eq!(lock.release(1), Ok(true));
    assert!(lock.acquire(2));
}
