//! Hand-over of values between workers.

pub mod latest_mailbox;
pub mod latest_queue;
