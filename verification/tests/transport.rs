use flipperzero_rpc_transport::error::Error;
use flipperzero_rpc_transport::transport::{
    read_outcome, read_step, rx_task_step, tx_task_step, write_outcome, Delivery, ReaderStep,
    Reception, Submission,
};

#[test]
fn read_returns_the_delivered_frame() {
    assert_eq!(read_outcome(Delivery::Frame(vec![1, 2, 3])), Ok(vec![1, 2, 3]));
    assert_eq!(read_outcome(Delivery::Frame(vec![])), Ok(vec![]));
}

#[test]
fn read_without_a_subscription_is_closed() {
    assert_eq!(read_outcome(Delivery::NoSubscription), Err(Error::TransportClosed));
}

#[test]
fn read_of_an_ended_subscription_is_closed() {
    assert_eq!(read_outcome(Delivery::Ended), Err(Error::TransportClosed));
}

#[test]
fn write_returns_what_the_writer_reported() {
    assert_eq!(write_outcome(Submission::Completed(Ok(vec![9, 8]))), Ok(vec![9, 8]));
    assert_eq!(write_outcome(Submission::Completed(Err(Error::Io))), Err(Error::Io));
    assert_eq!(
        write_outcome(Submission::Completed(Err(Error::BrokenPipe))),
        Err(Error::BrokenPipe)
    );
}

#[test]
fn write_that_was_not_queued_is_closed() {
    assert_eq!(write_outcome(Submission::Rejected), Err(Error::TransportClosed));
}

#[test]
fn write_that_was_never_answered_is_a_broken_pipe() {
    assert_eq!(write_outcome(Submission::Dropped), Err(Error::BrokenPipe));
}

#[test]
fn reader_broadcasts_each_frame() {
    assert_eq!(rx_task_step(Some(vec![2, 3])), ReaderStep::Broadcast(vec![2, 3]));
    assert_eq!(rx_task_step(Some(vec![])), ReaderStep::Broadcast(vec![]));
}

#[test]
fn reader_exits_at_the_end_of_the_stream() {
    assert_eq!(rx_task_step(None), ReaderStep::Exit);
}

#[test]
fn writer_reports_the_frame_that_went_out() {
    assert_eq!(tx_task_step(vec![1, 2], true, Ok(())), Some(Ok(vec![1, 2])));
    assert_eq!(tx_task_step(vec![], true, Ok(())), Some(Ok(vec![])));
}

#[test]
fn writer_reports_a_failed_write() {
    assert_eq!(tx_task_step(vec![1, 2], true, Err(Error::Io)), Some(Err(Error::Io)));
    assert_eq!(
        tx_task_step(vec![1, 2], true, Err(Error::BrokenPipe)),
        Some(Err(Error::BrokenPipe))
    );
}

#[test]
fn writer_reports_nothing_without_a_completion_signal() {
    assert_eq!(tx_task_step(vec![1, 2], false, Ok(())), None);
    assert_eq!(tx_task_step(vec![1, 2], false, Err(Error::Io)), None);
}

#[test]
fn every_error_is_told_apart() {
    let all = [Error::HandshakeTimeout, Error::TransportClosed, Error::BrokenPipe, Error::Io];
    for (i, a) in all.iter().enumerate() {
        for (j, b) in all.iter().enumerate() {
            assert_eq!(a == b, i == j);
        }
    }
}

#[test]
fn every_error_has_its_message() {
    assert_eq!(Error::HandshakeTimeout.message(), "Timed out waiting for the device's shell");
    assert_eq!(Error::TransportClosed.message(), "The transport has been closed");
    assert_eq!(Error::BrokenPipe.message(), "The callback channel has been closed");
    assert_eq!(Error::Io.message(), "The serial stream failed");
}

#[test]
fn a_received_frame_ends_the_read() {
    assert_eq!(read_step(Reception::Frame(vec![4, 5])), Some(Delivery::Frame(vec![4, 5])));
    assert_eq!(read_step(Reception::Frame(vec![])), Some(Delivery::Frame(vec![])));
}

#[test]
fn a_closed_subscription_ends_the_read() {
    assert_eq!(read_step(Reception::Closed), Some(Delivery::Ended));
    assert_eq!(
        read_step(Reception::Closed).map(read_outcome),
        Some(Err(Error::TransportClosed))
    );
}

#[test]
fn a_subscriber_that_fell_behind_waits_again() {
    assert_eq!(read_step(Reception::Lagged(1)), None);
    assert_eq!(read_step(Reception::Lagged(u64::MAX)), None);
    assert_eq!(read_step(Reception::Lagged(0)), None);
}
