//! Queue backlogs.
use std::sync::mpsc::{channel, Receiver, SendError, Sender};

use rsrpc::gauge::{QueueGauge, SendChecked};

/// A queue with its gauge.
struct Queue {
    gauge: QueueGauge,
    tx: Sender<u64>,
    rx: Option<Receiver<u64>>,
}

fn pair() -> Queue {
    let (tx, rx) = channel();
    Queue {
        gauge: QueueGauge::new(),
        tx,
        rx: Some(rx),
    }
}

impl Queue {
    fn send(&mut self, value: u64) -> Result<(), SendError<u64>> {
        let sent = self.tx.send(value);
        self.gauge.note_sent(sent.is_ok());
        sent
    }

    fn recv(&mut self) -> Option<u64> {
        let value = self.rx.as_ref()?.try_recv().ok()?;
        self.gauge.note_received();
        Some(value)
    }

    fn send_checked(&mut self, value: u64, cap: usize) -> SendChecked {
        let admitted = self.gauge.send_checked(self.rx.is_some(), cap);
        if admitted == SendChecked::Sent {
            assert!(self.tx.send(value).is_ok());
        }
        admitted
    }
}

/// Depth follows sends and receives one by one.
#[test]
fn queue_gauge_tracks_depth() {
    let mut queue = pair();
    assert_eq!(queue.gauge.depth(), 0);
    queue.send(1).expect("send");
    assert_eq!(queue.gauge.depth(), 1);
    queue.send(2).expect("send");
    assert_eq!(queue.gauge.depth(), 2);
    assert_eq!(queue.recv().expect("recv"), 1);
    assert_eq!(queue.gauge.depth(), 1);
    assert_eq!(queue.recv().expect("recv"), 2);
    assert_eq!(queue.gauge.depth(), 0);
}

/// Failed sends leave no phantom backlog.
#[test]
fn queue_gauge_ignores_failed_send() {
    let mut queue = pair();
    queue.rx = None;
    assert!(queue.send(1).is_err());
    assert_eq!(queue.gauge.depth(), 0);
}

/// Capacity-checked sends shed (counted) past the cap instead of growing.
#[test]
fn checked_send_sheds_past_cap_and_counts() {
    const CAP: usize = 8;
    let mut queue = pair();
    for _ in 0..CAP {
        assert_eq!(queue.send_checked(1, CAP), SendChecked::Sent);
    }
    assert_eq!(queue.send_checked(1, CAP), SendChecked::Shed);
    assert_eq!(queue.gauge.dropped_total(), 1);
    assert_eq!(queue.gauge.depth(), CAP);
}

/// A full queue with a dead receiver reports `Closed`, not `Shed`: otherwise
/// producers would spin forever instead of exiting.
#[test]
fn checked_send_prefers_closed_over_shed() {
    const CAP: usize = 4;
    let mut queue = pair();
    for _ in 0..CAP {
        assert_eq!(queue.send_checked(1, CAP), SendChecked::Sent);
    }
    queue.rx = None;
    assert_eq!(queue.send_checked(1, CAP), SendChecked::Closed);
}

/// A gone receiver reports `Closed` (callers exit), never `Shed`.
#[test]
fn checked_send_reports_closed_receiver() {
    let mut queue = pair();
    queue.rx = None;
    assert_eq!(queue.send_checked(1, 8), SendChecked::Closed);
    assert_eq!(queue.gauge.dropped_total(), 0);
}

/// An empty queue stays empty.
#[test]
fn depths_never_wrap() {
    let mut gauge = QueueGauge::new();
    gauge.note_received();
    assert_eq!(gauge.depth(), 0);
}
