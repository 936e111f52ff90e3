use ruwm::notification::Notification;
use ruwm::signal::Signal;
use ruwm::state::State;
use ruwm::utils::{concat_arr, NotifReceiver, NotifSender, NotifSender2, SignalReceiver, SignalSender};

#[test]
fn notify_then_wait_wakes_once() {
    let mut n = Notification::new();
    assert!(!n.wait());
    n.notify();
    assert!(n.wait());
    assert!(!n.wait());
}

#[test]
fn repeated_notify_coalesces_to_one_wakeup() {
    let mut n = Notification::new();
    n.notify();
    n.notify();
    n.notify();
    assert!(n.wait());
    assert!(!n.wait());
}

#[test]
fn signal_keeps_latest_value_only() {
    let mut s: Signal<u32> = Signal::new();
    assert_eq!(s.wait(), None);
    s.signal(1);
    s.signal(2);
    s.signal(3);
    assert_eq!(s.wait(), Some(3));
    assert_eq!(s.wait(), None);
}

#[test]
fn state_get_returns_most_recent_update() {
    let mut pool = vec![Notification::new(), Notification::new()];
    let mut cell: State<u32> = State::new("CELL", 0, vec![0, 1]);
    assert_eq!(cell.get(), 0);
    cell.update(7, &mut pool);
    assert_eq!(cell.get(), 7);
    cell.update(8, &mut pool);
    cell.update(9, &mut pool);
    assert_eq!(cell.get(), 9);
}

#[test]
fn state_update_notifies_every_observer() {
    let mut pool = vec![Notification::new(), Notification::new(), Notification::new()];
    let mut cell: State<u32> = State::new("CELL", 0, vec![0, 2]);
    cell.update(5, &mut pool);
    assert!(pool[0].wait());
    assert!(!pool[1].wait());
    assert!(pool[2].wait());
}

#[test]
fn notif_receiver_reads_current_value_after_wakeup() {
    let mut pool = vec![Notification::new()];
    let mut cell: State<u32> = State::new("CELL", 0, vec![0]);
    let mut recv = NotifReceiver::new(0);
    assert_eq!(recv.recv(&mut pool, &cell), None);
    cell.update(42, &mut pool);
    assert_eq!(recv.recv(&mut pool, &cell), Some(42));
    assert_eq!(recv.recv(&mut pool, &cell), None);
}

#[test]
fn notif_receiver_sees_final_value_of_burst() {
    let mut pool = vec![Notification::new()];
    let mut cell: State<u32> = State::new("CELL", 0, vec![0]);
    let mut recv = NotifReceiver::new(0);
    cell.update(1, &mut pool);
    cell.update(2, &mut pool);
    cell.update(3, &mut pool);
    assert_eq!(recv.recv(&mut pool, &cell), Some(3));
    assert_eq!(recv.recv(&mut pool, &cell), None);
}

#[test]
fn signal_receiver_forwards_wait() {
    let mut signals = vec![Signal::new()];
    let mut recv = SignalReceiver::new(0);
    assert_eq!(recv.recv::<u32>(&mut signals), None);
    signals[0].signal(11);
    assert_eq!(recv.recv(&mut signals), Some(11));
    assert_eq!(recv.recv(&mut signals), None);
}

#[test]
fn notif_sender_wakes_bound_group() {
    let mut pool = vec![Notification::new(), Notification::new(), Notification::new()];
    let mut sender = NotifSender::new("SRC", vec![0, 1]);
    sender.send(&mut pool);
    assert!(pool[0].wait());
    assert!(pool[1].wait());
    assert!(!pool[2].wait());
}

#[test]
fn notif_sender2_wakes_both_groups() {
    let mut pool = vec![
        Notification::new(),
        Notification::new(),
        Notification::new(),
        Notification::new(),
    ];
    let mut sender = NotifSender2::new("SRC", vec![0], vec![2, 3]);
    sender.send(&mut pool);
    assert!(pool[0].wait());
    assert!(!pool[1].wait());
    assert!(pool[2].wait());
    assert!(pool[3].wait());
}

#[test]
fn signal_sender_pushes_to_every_bound_signal() {
    let mut signals = vec![Signal::new(), Signal::new(), Signal::new()];
    let mut sender = SignalSender::new("SRC", vec![0, 2]);
    sender.send(9u32, &mut signals);
    assert_eq!(signals[0].wait(), Some(9));
    assert_eq!(signals[1].wait(), None);
    assert_eq!(signals[2].wait(), Some(9));
}

#[test]
fn concat_arr_joins_in_order() {
    let a = vec![1u32, 2];
    let b = vec![3u32, 4, 5];
    assert_eq!(concat_arr(a, b), vec![1, 2, 3, 4, 5]);
}
