use wible::Advertisement;
use wible::BluetoothAddress;
use wible::EventQueue;

#[test]
fn fifo_order_preserved() {
    let mut q: EventQueue<u32> = EventQueue::new();
    q.push(10);
    q.push(20);
    q.push(30);
    assert_eq!(q.len(), 3);
    assert_eq!(q.pop(), Some(10));
    assert_eq!(q.pop(), Some(20));
    assert_eq!(q.pop(), Some(30));
    assert_eq!(q.pop(), None);
}

#[test]
fn pop_on_empty_returns_none() {
    let mut q: EventQueue<u32> = EventQueue::new();
    assert_eq!(q.pop(), None);
    assert_eq!(q.len(), 0);
}

#[test]
fn closed_queue_drops_new_events_keeps_old() {
    let mut q: EventQueue<u32> = EventQueue::new();
    q.push(1);
    q.close();
    q.push(2);
    assert_eq!(q.len(), 1);
    assert_eq!(q.pop(), Some(1));
    assert_eq!(q.pop(), None);
}

#[test]
fn advertisements_flow_in_submission_order() {
    let mut q: EventQueue<Advertisement> = EventQueue::new();
    q.push(Advertisement::new(BluetoothAddress(1), -40));
    q.push(Advertisement::new(BluetoothAddress(2), -50));
    q.push(Advertisement::new(BluetoothAddress(3), -60));
    let a = q.pop().expect("first advertisement");
    let b = q.pop().expect("second advertisement");
    let c = q.pop().expect("third advertisement");
    assert_eq!(a.address().0, 1);
    assert_eq!(a.signal_strength(), -40);
    assert_eq!(b.address().0, 2);
    assert_eq!(c.address().0, 3);
}
