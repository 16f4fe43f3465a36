use wible::Capability;
use wible::CharacteristicIO;
use wible::CharacteristicProperties;
use wible::FetchPlan;
use wible::char_io::NOTIFY_TIMEOUT_MS;

fn props(bits: u32) -> CharacteristicProperties {
    CharacteristicProperties::from_bits(bits).expect("defined bits")
}

#[test]
fn poll_fed_read_buffers_remainder() {
    // READ only: poll-fed.
    let mut io = CharacteristicIO::new(Some(props(2)));
    assert!(!io.is_notify_fed());
    assert!(io.readable());
    // Empty buffer: exactly one uncached fetch is requested.
    assert_eq!(io.fetch_plan(), FetchPlan::UncachedRead);
    // The fetch brought four bytes; the caller asked for two.
    let got = io.read(Some(vec![1, 2, 3, 4]), 2);
    assert_eq!(got, vec![1, 2]);
    // The remainder stays buffered, so no fetch is requested next.
    assert_eq!(io.fetch_plan(), FetchPlan::NoFetch);
    let got = io.read(None, 10);
    assert_eq!(got, vec![3, 4]);
    assert_eq!(io.fetch_plan(), FetchPlan::UncachedRead);
}

#[test]
fn notify_fed_timeout_returns_zero_bytes() {
    // READ and NOTIFY: notification-fed.
    let mut io = CharacteristicIO::new(Some(props(18)));
    assert!(io.is_notify_fed());
    // Empty buffer: wait up to the timeout window.
    assert_eq!(io.fetch_plan(), FetchPlan::AwaitNotify);
    // No payload arrived within the window: zero bytes, not an error.
    let got = io.read(None, 8);
    assert_eq!(got, Vec::<u8>::new());
    assert_eq!(io.fetch_plan(), FetchPlan::AwaitNotify);
    // A payload arrived: delivered, remainder buffered.
    let got = io.read(Some(vec![7, 8, 9]), 2);
    assert_eq!(got, vec![7, 8]);
    // Non-empty buffer: drain the queue opportunistically, without blocking.
    assert_eq!(io.fetch_plan(), FetchPlan::PollNotify);
}

#[test]
fn notify_timeout_is_one_second() {
    assert_eq!(NOTIFY_TIMEOUT_MS, 1000);
}

#[test]
fn teardown_owed_exactly_for_notify_fed() {
    let notify = CharacteristicIO::new(Some(props(18)));
    assert!(notify.release_plan());

    let poll = CharacteristicIO::new(Some(props(2)));
    assert!(!poll.release_plan());

    let unknown = CharacteristicIO::new(None);
    assert!(!unknown.release_plan());
}

#[test]
fn teardown_decision_survives_reads() {
    let mut io = CharacteristicIO::new(Some(props(18)));
    let _ = io.read(Some(vec![1]), 1);
    let _ = io.read(None, 4);
    assert!(io.release_plan());
}

#[test]
fn write_stages_exact_bytes() {
    let io = CharacteristicIO::new(Some(props(8)));
    assert!(io.writable());
    assert!(!io.readable());
    let staged = io.write(&vec![5, 6, 7]);
    assert_eq!(staged, vec![5, 6, 7]);
    io.flush();
}

#[test]
fn write_capability_gate() {
    let read_only = CharacteristicIO::new(Some(props(2)));
    assert!(!read_only.writable());

    let write_only = CharacteristicIO::new(Some(props(8)));
    assert!(!write_only.readable());
}

#[test]
fn unknown_properties_leave_io_open() {
    let io = CharacteristicIO::new(None);
    assert!(io.readable());
    assert!(io.writable());
    assert!(!io.is_notify_fed());
}

#[test]
fn read_capability_checked_against_known_set() {
    let io = CharacteristicIO::new(Some(props(2 | 16)));
    assert!(io.readable());
    let notify_only = CharacteristicIO::new(Some(props(16)));
    assert!(!notify_only.readable());
}
