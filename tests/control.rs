use mocker::control::{get_device_uuid, update_args, update_interval, update_message, Reply};
use mocker::interval::Interval;
use mocker::message::{Message, Timestamp, Values};
use mocker::publisher::{step, Action, Event, Phase};

fn message() -> Message {
    Message {
        topic: "t".to_string(),
        device_uuid: 42,
        timestamp: Timestamp { unix_secs: 0, nanos: 0, offset_secs: 0 },
        values: Values::new(),
        alert: false,
        status: "OK".to_string(),
    }
}

#[test]
fn malformed_interval_is_rejected() {
    let mut cell = Interval { secs: 60, nanos: 0 };
    let r = update_interval(&mut cell, None);
    assert_eq!(r, Reply::BadRequest);
    assert_eq!(r.status_code(), 400);
    assert_eq!(cell, Interval { secs: 60, nanos: 0 });
    let r = update_interval(&mut cell, Some((u64::MAX, 1_000_000_000)));
    assert_eq!(r, Reply::BadRequest);
    assert_eq!(cell, Interval { secs: 60, nanos: 0 });
}

#[test]
fn wellformed_interval_is_seen_next_tick() {
    let mut cell = Interval { secs: 60, nanos: 0 };
    let r = update_interval(&mut cell, Some((1, 1_500_000_000)));
    assert_eq!(r, Reply::Done);
    assert_eq!(r.status_code(), 200);
    assert_eq!(cell, Interval { secs: 2, nanos: 500_000_000 });
    // A tick already in flight keeps the interval it read.
    let (p, a) = step(Phase::Publishing(Interval { secs: 60, nanos: 0 }), Event::Published(true));
    assert_eq!((p, a), (Phase::Sleeping, Action::Sleep(Interval { secs: 60, nanos: 0 })));
    let (p, a) = step(p, Event::Woke);
    assert_eq!(a, Action::TakeSnapshot);
    let (p, a) = step(p, Event::Snapshot(cell));
    assert_eq!(a, Action::Publish);
    let (_, a) = step(p, Event::Published(false));
    assert_eq!(a, Action::Sleep(Interval { secs: 2, nanos: 500_000_000 }));
}

#[test]
fn connection_failure_aborts() {
    assert_eq!(step(Phase::Connecting, Event::ConnectFailed), (Phase::Stopped, Action::Abort));
    assert_eq!(step(Phase::Connecting, Event::Connected), (Phase::Ticking, Action::TakeSnapshot));
    assert_eq!(step(Phase::Stopped, Event::Woke), (Phase::Stopped, Action::Wait));
}

#[test]
fn identity_is_stable() {
    let mut m = message();
    assert_eq!(get_device_uuid(&m), Reply::Device(42));
    assert_eq!(update_message(&mut m, true), Reply::NotImplemented);
    assert_eq!(update_message(&mut m, false), Reply::BadRequest);
    assert_eq!(update_args(&mut m, vec!["a:b".to_string()]), Reply::NotImplemented);
    assert_eq!(Reply::NotImplemented.status_code(), 501);
    assert_eq!(Reply::InternalError.status_code(), 500);
    assert_eq!(get_device_uuid(&m), Reply::Device(42));
    assert_eq!(m.topic, "t");
}
