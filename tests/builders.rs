use mocker::builders::{
    build_duration, build_message, build_tuples, device_uuid_from, mqtt_port, process_args,
    ArgsError, BuildError,
};
use mocker::interval::Interval;
use mocker::message::{ArgTable, FieldValue, Timestamp};

const UUID_TEXT: &str = "67e55044-10b1-426f-9247-bb680e5fe0c8";
const UUID_BITS: u128 = 0x67e55044_10b1_426f_9247_bb680e5fe0c8;

fn strings(v: &[&str]) -> Vec<String> {
    v.iter().map(|s| s.to_string()).collect()
}

fn stamp() -> Timestamp {
    Timestamp { unix_secs: 1_700_000_000, nanos: 5, offset_secs: 3600 }
}

fn table(v: &[&str]) -> ArgTable {
    process_args(&strings(v)).unwrap()
}

fn value(t: &ArgTable, k: &str) -> Option<String> {
    t.get(&k.to_string()).cloned()
}

#[test]
fn tuples_split_at_the_first_colon() {
    let (k, v) = build_tuples(&"topic:room-temp".to_string()).unwrap();
    assert_eq!((k.as_str(), v.as_str()), ("topic", "room-temp"));
    let (k, v) = build_tuples(&"a:b:c".to_string()).unwrap();
    assert_eq!((k.as_str(), v.as_str()), ("a", "b"));
    let (k, v) = build_tuples(&"key:".to_string()).unwrap();
    assert_eq!((k.as_str(), v.as_str()), ("key", ""));
    assert!(matches!(build_tuples(&"nocolon".to_string()), Err(ArgsError::InvalidTuple(_))));
    assert!(build_tuples(&"".to_string()).is_err());
}

#[test]
fn process_args_rejects_the_whole_list() {
    assert!(process_args(&strings(&["a:1", "bad", "c:3"])).is_err());
    let t = table(&["a:1", "b:2", "a:3"]);
    assert_eq!(t.len(), 2);
    assert_eq!(value(&t, "a").as_deref(), Some("3"));
    assert_eq!(value(&t, "b").as_deref(), Some("2"));
    assert_eq!(table(&[]).len(), 0);
}

#[test]
fn base_message_from_scenario_args() {
    let mut t = table(&["topic:room-temp", "alert:true", "sensorA:fixed(42)", "sensorB:random(10,20)"]);
    let m = build_message(&mut t, Some(UUID_TEXT.to_string()), stamp()).unwrap();
    assert_eq!(m.topic, "room-temp");
    assert!(m.alert);
    assert_eq!(m.status, "OK");
    assert_eq!(m.device_uuid, UUID_BITS);
    assert_eq!(m.timestamp, stamp());
    match m.values.get(&"location".to_string()) {
        Some(FieldValue::Text(s)) => assert_eq!(s, "laboratorios-pesados"),
        other => panic!("unexpected location {:?}", other),
    }
    assert_eq!(m.values.len(), 1);
    assert_eq!(t.len(), 2);
    assert!(value(&t, "topic").is_none());
    assert!(value(&t, "alert").is_none());
    assert_eq!(value(&t, "sensorA").as_deref(), Some("fixed(42)"));
}

#[test]
fn base_message_defaults() {
    let mut t = table(&["alert:maybe", "status:DEGRADED", "location:lab-2"]);
    let m = build_message(&mut t, Some(UUID_TEXT.to_string()), stamp()).unwrap();
    assert_eq!(m.topic, "temperatura");
    assert!(!m.alert);
    assert_eq!(m.status, "DEGRADED");
    match m.values.get(&"location".to_string()) {
        Some(FieldValue::Text(s)) => assert_eq!(s, "lab-2"),
        other => panic!("unexpected location {:?}", other),
    }
    assert_eq!(t.len(), 0);
}

#[test]
fn building_twice_gives_the_same_fields() {
    let args = ["topic:t1", "status:S", "alert:false", "location:here", "x:fixed(1)"];
    let mut t1 = table(&args);
    let mut t2 = table(&args);
    let a = build_message(&mut t1, Some(UUID_TEXT.to_string()), stamp()).unwrap();
    let b = build_message(&mut t2, Some(UUID_TEXT.to_string()), stamp()).unwrap();
    assert_eq!(a.topic, b.topic);
    assert_eq!(a.status, b.status);
    assert_eq!(a.alert, b.alert);
    match (a.values.get(&"location".to_string()), b.values.get(&"location".to_string())) {
        (Some(FieldValue::Text(x)), Some(FieldValue::Text(y))) => assert_eq!(x, y),
        other => panic!("unexpected locations {:?}", other),
    }
}

#[test]
fn device_identity_errors() {
    let mut t = table(&["topic:x"]);
    assert_eq!(build_message(&mut t, None, stamp()).unwrap_err(), BuildError::MissingDeviceUuid);
    assert_eq!(
        build_message(&mut t, Some("not-a-uuid".to_string()), stamp()).unwrap_err(),
        BuildError::InvalidDeviceUuid
    );
    assert_eq!(value(&t, "topic").as_deref(), Some("x"));
    assert_eq!(device_uuid_from(Some(7), true), Ok(7));
    assert_eq!(device_uuid_from(None, true), Err(BuildError::InvalidDeviceUuid));
    assert_eq!(device_uuid_from(Some(7), false), Err(BuildError::MissingDeviceUuid));
}

#[test]
fn uuid_in_simple_form() {
    let mut t = table(&[]);
    let m = build_message(&mut t, Some("67e5504410b1426f9247bb680e5fe0c8".to_string()), stamp()).unwrap();
    assert_eq!(m.device_uuid, UUID_BITS);
}

#[test]
fn interval_and_port_defaults() {
    assert_eq!(build_duration(&table(&["interval:5"])), Interval { secs: 5, nanos: 0 });
    assert_eq!(build_duration(&table(&["interval:five"])), Interval { secs: 60, nanos: 0 });
    assert_eq!(build_duration(&table(&[])), Interval { secs: 60, nanos: 0 });
    assert_eq!(mqtt_port(&table(&["mqtt_port:1884"])), 1884);
    assert_eq!(mqtt_port(&table(&["mqtt_port:x"])), 1883);
    assert_eq!(mqtt_port(&table(&[])), 1883);
}
