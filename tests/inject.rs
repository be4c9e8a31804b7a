use mocker::builders::{build_message, process_args};
use mocker::inject::{
    apply_random_samples, draw_samples, materialize, process_fixed_values, process_random_values,
    unprocessed_keys,
};
use mocker::message::{ArgTable, FieldValue, Message, Timestamp};

const UUID_TEXT: &str = "67e55044-10b1-426f-9247-bb680e5fe0c8";

fn stamp(secs: i64) -> Timestamp {
    Timestamp { unix_secs: secs, nanos: 0, offset_secs: 0 }
}

fn setup(args: &[&str]) -> (Message, ArgTable) {
    let v: Vec<String> = args.iter().map(|s| s.to_string()).collect();
    let mut t = process_args(&v).unwrap();
    let m = build_message(&mut t, Some(UUID_TEXT.to_string()), stamp(0)).unwrap();
    (m, t)
}

fn number(m: &Message, k: &str) -> Option<i32> {
    match m.values.get(&k.to_string()) {
        Some(FieldValue::Number(n)) => Some(*n),
        _ => None,
    }
}

#[test]
fn scenario_fixed_and_random_values() {
    let (base, mut t) = setup(&["topic:room-temp", "alert:true", "sensorA:fixed(42)", "sensorB:random(10,20)"]);
    for tick in 0..200 {
        let m = materialize(&base, &mut t, stamp(tick));
        assert_eq!(number(&m, "sensorA"), Some(42));
        let b = number(&m, "sensorB").unwrap();
        assert!((10..=20).contains(&b));
        assert_eq!(m.timestamp, stamp(tick));
        assert_eq!(m.topic, "room-temp");
        assert!(m.alert);
        assert_eq!(m.status, "OK");
    }
    assert_eq!(base.values.len(), 1);
}

#[test]
fn wrong_arity_random_is_skipped() {
    let (base, mut t) = setup(&["bogus:random(1)", "good:fixed(5)", "other:random(0,3)"]);
    let m = materialize(&base, &mut t, stamp(1));
    assert!(m.values.get(&"bogus".to_string()).is_none());
    assert_eq!(number(&m, "good"), Some(5));
    assert!((0..=3).contains(&number(&m, "other").unwrap()));
}

#[test]
fn empty_range_is_skipped() {
    let (base, mut t) = setup(&["down:random(5,1)"]);
    let m = materialize(&base, &mut t, stamp(1));
    assert!(m.values.get(&"down".to_string()).is_none());
}

#[test]
fn single_point_range_is_exact() {
    let (base, mut t) = setup(&["p:random(-3,-3)", "q:random(2147483647,2147483647)"]);
    let m = process_random_values(&base, &mut t);
    assert_eq!(number(&m, "p"), Some(-3));
    assert_eq!(number(&m, "q"), Some(i32::MAX));
}

#[test]
fn fixed_only_ticks_are_identical_and_base_unchanged() {
    let (base, mut t) = setup(&["a:fixed(1)", "b:fixed(-2)"]);
    let m1 = materialize(&base, &mut t, stamp(1));
    let m2 = materialize(&base, &mut t, stamp(2));
    assert_eq!(number(&m1, "a"), number(&m2, "a"));
    assert_eq!(number(&m1, "b"), Some(-2));
    assert_eq!(m1.values.len(), m2.values.len());
    assert_eq!(base.values.len(), 1);
    assert!(base.values.get(&"a".to_string()).is_none());
}

#[test]
fn fixed_pass_sets_in_place() {
    let (mut m, mut t) = setup(&["a:fixed(9)", "r:random(1,2)", "bad:fixed(x)"]);
    process_fixed_values(&mut m, &mut t);
    assert_eq!(number(&m, "a"), Some(9));
    assert!(m.values.get(&"r".to_string()).is_none());
    assert!(m.values.get(&"bad".to_string()).is_none());
}

#[test]
fn samples_are_applied_by_position() {
    let (base, t) = setup(&["x:random(0,100)", "y:fixed(1)"]);
    let m = apply_random_samples(&base, &t, &vec![77, 0]);
    assert_eq!(number(&m, "x"), Some(77));
    assert!(m.values.get(&"y".to_string()).is_none());
    let s = draw_samples(&t);
    assert_eq!(s.len(), 2);
    assert!((0..=100).contains(&s[0]));
}

#[test]
fn unprocessed_keys_are_reported_in_order() {
    let (_, t) = setup(&["bogus:random(1)", "good:fixed(5)", "bad:fixed(x)", "plain:hello", "down:random(4,2)"]);
    let keys = unprocessed_keys(&t);
    assert_eq!(keys, vec!["bogus".to_string(), "bad".to_string(), "down".to_string()]);
}
