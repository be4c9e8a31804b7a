//! Turning process arguments into the argument table, the base message, the
//! publish interval and the broker port.

use vstd::prelude::*;
use vstd::string::{StrSliceExecFns, StringExecFns};
use crate::interval::Interval;
use crate::message::{ArgTable, FieldValue, Message, Timestamp, Values, is_text, text_of};
use crate::text::{
    chars_of, find_char, find_in, lemma_find_char_bounds, parse_bool, parse_i32, parse_u64,
    spec_parse_bool, spec_parse_i32, spec_parse_u64,
};

verus! {

/// An argument that is not a `key:value` pair.
#[derive(Debug)]
pub enum ArgsError {
    InvalidTuple(String),
}

/// The device identity could not be resolved.
#[derive(Clone, Copy, Debug, PartialEq, Eq, Structural)]
pub enum BuildError {
    MissingDeviceUuid,
    InvalidDeviceUuid,
}

pub const DEFAULT_ALERT: bool = false;

pub const DEFAULT_MQTT_PORT: i32 = 1883;

pub const DEFAULT_INTERVAL_SECS: u64 = 60;

/// The string values of a table, seen as character sequences.
pub open spec fn text_view(m: Map<Seq<char>, String>) -> Map<Seq<char>, Seq<char>> {
    Map::new(|k: Seq<char>| m.contains_key(k), |k: Seq<char>| m[k]@)
}

pub open spec fn views(s: Seq<String>) -> Seq<Seq<char>> {
    s.map_values(|x: String| x@)
}

/// The value of `k` in `m`, or `d` where `k` is not a key.
pub open spec fn text_or(m: Map<Seq<char>, Seq<char>>, k: Seq<char>, d: Seq<char>) -> Seq<char> {
    if m.contains_key(k) {
        m[k]
    } else {
        d
    }
}

pub open spec fn spec_topic(m: Map<Seq<char>, Seq<char>>) -> Seq<char> {
    text_or(m, "topic"@, "temperatura"@)
}

pub open spec fn spec_location(m: Map<Seq<char>, Seq<char>>) -> Seq<char> {
    text_or(m, "location"@, "laboratorios-pesados"@)
}

pub open spec fn spec_status(m: Map<Seq<char>, Seq<char>>) -> Seq<char> {
    text_or(m, "status"@, "OK"@)
}

/// `alert` where it reads as a boolean, else `false`.
pub open spec fn spec_alert(m: Map<Seq<char>, Seq<char>>) -> bool {
    if m.contains_key("alert"@) && spec_parse_bool(m["alert"@]) is Some {
        spec_parse_bool(m["alert"@])->0
    } else {
        DEFAULT_ALERT
    }
}

/// `interval` in whole seconds where it reads as a `u64`, else sixty seconds.
pub open spec fn spec_interval(m: Map<Seq<char>, Seq<char>>) -> Interval {
    if m.contains_key("interval"@) && spec_parse_u64(m["interval"@]) is Some {
        Interval { secs: spec_parse_u64(m["interval"@])->0, nanos: 0 }
    } else {
        Interval { secs: DEFAULT_INTERVAL_SECS, nanos: 0 }
    }
}

/// `mqtt_port` where it reads as an `i32`, else 1883.
pub open spec fn spec_mqtt_port(m: Map<Seq<char>, Seq<char>>) -> i32 {
    if m.contains_key("mqtt_port"@) && spec_parse_i32(m["mqtt_port"@]) is Some {
        spec_parse_i32(m["mqtt_port"@])->0
    } else {
        DEFAULT_MQTT_PORT
    }
}

/// The first two `:`-separated parts of `s`, if it has a `:` at all.
pub open spec fn spec_tuple(s: Seq<char>) -> Option<(Seq<char>, Seq<char>)> {
    let p = find_char(s, ':', 0);
    if p >= s.len() {
        None
    } else {
        Some((s.subrange(0, p), s.subrange(p + 1, find_char(s, ':', p + 1))))
    }
}

pub open spec fn all_tuples(args: Seq<Seq<char>>) -> bool {
    forall|i: int| 0 <= i < args.len() ==> (#[trigger] spec_tuple(args[i])) is Some
}

/// The table that a list of `key:value` arguments gives; a later key wins.
pub open spec fn spec_table(args: Seq<Seq<char>>) -> Map<Seq<char>, Seq<char>>
    decreases args.len(),
{
    if args.len() == 0 {
        Map::empty()
    } else {
        let t = spec_tuple(args.last())->0;
        spec_table(args.drop_last()).insert(t.0, t.1)
    }
}

/// The configuration keys that building the base message takes out of the table.
pub open spec fn consumed(m: Map<Seq<char>, Seq<char>>) -> Map<Seq<char>, Seq<char>> {
    m.remove("topic"@).remove("location"@).remove("alert"@).remove("status"@)
}

/// `msg` is the base message that table `m` gives, for this device and time.
pub open spec fn assembled(
    m: Map<Seq<char>, Seq<char>>,
    device_uuid: u128,
    timestamp: Timestamp,
    msg: Message,
) -> bool {
    &&& msg.wf()
    &&& msg.topic@ == spec_topic(m)
    &&& msg.device_uuid == device_uuid
    &&& msg.timestamp == timestamp
    &&& msg.values@.dom() == set!["location"@]
    &&& is_text(msg.values@["location"@], spec_location(m))
    &&& msg.alert == spec_alert(m)
    &&& msg.status@ == spec_status(m)
}

/// What `uuid::Uuid::parse_str` reads from a string, as the UUID's 128 bits.
pub uninterp spec fn uuid_of(s: Seq<char>) -> Option<u128>;

/// Relies on `uuid::Uuid::parse_str` (through `Uuid::as_u128`) to read a UUID
/// in any of the textual forms that crate accepts; the outcome depends on the
/// text alone.
#[verifier::external_body]
fn parse_uuid(s: &str) -> (r: Option<u128>)
    ensures
        r == uuid_of(s@),
{
    match uuid::Uuid::parse_str(s) {
        Ok(u) => Some(u.as_u128()),
        Err(_) => None,
    }
}

/// The device identity from the text of the `DEVICE_UUID` variable, as read
/// by `uuid::Uuid::parse_str`: a missing variable and an unreadable one are
/// told apart.
pub fn device_uuid_from(parsed: Option<u128>, present: bool) -> (r: Result<u128, BuildError>)
    ensures
        !present ==> r == Err::<u128, BuildError>(BuildError::MissingDeviceUuid),
        present ==> r == match parsed {
            Some(u) => Ok::<u128, BuildError>(u),
            None => Err(BuildError::InvalidDeviceUuid),
        },
{
    if !present {
        return Err(BuildError::MissingDeviceUuid);
    }
    match parsed {
        Some(u) => Ok(u),
        None => Err(BuildError::InvalidDeviceUuid),
    }
}

/// The base message: the device identity is read from `device_uuid_var` (the
/// `DEVICE_UUID` variable, if set), the rest from the table as
/// `assemble_message` does. Without a readable identity nothing is built and
/// the table is left as it was.
pub fn build_message(value_map: &mut ArgTable, device_uuid_var: Option<String>, timestamp: Timestamp)
    -> (r: Result<Message, BuildError>)
    requires
        old(value_map).wf(),
    ensures
        final(value_map).wf(),
        device_uuid_var is None ==> r == Err::<Message, BuildError>(BuildError::MissingDeviceUuid)
            && final(value_map)@ == old(value_map)@,
        device_uuid_var matches Some(v) ==> match uuid_of(v@) {
            Some(u) => r matches Ok(msg) && assembled(text_view(old(value_map)@), u, timestamp, msg)
                && text_view(final(value_map)@) == consumed(text_view(old(value_map)@)),
            None => r == Err::<Message, BuildError>(BuildError::InvalidDeviceUuid)
                && final(value_map)@ == old(value_map)@,
        },
{
    let parsed = match &device_uuid_var {
        Some(v) => parse_uuid(v.as_str()),
        None => None,
    };
    match device_uuid_from(parsed, device_uuid_var.is_some()) {
        Ok(u) => Ok(assemble_message(value_map, u, timestamp)),
        Err(e) => Err(e),
    }
}

/// The publish interval: `interval` in whole seconds, or sixty seconds where
/// it is missing or not a `u64`.
pub fn build_duration(args: &ArgTable) -> (r: Interval)
    requires
        args.wf(),
    ensures
        r.wf(),
        r == spec_interval(text_view(args@)),
{
    let key = String::from_str("interval");
    match args.get(&key) {
        Some(dur) => match parse_u64(dur.as_str()) {
            Some(k) => Interval::from_secs(k),
            None => Interval::from_secs(DEFAULT_INTERVAL_SECS),
        },
        None => Interval::from_secs(DEFAULT_INTERVAL_SECS),
    }
}

/// The broker port: `mqtt_port` where it reads as an `i32`, else 1883.
pub fn mqtt_port(args: &ArgTable) -> (r: i32)
    requires
        args.wf(),
    ensures
        r == spec_mqtt_port(text_view(args@)),
{
    let key = String::from_str("mqtt_port");
    match args.get(&key) {
        Some(k) => match parse_i32(k.as_str()) {
            Some(p) => p,
            None => DEFAULT_MQTT_PORT,
        },
        None => DEFAULT_MQTT_PORT,
    }
}

/// Building the base message twice from the same table gives the same topic,
/// status, alert and location.
pub proof fn lemma_build_twice(
    m: Map<Seq<char>, Seq<char>>,
    u1: u128,
    u2: u128,
    t1: Timestamp,
    t2: Timestamp,
    msg1: Message,
    msg2: Message,
)
    requires
        assembled(m, u1, t1, msg1),
        assembled(m, u2, t2, msg2),
    ensures
        msg1.topic@ == msg2.topic@,
        msg1.status@ == msg2.status@,
        msg1.alert == msg2.alert,
        text_of(msg1.values@["location"@]) == text_of(msg2.values@["location"@]),
        text_of(msg1.values@["location"@]) == Some(spec_location(m)),
{
}

/// The configuration keys differ from one another.
pub proof fn lemma_config_keys_distinct()
    ensures
        "topic"@ != "location"@,
        "topic"@ != "alert"@,
        "topic"@ != "status"@,
        "location"@ != "alert"@,
        "location"@ != "status"@,
        "alert"@ != "status"@,
{
    reveal_strlit("topic");
    reveal_strlit("location");
    reveal_strlit("alert");
    reveal_strlit("status");
    assert("topic"@.len() != "location"@.len());
    assert("topic"@[0] != "alert"@[0]);
    assert("topic"@.len() != "status"@.len());
    assert("location"@.len() != "alert"@.len());
    assert("location"@.len() != "status"@.len());
    assert("alert"@.len() != "status"@.len());
}

/// Splits a `key:value` argument; the value ends at a second `:`, if any.
pub fn build_tuples(k: &String) -> (r: Result<(String, String), ArgsError>)
    ensures
        r is Ok <==> spec_tuple(k@) is Some,
        r matches Ok(t) ==> (t.0@, t.1@) == spec_tuple(k@)->0,
{
    let s = k.as_str();
    let cs = chars_of(s);
    let n = cs.len();
    assert(cs@.subrange(0, n as int) =~= k@);
    let p = find_in(&cs, ':', 0, n, 0);
    proof {
        lemma_find_char_bounds(k@, ':', 0);
    }
    if p >= n {
        return Err(ArgsError::InvalidTuple(k.clone()));
    }
    let q = find_in(&cs, ':', 0, n, p + 1);
    proof {
        lemma_find_char_bounds(k@, ':', p + 1);
    }
    let key = String::from_str(s.substring_char(0, p));
    let value = String::from_str(s.substring_char(p + 1, q));
    Ok((key, value))
}

/// The argument table from a list of `key:value` arguments; any argument
/// without a `:` rejects the whole list.
pub fn process_args(args: &Vec<String>) -> (r: Result<ArgTable, ArgsError>)
    ensures
        r is Ok <==> all_tuples(views(args@)),
        r matches Ok(t) ==> t.wf() && text_view(t@) == spec_table(views(args@)),
{
    let ghost a = views(args@);
    let mut result = ArgTable::new();
    assert(text_view(result@) =~= spec_table(a.take(0)));
    let mut i: usize = 0;
    while i < args.len()
        invariant
            a == views(args@),
            i <= args@.len(),
            result.wf(),
            text_view(result@) == spec_table(a.take(i as int)),
            forall|j: int| 0 <= j < i ==> (#[trigger] spec_tuple(a[j])) is Some,
        decreases args.len() - i,
    {
        assert(a[i as int] == args@[i as int]@);
        match build_tuples(&args[i]) {
            Ok((key, value)) => {
                let ghost kv = key@;
                let ghost vv = value@;
                let ghost before = result@;
                result.insert(key, value);
                proof {
                    let t = a.take(i + 1);
                    assert(t.drop_last() =~= a.take(i as int));
                    assert(t.last() == a[i as int]);
                    assert(text_view(result@) =~= text_view(before).insert(kv, vv));
                }
            },
            Err(e) => {
                return Err(e);
            },
        }
        i += 1;
    }
    assert(a.take(args@.len() as int) =~= a);
    Ok(result)
}

/// The base message from the argument table, for a known device identity and
/// creation time. Takes `topic`, `location`, `alert` and `status` out of the
/// table, whether or not their values were usable.
pub fn assemble_message(value_map: &mut ArgTable, device_uuid: u128, timestamp: Timestamp) -> (r:
    Message)
    requires
        old(value_map).wf(),
    ensures
        final(value_map).wf(),
        text_view(final(value_map)@) == consumed(text_view(old(value_map)@)),
        assembled(text_view(old(value_map)@), device_uuid, timestamp, r),
{
    let ghost m = text_view(value_map@);
    proof {
        lemma_config_keys_distinct();
    }
    let topic_key = String::from_str("topic");
    let topic = match value_map.get(&topic_key) {
        Some(s) => s.clone(),
        None => String::from_str("temperatura"),
    };
    value_map.remove(&topic_key);
    assert(text_view(value_map@) =~= m.remove("topic"@));

    let location_key = String::from_str("location");
    let location = match value_map.get(&location_key) {
        Some(s) => s.clone(),
        None => String::from_str("laboratorios-pesados"),
    };
    let ghost loc_view = location@;
    let ghost m1 = text_view(value_map@);
    value_map.remove(&location_key);
    assert(text_view(value_map@) =~= m1.remove("location"@));

    let mut values = Values::new();
    values.insert(String::from_str("location"), FieldValue::Text(location));
    assert(values@.dom() =~= set!["location"@]);

    let alert_key = String::from_str("alert");
    let alert = match value_map.get(&alert_key) {
        Some(b) => match parse_bool(b.as_str()) {
            Some(k) => k,
            None => DEFAULT_ALERT,
        },
        None => DEFAULT_ALERT,
    };
    let ghost m2 = text_view(value_map@);
    value_map.remove(&alert_key);
    assert(text_view(value_map@) =~= m2.remove("alert"@));

    let status_key = String::from_str("status");
    let status = match value_map.get(&status_key) {
        Some(k) => k.clone(),
        None => String::from_str("OK"),
    };
    let ghost m3 = text_view(value_map@);
    value_map.remove(&status_key);
    assert(text_view(value_map@) =~= m3.remove("status"@));

    Message { topic, device_uuid, timestamp, values, alert, status }
}

} // verus!
