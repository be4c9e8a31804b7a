//! The telemetry message and the plain values it is made of.

use vstd::prelude::*;
use crate::table::KeyedVec;
use vstd::pervasive::strictly_cloned;

verus! {

/// A telemetry field: a number from a value expression, or text.
#[derive(Debug)]
pub enum FieldValue {
    Number(i32),
    Text(String),
}

impl Clone for FieldValue {
    fn clone(&self) -> (r: Self)
        ensures
            r == *self,
    {
        match self {
            FieldValue::Number(n) => FieldValue::Number(*n),
            FieldValue::Text(s) => FieldValue::Text(s.clone()),
        }
    }
}

/// `v` is the text `s`.
pub open spec fn is_text(v: FieldValue, s: Seq<char>) -> bool {
    match v {
        FieldValue::Text(t) => t@ == s,
        FieldValue::Number(_) => false,
    }
}

/// The text of `v`, if it is text.
pub open spec fn text_of(v: FieldValue) -> Option<Seq<char>> {
    match v {
        FieldValue::Text(t) => Some(t@),
        FieldValue::Number(_) => None,
    }
}

/// An instant, as seconds and nanoseconds since the Unix epoch, with the
/// fixed UTC offset (in seconds) it is shown in.
#[derive(Clone, Copy, Debug, PartialEq, Eq, Structural)]
pub struct Timestamp {
    pub unix_secs: i64,
    pub nanos: u32,
    pub offset_secs: i32,
}

/// The string-keyed fields of a message.
pub type Values = KeyedVec<FieldValue>;

/// The argument table: string keys to string values.
pub type ArgTable = KeyedVec<String>;

/// The unit published to the broker.
#[derive(Debug)]
pub struct Message {
    pub topic: String,
    pub device_uuid: u128,
    pub timestamp: Timestamp,
    pub values: Values,
    pub alert: bool,
    pub status: String,
}

impl Message {
    pub open spec fn wf(&self) -> bool {
        self.values.wf()
    }
}

impl Clone for Message {
    fn clone(&self) -> (r: Self)
        ensures
            r.topic == self.topic,
            r.device_uuid == self.device_uuid,
            r.timestamp == self.timestamp,
            r.values.pairs() == self.values.pairs(),
            r.values@ == self.values@,
            r.alert == self.alert,
            r.status == self.status,
    {
        let values = self.values.clone();
        assert forall|i: int| 0 <= i < self.values.pairs().len() implies values.pairs()[i]
            == self.values.pairs()[i] by {
            let a = self.values.pairs()[i].1;
            let b = values.pairs()[i].1;
            assert(cloned::<FieldValue>(a, b));
            if strictly_cloned::<FieldValue>(a, b) {
                assert(call_ensures(FieldValue::clone, (&a,), b));
            }
        }
        assert(values.pairs() =~= self.values.pairs());
        Message {
            topic: self.topic.clone(),
            device_uuid: self.device_uuid,
            timestamp: self.timestamp,
            values,
            alert: self.alert,
            status: self.status.clone(),
        }
    }
}

} // verus!
