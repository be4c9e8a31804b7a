//! The value injector: one materialized message per tick, from the base
//! message and the argument table.

use vstd::prelude::*;
use crate::expression::{ValueType, spec_value_type};
use crate::message::{ArgTable, FieldValue, Message, Timestamp};
use crate::table::keys_distinct;
use crate::text::{contains_seq, contains_str};

verus! {

/// `random(A,B)` with `A <= B`: the ranges that can be sampled.
pub open spec fn random_range(text: Seq<char>) -> Option<(i32, i32)> {
    match spec_value_type(text) {
        Ok(ValueType::Random(a, b)) => if a <= b {
            Some((a, b))
        } else {
            None
        },
        _ => None,
    }
}

/// What one table entry sets in a message: in the random pass the drawn
/// `sample` for a samplable `random(A,B)`, in the fixed pass `N` for `fixed(N)`.
pub open spec fn update_of(text: Seq<char>, sample: i32, random: bool) -> Option<FieldValue> {
    if random {
        match random_range(text) {
            Some(_) => Some(FieldValue::Number(sample)),
            None => None,
        }
    } else {
        match spec_value_type(text) {
            Ok(ValueType::Fixed(n)) => Some(FieldValue::Number(n)),
            _ => None,
        }
    }
}

/// The fields after one pass over the entries `s`, in order; entry `i` of the
/// random pass uses `samples[i]`.
pub open spec fn pass(
    vals: Map<Seq<char>, FieldValue>,
    s: Seq<(Seq<char>, String)>,
    samples: Seq<i32>,
    random: bool,
) -> Map<Seq<char>, FieldValue>
    decreases s.len(),
{
    if s.len() == 0 {
        vals
    } else {
        let prev = pass(vals, s.drop_last(), samples, random);
        match update_of(s.last().1@, samples[s.len() - 1], random) {
            Some(v) => prev.insert(s.last().0, v),
            None => prev,
        }
    }
}

pub open spec fn fixed_pass(vals: Map<Seq<char>, FieldValue>, s: Seq<(Seq<char>, String)>) -> Map<
    Seq<char>,
    FieldValue,
> {
    pass(vals, s, Seq::empty(), false)
}

/// `samples` has one value per entry, and the value of each samplable
/// `random(A,B)` entry lies in `[A, B]`.
pub open spec fn samples_fit(s: Seq<(Seq<char>, String)>, samples: Seq<i32>) -> bool {
    &&& samples.len() == s.len()
    &&& forall|i: int| 0 <= i < s.len() ==> in_range(#[trigger] random_range(s[i].1@), samples[i])
}

/// `v` lies in the range, if there is one.
pub open spec fn in_range(r: Option<(i32, i32)>, v: i32) -> bool {
    match r {
        Some((a, b)) => a <= v <= b,
        None => true,
    }
}

/// `v` is a number in `[a, b]`.
pub open spec fn number_in(v: FieldValue, a: i32, b: i32) -> bool {
    match v {
        FieldValue::Number(x) => a <= x <= b,
        FieldValue::Text(_) => false,
    }
}

/// An entry whose value names an expression kind that the passes then do
/// not apply: it mentions `fixed` but is no `fixed(N)`, or mentions `random`
/// but is no samplable `random(A,B)`.
pub open spec fn unapplied(text: Seq<char>) -> bool {
    (contains_seq(text, "fixed"@) && !(spec_value_type(text) matches Ok(ValueType::Fixed(_))))
        || (contains_seq(text, "random"@) && random_range(text) is None)
}

/// The keys of the unapplied entries, in table order.
pub open spec fn unapplied_keys(s: Seq<(Seq<char>, String)>) -> Seq<Seq<char>>
    decreases s.len(),
{
    if s.len() == 0 {
        Seq::empty()
    } else if unapplied(s.last().1@) {
        unapplied_keys(s.drop_last()).push(s.last().0)
    } else {
        unapplied_keys(s.drop_last())
    }
}

/// The keys that a tick cannot materialize from their expressions, for the
/// caller to warn about.
pub fn unprocessed_keys(args: &ArgTable) -> (r: Vec<String>)
    ensures
        r@.map_values(|k: String| k@) == unapplied_keys(args.pairs()),
{
    let ghost s = args.pairs();
    let mut r: Vec<String> = Vec::new();
    let mut i: usize = 0;
    assert(r@.map_values(|k: String| k@) =~= unapplied_keys(s.take(0)));
    while i < args.len()
        invariant
            s == args.pairs(),
            i <= s.len(),
            r@.map_values(|k: String| k@) == unapplied_keys(s.take(i as int)),
        decreases s.len() - i,
    {
        let ghost t = s.take(i + 1);
        assert(t.drop_last() =~= s.take(i as int));
        assert(t.last() == s[i as int]);
        let text = args.value_at(i).as_str();
        let parsed = ValueType::from_str(text);
        let bad_fixed = contains_str(text, "fixed") && !(match parsed {
            Ok(ValueType::Fixed(_)) => true,
            _ => false,
        });
        let bad_random = contains_str(text, "random") && !(match parsed {
            Ok(ValueType::Random(a, b)) => a <= b,
            _ => false,
        });
        let ghost before = r@;
        assert(text@ == s[i as int].1@);
        assert((bad_fixed || bad_random) == unapplied(s[i as int].1@));
        if bad_fixed || bad_random {
            r.push(args.key_at(i).clone());
            assert(r@.map_values(|k: String| k@) =~= before.map_values(|k: String| k@).push(
                s[i as int].0,
            ));
        }
        i += 1;
    }
    assert(s.take(s.len() as int) =~= s);
    r
}

/// All but the fields are the same.
pub open spec fn same_header(a: Message, b: Message) -> bool {
    &&& a.topic == b.topic
    &&& a.device_uuid == b.device_uuid
    &&& a.timestamp == b.timestamp
    &&& a.alert == b.alert
    &&& a.status == b.status
}

/// `m` is what one tick makes of `base` at time `now`: the random pass with
/// some fitting samples, then the fixed pass, then the time stamp.
pub open spec fn materialized(base: Message, args: ArgTable, now: Timestamp, m: Message) -> bool {
    &&& m.wf()
    &&& m.topic == base.topic
    &&& m.device_uuid == base.device_uuid
    &&& m.alert == base.alert
    &&& m.status == base.status
    &&& m.timestamp == now
    &&& exists|samples: Seq<i32>|
        samples_fit(args.pairs(), samples) && m.values@ == fixed_pass(
            #[trigger] pass(base.values@, args.pairs(), samples, true),
            args.pairs(),
        )
}

/// A pass leaves the fields of a key alone when no entry of that key sets anything.
pub proof fn lemma_pass_untouched(
    vals: Map<Seq<char>, FieldValue>,
    s: Seq<(Seq<char>, String)>,
    samples: Seq<i32>,
    random: bool,
    k: Seq<char>,
)
    requires
        forall|i: int|
            0 <= i < s.len() && s[i].0 == k ==> (#[trigger] update_of(
                s[i].1@,
                samples[i],
                random,
            )) is None,
    ensures
        pass(vals, s, samples, random).contains_key(k) == vals.contains_key(k),
        vals.contains_key(k) ==> pass(vals, s, samples, random)[k] == vals[k],
    decreases s.len(),
{
    if s.len() > 0 {
        let t = s.drop_last();
        assert forall|i: int|
            0 <= i < t.len() && t[i].0 == k implies (#[trigger] update_of(
                t[i].1@,
                samples[i],
                random,
            )) is None by {
            assert(t[i] == s[i]);
        }
        lemma_pass_untouched(vals, t, samples, random, k);
        let n = s.len() - 1;
        if s[n].0 == k {
            assert(update_of(s[n].1@, samples[n], random) is None);
        }
    }
}

/// Where keys are distinct, the entry of a key decides what a pass sets for it.
pub proof fn lemma_pass_hit(
    vals: Map<Seq<char>, FieldValue>,
    s: Seq<(Seq<char>, String)>,
    samples: Seq<i32>,
    random: bool,
    i: int,
)
    requires
        keys_distinct(s),
        0 <= i < s.len(),
        update_of(s[i].1@, samples[i], random) is Some,
    ensures
        pass(vals, s, samples, random).contains_key(s[i].0),
        pass(vals, s, samples, random)[s[i].0] == update_of(s[i].1@, samples[i], random)->0,
    decreases s.len(),
{
    let n = s.len() - 1;
    if i < n {
        let t = s.drop_last();
        assert(t[i] == s[i]);
        assert(keys_distinct(t)) by {
            assert forall|a: int, b: int| 0 <= a < b < t.len() implies t[a].0 != t[b].0 by {
                assert(t[a] == s[a] && t[b] == s[b]);
            }
        }
        lemma_pass_hit(vals, t, samples, random, i);
        assert(s[i].0 != s[n].0);
    }
}

/// Relies on `rand::Rng::gen_range` over `thread_rng()`: a value drawn from
/// `[min, max]`, both ends included (it panics on an empty range).
#[verifier::external_body]
fn sample_inclusive(min: i32, max: i32) -> (r: i32)
    requires
        min <= max,
    ensures
        min <= r <= max,
{
    rand::Rng::gen_range(&mut rand::thread_rng(), min..=max)
}

/// One sample per entry of the table: a fresh draw from `[A, B]` for each
/// samplable `random(A,B)`, zero for the others.
pub fn draw_samples(args: &ArgTable) -> (r: Vec<i32>)
    ensures
        samples_fit(args.pairs(), r@),
{
    let mut r: Vec<i32> = Vec::new();
    let mut i: usize = 0;
    while i < args.len()
        invariant
            i <= args.pairs().len(),
            r@.len() == i,
            forall|j: int| 0 <= j < i ==> in_range(#[trigger] random_range(args.pairs()[j].1@), r@[j]),
        decreases args.pairs().len() - i,
    {
        let sample = match ValueType::from_str(args.value_at(i).as_str()) {
            Ok(ValueType::Random(min, max)) => if min <= max {
                sample_inclusive(min, max)
            } else {
                0
            },
            _ => 0,
        };
        r.push(sample);
        i += 1;
    }
    r
}

/// The base message with every samplable `random(A,B)` entry set to its
/// sample; `samples[i]` belongs to entry `i` of the table.
pub fn apply_random_samples(message: &Message, args: &ArgTable, samples: &Vec<i32>) -> (r: Message)
    requires
        message.wf(),
        args.wf(),
        samples@.len() == args.pairs().len(),
    ensures
        r.wf(),
        same_header(r, *message),
        r.values@ == pass(message.values@, args.pairs(), samples@, true),
{
    let mut new_message = message.clone();
    let ghost s = args.pairs();
    let mut i: usize = 0;
    assert(s.take(0) =~= Seq::<(Seq<char>, String)>::empty());
    while i < args.len()
        invariant
            s == args.pairs(),
            samples@.len() == s.len(),
            i <= s.len(),
            new_message.wf(),
            same_header(new_message, *message),
            new_message.values@ == pass(message.values@, s.take(i as int), samples@, true),
        decreases s.len() - i,
    {
        let ghost t = s.take(i + 1);
        assert(t.drop_last() =~= s.take(i as int));
        assert(t.last() == s[i as int]);
        match ValueType::from_str(args.value_at(i).as_str()) {
            Ok(ValueType::Random(min, max)) => {
                if min <= max {
                    let key = args.key_at(i).clone();
                    new_message.values.insert(key, FieldValue::Number(samples[i]));
                }
            },
            _ => {},
        }
        i += 1;
    }
    assert(s.take(s.len() as int) =~= s);
    new_message
}

/// A copy of the base message with every samplable `random(A,B)` entry set to
/// a value drawn from `[A, B]`; an entry that does not parse, or whose range
/// is empty, is left out. The base message is not changed.
pub fn process_random_values(message: &Message, args: &mut ArgTable) -> (r: Message)
    requires
        message.wf(),
        old(args).wf(),
    ensures
        *final(args) == *old(args),
        r.wf(),
        same_header(r, *message),
        exists|samples: Seq<i32>|
            samples_fit(old(args).pairs(), samples) && r.values@ == #[trigger] pass(
                message.values@,
                old(args).pairs(),
                samples,
                true,
            ),
{
    let samples = draw_samples(args);
    let r = apply_random_samples(message, args, &samples);
    assert(samples_fit(args.pairs(), samples@) && r.values@ == pass(
        message.values@,
        args.pairs(),
        samples@,
        true,
    ));
    r
}

/// Sets every `fixed(N)` entry of the table to `N` in the message; an entry
/// that does not parse is left out.
pub fn process_fixed_values(message: &mut Message, args: &mut ArgTable)
    requires
        old(message).wf(),
        old(args).wf(),
    ensures
        *final(args) == *old(args),
        final(message).wf(),
        same_header(*final(message), *old(message)),
        final(message).values@ == fixed_pass(old(message).values@, old(args).pairs()),
{
    let ghost s = args.pairs();
    let ghost orig = message.values@;
    let mut i: usize = 0;
    assert(s.take(0) =~= Seq::<(Seq<char>, String)>::empty());
    while i < args.len()
        invariant
            s == args.pairs(),
            i <= s.len(),
            message.wf(),
            same_header(*message, *old(message)),
            message.values@ == pass(orig, s.take(i as int), Seq::empty(), false),
        decreases s.len() - i,
    {
        let ghost t = s.take(i + 1);
        assert(t.drop_last() =~= s.take(i as int));
        assert(t.last() == s[i as int]);
        match ValueType::from_str(args.value_at(i).as_str()) {
            Ok(ValueType::Fixed(k)) => {
                let key = args.key_at(i).clone();
                message.values.insert(key, FieldValue::Number(k));
            },
            _ => {},
        }
        i += 1;
    }
    assert(s.take(s.len() as int) =~= s);
}

/// One tick's message: the random pass, then the fixed pass, then the time stamp.
pub fn materialize(base: &Message, args: &mut ArgTable, now: Timestamp) -> (r: Message)
    requires
        base.wf(),
        old(args).wf(),
    ensures
        *final(args) == *old(args),
        materialized(*base, *final(args), now, r),
{
    let mut message = process_random_values(base, args);
    process_fixed_values(&mut message, args);
    message.timestamp = now;
    message
}

} // verus!

verus! {

/// A pass in which no entry sets anything leaves the fields as they were.
pub proof fn lemma_pass_none(
    vals: Map<Seq<char>, FieldValue>,
    s: Seq<(Seq<char>, String)>,
    samples: Seq<i32>,
    random: bool,
)
    requires
        forall|i: int| 0 <= i < s.len() ==> (#[trigger] update_of(s[i].1@, samples[i], random)) is None,
    ensures
        pass(vals, s, samples, random) == vals,
    decreases s.len(),
{
    if s.len() > 0 {
        let t = s.drop_last();
        assert forall|i: int| 0 <= i < t.len() implies (#[trigger] update_of(
            t[i].1@,
            samples[i],
            random,
        )) is None by {
            assert(t[i] == s[i]);
        }
        lemma_pass_none(vals, t, samples, random);
        assert(update_of(s[s.len() - 1].1@, samples[s.len() - 1], random) is None);
    }
}

/// In every materialized message, each entry of the table shows as follows:
/// `fixed(N)` as exactly `N`; `random(A,B)` with `A <= B` as a number in
/// `[A, B]`; an entry that parses as neither is absent unless the base
/// message already had that field.
pub proof fn lemma_materialized_fields(
    base: Message,
    args: ArgTable,
    now: Timestamp,
    m: Message,
    i: int,
)
    requires
        args.wf(),
        materialized(base, args, now, m),
        0 <= i < args.pairs().len(),
    ensures
        spec_value_type(args.pairs()[i].1@) matches Ok(ValueType::Fixed(n)) ==> m.values@.contains_key(
            args.pairs()[i].0,
        ) && m.values@[args.pairs()[i].0] == FieldValue::Number(n),
        random_range(args.pairs()[i].1@) matches Some((a, b)) ==> (m.values@.contains_key(
            args.pairs()[i].0,
        ) && number_in(m.values@[args.pairs()[i].0], a, b)),
        spec_value_type(args.pairs()[i].1@) is Err && !base.values@.contains_key(args.pairs()[i].0)
            ==> !m.values@.contains_key(args.pairs()[i].0),
{
    let s = args.pairs();
    let k = s[i].0;
    let text = s[i].1@;
    let samples = choose|samples: Seq<i32>|
        samples_fit(s, samples) && m.values@ == fixed_pass(
            #[trigger] pass(base.values@, s, samples, true),
            s,
        );
    let mid = pass(base.values@, s, samples, true);
    let none: Seq<i32> = Seq::empty();
    // Only entry `i` has key `k`.
    assert forall|j: int| 0 <= j < s.len() && s[j].0 == k implies j == i by {
        if j < i {
            assert(s[j].0 != s[i].0);
        } else if j > i {
            assert(s[i].0 != s[j].0);
        }
    }
    match spec_value_type(text) {
        Ok(ValueType::Fixed(n)) => {
            assert(update_of(s[i].1@, none[i], false) == Some(FieldValue::Number(n)));
            lemma_pass_hit(mid, s, none, false, i);
        },
        Ok(ValueType::Random(a, b)) => {
            if a <= b {
                assert(in_range(random_range(s[i].1@), samples[i]));
                lemma_pass_hit(base.values@, s, samples, true, i);
                assert(update_of(s[i].1@, none[i], false) is None);
                lemma_pass_untouched(mid, s, none, false, k);
            }
        },
        Err(_) => {
            assert(update_of(s[i].1@, samples[i], true) is None);
            assert(update_of(s[i].1@, none[i], false) is None);
            lemma_pass_untouched(base.values@, s, samples, true, k);
            lemma_pass_untouched(mid, s, none, false, k);
        },
    }
}

/// Without a samplable `random(A,B)` entry, two ticks from the same base
/// message and table give the same fields; what tells them apart is only the
/// time stamp. The base message itself is only read.
pub proof fn lemma_fixed_only_identical(
    base: Message,
    args: ArgTable,
    now1: Timestamp,
    now2: Timestamp,
    m1: Message,
    m2: Message,
)
    requires
        forall|i: int| 0 <= i < args.pairs().len() ==> (#[trigger] random_range(args.pairs()[i].1@)) is None,
        materialized(base, args, now1, m1),
        materialized(base, args, now2, m2),
    ensures
        m1.values@ == m2.values@,
        m1.topic == m2.topic,
        m1.device_uuid == m2.device_uuid,
        m1.alert == m2.alert,
        m1.status == m2.status,
{
    let s = args.pairs();
    let s1 = choose|samples: Seq<i32>|
        samples_fit(s, samples) && m1.values@ == fixed_pass(
            #[trigger] pass(base.values@, s, samples, true),
            s,
        );
    let s2 = choose|samples: Seq<i32>|
        samples_fit(s, samples) && m2.values@ == fixed_pass(
            #[trigger] pass(base.values@, s, samples, true),
            s,
        );
    assert forall|i: int| 0 <= i < s.len() implies (#[trigger] update_of(s[i].1@, s1[i], true)) is None by {
        assert(random_range(s[i].1@) is None);
    }
    assert forall|i: int| 0 <= i < s.len() implies (#[trigger] update_of(s[i].1@, s2[i], true)) is None by {
        assert(random_range(s[i].1@) is None);
    }
    lemma_pass_none(base.values@, s, s1, true);
    lemma_pass_none(base.values@, s, s2, true);
}

/// A tick keeps the device identity of the base message, so the identity
/// that the control plane reports never changes with ticks.
pub proof fn lemma_identity_stable(base: Message, args: ArgTable, now: Timestamp, m: Message)
    requires
        materialized(base, args, now, m),
    ensures
        m.device_uuid == base.device_uuid,
        crate::control::spec_device_reply(m) == crate::control::spec_device_reply(base),
{
}

} // verus!
