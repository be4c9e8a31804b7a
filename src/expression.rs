//! The value-expression language: `fixed(N)` and `random(MIN,MAX)`.

use vstd::prelude::*;
use crate::text::{
    chars_of, find_char, find_in, lemma_find_char_bounds, parse_i32_in, spec_parse_i32, trim,
    trim_bounds,
};

verus! {

/// A generator descriptor parsed from an argument value.
#[derive(Clone, Copy, Debug, PartialEq, Eq, Structural)]
pub enum ValueType {
    /// A value drawn uniformly from `[min, max]`, both ends included.
    Random(i32, i32),
    /// Always the same value.
    Fixed(i32),
}

pub open spec fn fixed_prefix() -> Seq<char> {
    seq!['f', 'i', 'x', 'e', 'd', '(']
}

pub open spec fn random_prefix() -> Seq<char> {
    seq!['r', 'a', 'n', 'd', 'o', 'm', '(']
}

/// `s` starts with `p` and ends with a closing parenthesis.
pub open spec fn wrapped_in(s: Seq<char>, p: Seq<char>) -> bool {
    s.len() > p.len() && s.subrange(0, p.len() as int) == p && s.last() == ')'
}

/// The arguments of `random(...)`: exactly two comma-separated integers, each
/// trimmed of surrounding whitespace.
pub open spec fn spec_random_args(t: Seq<char>) -> Result<ValueType, ()> {
    let p = find_char(t, ',', 0);
    if p >= t.len() || find_char(t, ',', p + 1) < t.len() {
        Err(())
    } else {
        match (
            spec_parse_i32(trim(t.subrange(0, p))),
            spec_parse_i32(trim(t.subrange(p + 1, t.len() as int))),
        ) {
            (Some(a), Some(b)) => Ok(ValueType::Random(a, b)),
            _ => Err(()),
        }
    }
}

/// The value expression that `s` spells, if any.
pub open spec fn spec_value_type(s: Seq<char>) -> Result<ValueType, ()> {
    if wrapped_in(s, fixed_prefix()) {
        match spec_parse_i32(s.subrange(6, s.len() - 1)) {
            Some(n) => Ok(ValueType::Fixed(n)),
            None => Err(()),
        }
    } else if wrapped_in(s, random_prefix()) {
        spec_random_args(s.subrange(7, s.len() - 1))
    } else {
        Err(())
    }
}

impl ValueType {
    /// Parses `fixed(N)` or `random(A,B)`; anything else is an error.
    pub fn from_str(s: &str) -> (r: Result<ValueType, ()>)
        ensures
            r == spec_value_type(s@),
    {
        let cs = chars_of(s);
        let n = cs.len();
        if n > 6 && cs[0] == 'f' && cs[1] == 'i' && cs[2] == 'x' && cs[3] == 'e' && cs[4] == 'd'
            && cs[5] == '(' && cs[n - 1] == ')' {
            assert(s@.subrange(0, 6) =~= fixed_prefix());
            let inner = parse_i32_in(&cs, 6, n - 1);
            return match inner {
                Some(v) => Ok(ValueType::Fixed(v)),
                None => Err(()),
            };
        }
        proof {
            if wrapped_in(s@, fixed_prefix()) {
                assert(s@.subrange(0, 6)[0] == s@[0]);
                assert(s@.subrange(0, 6)[1] == s@[1]);
                assert(s@.subrange(0, 6)[2] == s@[2]);
                assert(s@.subrange(0, 6)[3] == s@[3]);
                assert(s@.subrange(0, 6)[4] == s@[4]);
                assert(s@.subrange(0, 6)[5] == s@[5]);
            }
        }
        if n > 7 && cs[0] == 'r' && cs[1] == 'a' && cs[2] == 'n' && cs[3] == 'd' && cs[4] == 'o'
            && cs[5] == 'm' && cs[6] == '(' && cs[n - 1] == ')' {
            assert(s@.subrange(0, 7) =~= random_prefix());
            return Self::parse_random_args(&cs, 7, n - 1);
        }
        proof {
            if wrapped_in(s@, random_prefix()) {
                assert(s@.subrange(0, 7)[0] == s@[0]);
                assert(s@.subrange(0, 7)[1] == s@[1]);
                assert(s@.subrange(0, 7)[2] == s@[2]);
                assert(s@.subrange(0, 7)[3] == s@[3]);
                assert(s@.subrange(0, 7)[4] == s@[4]);
                assert(s@.subrange(0, 7)[5] == s@[5]);
                assert(s@.subrange(0, 7)[6] == s@[6]);
            }
        }
        Err(())
    }

    /// Parses the inside of `random(...)`, held in `cs[lo..hi]`.
    fn parse_random_args(cs: &Vec<char>, lo: usize, hi: usize) -> (r: Result<ValueType, ()>)
        requires
            lo <= hi <= cs@.len(),
        ensures
            r == spec_random_args(cs@.subrange(lo as int, hi as int)),
    {
        let ghost t = cs@.subrange(lo as int, hi as int);
        let p = find_in(cs, ',', lo, hi, lo);
        proof {
            lemma_find_char_bounds(t, ',', 0);
        }
        if p >= hi {
            return Err(());
        }
        let q = find_in(cs, ',', lo, hi, p + 1);
        if q < hi {
            return Err(());
        }
        let (a_lo, a_hi) = trim_bounds(cs, lo, p);
        let (b_lo, b_hi) = trim_bounds(cs, p + 1, hi);
        assert(cs@.subrange(lo as int, p as int) =~= t.subrange(0, p - lo));
        assert(cs@.subrange(p + 1, hi as int) =~= t.subrange(p - lo + 1, t.len() as int));
        let a = parse_i32_in(cs, a_lo, a_hi);
        let b = parse_i32_in(cs, b_lo, b_hi);
        match (a, b) {
            (Some(a), Some(b)) => Ok(ValueType::Random(a, b)),
            _ => Err(()),
        }
    }
}

/// A well-formed `fixed(N)` always reads back as `Fixed(N)`, a well-formed
/// `random(A,B)` as `Random(A,B)`.
pub proof fn lemma_well_formed_expressions(t: Seq<char>, a: Seq<char>, b: Seq<char>)
    ensures
        spec_parse_i32(t) is Some ==> spec_value_type(fixed_prefix() + t + seq![')'])
            == Ok::<ValueType, ()>(ValueType::Fixed(spec_parse_i32(t)->0)),
        (spec_parse_i32(trim(a)) is Some && spec_parse_i32(trim(b)) is Some && !a.contains(',')
            && !b.contains(',')) ==> spec_value_type(random_prefix() + a + seq![','] + b + seq![')'])
            == Ok::<ValueType, ()>(
            ValueType::Random(spec_parse_i32(trim(a))->0, spec_parse_i32(trim(b))->0),
        ),
{
    let f = fixed_prefix() + t + seq![')'];
    assert(f.subrange(0, 6) =~= fixed_prefix());
    assert(f.subrange(6, f.len() - 1) =~= t);
    let r = random_prefix() + a + seq![','] + b + seq![')'];
    assert(r.subrange(0, 7) =~= random_prefix());
    assert(r.subrange(0, 6) != fixed_prefix()) by {
        assert(r.subrange(0, 6)[0] == 'r');
    }
    let inner = r.subrange(7, r.len() - 1);
    assert(inner =~= a + seq![','] + b);
    if !a.contains(',') && !b.contains(',') {
        lemma_find_char_bounds(inner, ',', 0);
        assert(inner[a.len() as int] == ',');
        assert(find_char(inner, ',', 0) == a.len()) by {
            if find_char(inner, ',', 0) < a.len() {
                assert(a[find_char(inner, ',', 0)] == ',');
            }
        }
        lemma_find_char_bounds(inner, ',', a.len() as int + 1);
        let q = find_char(inner, ',', a.len() as int + 1);
        if q < inner.len() {
            assert(b[q - a.len() - 1] == ',');
        }
        assert(inner.subrange(0, a.len() as int) =~= a);
        assert(inner.subrange(a.len() as int + 1, inner.len() as int) =~= b);
    }
}

} // verus!
