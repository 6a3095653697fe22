//! The structured values that templates are rendered against.
use crate::error::{Error, ValueKind};
use crate::table::{find_entry, lookup, lemma_first_index_bounds};
use vstd::prelude::*;

verus! {

/// A dynamically typed value. A number is held as its decimal text, which is
/// what rendering prints of it; the fields of an object are looked up by the
/// first entry of a name.
#[derive(Debug)]
pub enum Value {
    Null,
    Bool(bool),
    Number(String),
    String(String),
    Array(Vec<Value>),
    Object(Vec<(String, Value)>),
}

pub open spec fn kind_of(v: Value) -> ValueKind {
    match v {
        Value::Null => ValueKind::Null,
        Value::Bool(_) => ValueKind::Bool,
        Value::Number(_) => ValueKind::Number,
        Value::String(_) => ValueKind::String,
        Value::Array(_) => ValueKind::Array,
        Value::Object(_) => ValueKind::Object,
    }
}

/// Only `null` and `false` are false; every other value, empty ones included, is true.
pub open spec fn truthy(v: Value) -> bool {
    match v {
        Value::Null => false,
        Value::Bool(b) => b,
        _ => true,
    }
}

pub open spec fn is_digit(c: char) -> bool {
    '0' <= c && c <= '9'
}

/// The number that a string of decimal digits stands for.
pub open spec fn digits_value(s: Seq<char>) -> nat
    decreases s.len(),
{
    if s.len() == 0 {
        0
    } else {
        digits_value(s.drop_last()) * 10 + (s.last() as nat - '0' as nat) as nat
    }
}

/// A path segment made only of digits is an array index.
pub open spec fn segment_index(s: Seq<char>) -> Option<nat> {
    if s.len() > 0 && forall|i: int| 0 <= i < s.len() ==> is_digit(#[trigger] s[i]) {
        Some(digits_value(s))
    } else {
        None
    }
}

/// One step along a path: a field of an object, or an element of an array.
pub open spec fn step(v: Value, seg: String) -> Result<Value, Error> {
    match v {
        Value::Object(fields) => match lookup(fields@, seg@) {
            Some(w) => Ok(w),
            None => Err(Error::PathNotFound { segment: seg, kind: ValueKind::Object }),
        },
        Value::Array(items) => match segment_index(seg@) {
            Some(n) => if n < items@.len() {
                Ok(items@[n as int])
            } else {
                Err(Error::PathNotFound { segment: seg, kind: ValueKind::Array })
            },
            None => Err(Error::PathNotFound { segment: seg, kind: ValueKind::Array }),
        },
        _ => Err(Error::PathNotFound { segment: seg, kind: kind_of(v) }),
    }
}

/// The value reached from `v` by following every segment of `path` in turn.
pub open spec fn resolve_from(v: Value, path: Seq<String>) -> Result<Value, Error>
    decreases path.len(),
{
    if path.len() == 0 {
        Ok(v)
    } else {
        match step(v, path[0]) {
            Ok(w) => resolve_from(w, path.drop_first()),
            Err(e) => Err(e),
        }
    }
}

impl Value {
    pub fn kind(&self) -> (r: ValueKind)
        ensures
            r == kind_of(*self),
    {
        match self {
            Value::Null => ValueKind::Null,
            Value::Bool(_) => ValueKind::Bool,
            Value::Number(_) => ValueKind::Number,
            Value::String(_) => ValueKind::String,
            Value::Array(_) => ValueKind::Array,
            Value::Object(_) => ValueKind::Object,
        }
    }

    pub fn is_truthy(&self) -> (r: bool)
        ensures
            r == truthy(*self),
    {
        match self {
            Value::Null => false,
            Value::Bool(b) => *b,
            _ => true,
        }
    }
}

/// Reads `s` as an array index below `bound`: `None` where it is not made of
/// digits only, or stands for a number of at least `bound`.
fn parse_index(s: &Vec<char>, bound: usize) -> (r: Option<usize>)
    ensures
        r matches Some(n) ==> segment_index(s@) == Some(n as nat) && n < bound,
        r is None ==> !(segment_index(s@) matches Some(n) && n < bound),
{
    if s.len() == 0 || bound == 0 {
        return None;
    }
    let mut acc: usize = 0;
    let mut i: usize = 0;
    while i < s.len()
        invariant
            i <= s@.len(),
            acc < bound,
            acc == digits_value(s@.subrange(0, i as int)),
            forall|j: int| 0 <= j < i ==> is_digit(#[trigger] s@[j]),
        decreases s@.len() - i,
    {
        let c = s[i];
        if !('0' <= c && c <= '9') {
            return None;
        }
        assert(s@.subrange(0, i as int + 1).drop_last() == s@.subrange(0, i as int));
        let d = (c as u32 - '0' as u32) as u128;
        let next: u128 = acc as u128 * 10 + d;
        if next >= bound as u128 {
            proof {
                if segment_index(s@) is Some {
                    lemma_digits_grow(s@, i as int + 1);
                }
            }
            return None;
        }
        acc = next as usize;
        i = i + 1;
    }
    assert(s@.subrange(0, s@.len() as int) == s@);
    Some(acc)
}

/// A longer run of digits never stands for a smaller number.
proof fn lemma_digits_grow(s: Seq<char>, k: int)
    requires
        0 <= k <= s.len(),
        forall|j: int| 0 <= j < s.len() ==> is_digit(#[trigger] s[j]),
    ensures
        digits_value(s.subrange(0, k)) <= digits_value(s),
    decreases s.len() - k,
{
    if k < s.len() {
        lemma_digits_grow(s, k + 1);
        assert(s.subrange(0, k + 1).drop_last() == s.subrange(0, k));
    } else {
        assert(s.subrange(0, k) == s);
    }
}

/// One step along a path, as [`step`] says.
pub fn step_into<'a>(v: &'a Value, seg: &String) -> (r: Result<&'a Value, Error>)
    ensures
        match step(*v, *seg) {
            Ok(w) => r == Ok::<&Value, Error>(&w),
            Err(e) => r == Err::<&Value, Error>(e),
        },
{
    match v {
        Value::Object(fields) => match find_entry(fields, seg) {
            Some(i) => {
                proof {
                    lemma_first_index_bounds(fields@, seg@, fields@.len() as int);
                }
                Ok(&fields[i].1)
            },
            None => Err(Error::PathNotFound { segment: seg.clone(), kind: ValueKind::Object }),
        },
        Value::Array(items) => {
            let digits = crate::text::chars_of(seg.as_str());
            match parse_index(&digits, items.len()) {
                Some(n) => Ok(&items[n]),
                None => Err(Error::PathNotFound { segment: seg.clone(), kind: ValueKind::Array }),
            }
        },
        _ => Err(Error::PathNotFound { segment: seg.clone(), kind: v.kind() }),
    }
}

/// Follows the segments of `path` from the `from`-th on, starting at `v`, as
/// [`resolve_from`] says.
pub fn resolve_path<'a>(v: &'a Value, path: &Vec<String>, from: usize) -> (r: Result<&'a Value, Error>)
    requires
        from <= path@.len(),
    ensures
        match resolve_from(*v, path@.subrange(from as int, path@.len() as int)) {
            Ok(w) => r == Ok::<&Value, Error>(&w),
            Err(e) => r == Err::<&Value, Error>(e),
        },
{
    let mut cur: &Value = v;
    let mut i: usize = from;
    while i < path.len()
        invariant
            from <= i <= path@.len(),
            resolve_from(*v, path@.subrange(from as int, path@.len() as int)) == resolve_from(*cur, path@.subrange(i as int, path@.len() as int)),
        decreases path@.len() - i,
    {
        let ghost rest = path@.subrange(i as int, path@.len() as int);
        assert(rest.drop_first() == path@.subrange(i as int + 1, path@.len() as int));
        match step_into(cur, &path[i]) {
            Ok(w) => {
                cur = w;
            },
            Err(e) => {
                return Err(e);
            },
        }
        i = i + 1;
    }
    Ok(cur)
}

} // verus!
