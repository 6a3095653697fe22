//! The built-in formatters: plain text, and text escaped for HTML.
use crate::error::Error;
use crate::render::ValueFormatter;
use crate::text::{chars_of, push_str, string_of};
use crate::value::{kind_of, Value};
use vstd::prelude::*;

verus! {

/// What HTML escaping turns one character into.
pub open spec fn escape_char(c: char) -> Seq<char> {
    if c == '&' {
        seq!['&', 'a', 'm', 'p', ';']
    } else if c == '<' {
        seq!['&', 'l', 't', ';']
    } else if c == '>' {
        seq!['&', 'g', 't', ';']
    } else if c == '"' {
        seq!['&', 'q', 'u', 'o', 't', ';']
    } else if c == '\'' {
        seq!['&', '#', 'x', '2', '7', ';']
    } else {
        seq![c]
    }
}

/// `s` with each character escaped for HTML.
pub open spec fn escape(s: Seq<char>) -> Seq<char>
    decreases s.len(),
{
    if s.len() == 0 {
        Seq::empty()
    } else {
        escape(s.drop_last()) + escape_char(s.last())
    }
}

/// The text of a scalar value: nothing for `null`, `true` or `false`, a
/// number's digits and a string's characters. Arrays and objects have none.
pub open spec fn plain_text(v: Value) -> Result<Seq<char>, Error> {
    match v {
        Value::Null => Ok(Seq::empty()),
        Value::Bool(b) => Ok(
            if b {
                seq!['t', 'r', 'u', 'e']
            } else {
                seq!['f', 'a', 'l', 's', 'e']
            },
        ),
        Value::Number(n) => Ok(n@),
        Value::String(s) => Ok(s@),
        _ => Err(Error::Unprintable { kind: kind_of(v) }),
    }
}

/// The text of a scalar value with strings escaped for HTML.
pub open spec fn escaped_text(v: Value) -> Result<Seq<char>, Error> {
    match v {
        Value::String(s) => Ok(escape(s@)),
        _ => plain_text(v),
    }
}

/// Appends the text of `v`, as [`plain_text`] says.
pub fn format_unescaped(v: &Value, out: &mut String) -> (r: Result<(), Error>)
    ensures
        match plain_text(*v) {
            Ok(s) => r is Ok && final(out)@ == old(out)@ + s,
            Err(e) => r == Err::<(), Error>(e),
        },
{
    match v {
        Value::Null => {
            assert(out@ + Seq::<char>::empty() == out@);
            Ok(())
        },
        Value::Bool(b) => {
            if *b {
                push_str(out, "true");
                proof {
                    reveal_strlit("true");
                }
            } else {
                push_str(out, "false");
                proof {
                    reveal_strlit("false");
                }
            }
            Ok(())
        },
        Value::Number(n) => {
            push_str(out, n.as_str());
            Ok(())
        },
        Value::String(s) => {
            push_str(out, s.as_str());
            Ok(())
        },
        _ => Err(Error::Unprintable { kind: v.kind() }),
    }
}

/// Appends the text of `v` with strings escaped for HTML, as
/// [`escaped_text`] says.
pub fn format(v: &Value, out: &mut String) -> (r: Result<(), Error>)
    ensures
        match escaped_text(*v) {
            Ok(s) => r is Ok && final(out)@ == old(out)@ + s,
            Err(e) => r == Err::<(), Error>(e),
        },
{
    match v {
        Value::String(s) => {
            let chars = chars_of(s.as_str());
            let mut esc: Vec<char> = Vec::new();
            let mut i: usize = 0;
            while i < chars.len()
                invariant
                    i <= chars@.len(),
                    esc@ == escape(chars@.subrange(0, i as int)),
                decreases chars@.len() - i,
            {
                let c = chars[i];
                let mut rep: Vec<char> = if c == '&' {
                    vec!['&', 'a', 'm', 'p', ';']
                } else if c == '<' {
                    vec!['&', 'l', 't', ';']
                } else if c == '>' {
                    vec!['&', 'g', 't', ';']
                } else if c == '"' {
                    vec!['&', 'q', 'u', 'o', 't', ';']
                } else if c == '\'' {
                    vec!['&', '#', 'x', '2', '7', ';']
                } else {
                    vec![c]
                };
                assert(rep@ == escape_char(c));
                assert(chars@.subrange(0, i as int + 1).drop_last() == chars@.subrange(0, i as int));
                esc.append(&mut rep);
                i = i + 1;
            }
            assert(chars@.subrange(0, chars@.len() as int) == chars@);
            let text = string_of(&esc, 0, esc.len());
            assert(esc@.subrange(0, esc@.len() as int) == esc@);
            push_str(out, text.as_str());
            Ok(())
        },
        _ => format_unescaped(v, out),
    }
}

/// The built-in formatters.
#[derive(Clone, Copy, Debug, PartialEq, Eq, Structural)]
pub enum Builtin {
    /// Prints scalars, escaping strings for HTML.
    Escaped,
    /// Prints scalars as they are.
    Unescaped,
}

impl ValueFormatter for Builtin {
    open spec fn spec_format(&self, v: Value) -> Result<Seq<char>, Error> {
        match self {
            Builtin::Escaped => escaped_text(v),
            Builtin::Unescaped => plain_text(v),
        }
    }

    fn format(&self, v: &Value, out: &mut String) -> (r: Result<(), Error>) {
        match self {
            Builtin::Escaped => format(v, out),
            Builtin::Unescaped => format_unescaped(v, out),
        }
    }
}

} // verus!
