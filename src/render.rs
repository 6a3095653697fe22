//! The renderer: executes compiled instructions against a value.
//!
//! An instruction pointer walks the list; branches and jumps only move it
//! forward. A loop's body, which lies between its `PushLoopScope` and the
//! `Iterate` and `PopLoopScope` that end it, is run once per element with
//! the loop variable bound in a new innermost scope frame, and the pointer
//! then goes on past the loop. Anything else is reported as a broken program
//! rather than run.
use crate::error::Error;
use crate::instruction::Instruction;
use crate::table::{find_entry, lookup, lemma_first_index_bounds};
use crate::text::{chars_of, push_str, string_from, string_of};
use crate::value::{resolve_from, resolve_path, truthy, kind_of, Value};
use vstd::prelude::*;

verus! {

/// A function that prints a value. Implementations print as `spec_format`
/// says: the text appended on success depends on the value alone.
pub trait ValueFormatter {
    spec fn spec_format(&self, v: Value) -> Result<Seq<char>, Error>;

    fn format(&self, v: &Value, out: &mut String) -> (r: Result<(), Error>)
        ensures
            match self.spec_format(*v) {
                Ok(s) => r is Ok && final(out)@ == old(out)@ + s,
                Err(e) => r == Err::<(), Error>(e),
            },
    ;
}

/// Text produced so far, followed by what the rest produces.
pub open spec fn prefixed(p: Seq<char>, r: Result<Seq<char>, Error>) -> Result<Seq<char>, Error> {
    match r {
        Ok(s) => Ok(p + s),
        Err(e) => Err(e),
    }
}

/// Runs two parts in order: the first error wins, else the texts are joined.
pub open spec fn join(a: Result<Seq<char>, Error>, b: Result<Seq<char>, Error>) -> Result<Seq<char>, Error> {
    match a {
        Ok(s) => prefixed(s, b),
        Err(e) => Err(e),
    }
}

/// The innermost loop binding named `name`.
pub open spec fn scope_lookup<'a>(frames: Seq<(String, &'a Value)>, name: Seq<char>) -> Option<&'a Value>
    decreases frames.len(),
{
    if frames.len() == 0 {
        None
    } else if frames.last().0@ == name {
        Some(frames.last().1)
    } else {
        scope_lookup(frames.drop_last(), name)
    }
}

/// A path resolved in the scope chain: its first segment names the innermost
/// loop binding of that name, or, where there is none, a field of the root.
pub open spec fn resolve(root: Value, frames: Seq<(String, &Value)>, path: Seq<String>) -> Result<Value, Error> {
    if path.len() > 0 {
        match scope_lookup(frames, path[0]@) {
            Some(v) => resolve_from(*v, path.drop_first()),
            None => resolve_from(root, path),
        }
    } else {
        resolve_from(root, path)
    }
}

/// The text of `v` passed through the formatters named by `names` from the
/// `i`-th on: each one's output is handed to the next as a string value. With
/// no name at all, the default formatter prints the value.
pub open spec fn format_chain<F: ValueFormatter>(
    default: F,
    named: Seq<(String, F)>,
    v: Value,
    names: Seq<String>,
    i: int,
) -> Result<Seq<char>, Error>
    decreases names.len() - i,
{
    if names.len() == 0 {
        default.spec_format(v)
    } else if i < 0 || i >= names.len() {
        Ok(Seq::empty())
    } else {
        match lookup(named, names[i]@) {
            None => Err(Error::UnknownFormatter { name: names[i] }),
            Some(f) => if i == names.len() - 1 {
                f.spec_format(v)
            } else {
                match f.spec_format(v) {
                    Ok(s) => format_chain(default, named, Value::String(string_from(s)), names, i + 1),
                    Err(e) => Err(e),
                }
            },
        }
    }
}

/// The output of the instructions from `pc` up to `end`, run in the scope `frames`.
pub open spec fn run_block<F: ValueFormatter>(
    prog: Seq<Instruction>,
    pc: int,
    end: int,
    root: Value,
    frames: Seq<(String, &Value)>,
    default: F,
    named: Seq<(String, F)>,
) -> Result<Seq<char>, Error>
    decreases end - pc, 0int, 0int,
{
    if pc < 0 || pc >= end || end > prog.len() {
        Ok(Seq::empty())
    } else {
        match prog[pc] {
            Instruction::Literal(s) => prefixed(s@, run_block(prog, pc + 1, end, root, frames, default, named)),
            Instruction::Value(path, names) => match resolve(root, frames, path@) {
                Ok(v) => join(
                    format_chain(default, named, v, names@, 0),
                    run_block(prog, pc + 1, end, root, frames, default, named),
                ),
                Err(e) => Err(e),
            },
            Instruction::Branch(path, t) => if t <= pc || t > end {
                Err(Error::BrokenProgram { pc: pc as usize })
            } else {
                match resolve(root, frames, path@) {
                    Ok(v) => if truthy(v) {
                        run_block(prog, pc + 1, end, root, frames, default, named)
                    } else {
                        run_block(prog, t as int, end, root, frames, default, named)
                    },
                    Err(e) => Err(e),
                }
            },
            Instruction::Jump(t) => if t <= pc || t > end {
                Err(Error::BrokenProgram { pc: pc as usize })
            } else {
                run_block(prog, t as int, end, root, frames, default, named)
            },
            Instruction::PushLoopScope(path, name, skip) => if !loop_shape(prog, pc, end, skip as int) {
                Err(Error::BrokenProgram { pc: pc as usize })
            } else {
                match resolve(root, frames, path@) {
                    Ok(Value::Array(items)) => join(
                        run_loop(prog, pc + 1, skip - 2, name, items@, 0, root, frames, default, named),
                        run_block(prog, skip as int, end, root, frames, default, named),
                    ),
                    Ok(v) => Err(Error::NotIterable { kind: kind_of(v) }),
                    Err(e) => Err(e),
                }
            },
            _ => Err(Error::BrokenProgram { pc: pc as usize }),
        }
    }
}

/// A loop that starts at `pc` and is skipped to `skip` ends with the
/// instructions that jump back to its body and close its scope.
pub open spec fn loop_shape(prog: Seq<Instruction>, pc: int, end: int, skip: int) -> bool {
    &&& pc + 3 <= skip <= end <= prog.len()
    &&& prog[skip - 2] == Instruction::Iterate((pc + 1) as usize)
    &&& prog[skip - 1] is PopLoopScope
}

/// The body from `start` to `stop`, run once for each of the items from the
/// `k`-th on, with `name` bound to the item.
pub open spec fn run_loop<F: ValueFormatter>(
    prog: Seq<Instruction>,
    start: int,
    stop: int,
    name: String,
    items: Seq<Value>,
    k: int,
    root: Value,
    frames: Seq<(String, &Value)>,
    default: F,
    named: Seq<(String, F)>,
) -> Result<Seq<char>, Error>
    decreases stop - start, 1int, items.len() - k,
{
    if k < 0 || k >= items.len() {
        Ok(Seq::empty())
    } else {
        join(
            run_block(prog, start, stop, root, frames.push((name, &items[k])), default, named),
            run_loop(prog, start, stop, name, items, k + 1, root, frames, default, named),
        )
    }
}


/// Finds the innermost loop binding named `name`.
fn scope_find<'a>(frames: &Vec<(String, &'a Value)>, name: &String) -> (r: Option<&'a Value>)
    ensures
        r == scope_lookup(frames@, name@),
{
    let mut i: usize = frames.len();
    assert(frames@.subrange(0, i as int) == frames@);
    while i > 0
        invariant
            i <= frames@.len(),
            scope_lookup(frames@, name@) == scope_lookup(frames@.subrange(0, i as int), name@),
        decreases i,
    {
        let ghost pre = frames@.subrange(0, i as int);
        assert(pre.last() == frames@[i - 1]);
        assert(pre.drop_last() == frames@.subrange(0, i - 1));
        if frames[i - 1].0 == *name {
            return Some(frames[i - 1].1);
        }
        i = i - 1;
    }
    None
}

/// Resolves `path` in the scope chain, as [`resolve`] says.
fn resolve_in<'a>(root: &'a Value, frames: &Vec<(String, &'a Value)>, path: &Vec<String>) -> (r: Result<
    &'a Value,
    Error,
>)
    ensures
        match resolve(*root, frames@, path@) {
            Ok(w) => r == Ok::<&Value, Error>(&w),
            Err(e) => r == Err::<&Value, Error>(e),
        },
{
    assert(path@.subrange(0, path@.len() as int) == path@);
    if path.len() > 0 {
        assert(path@.drop_first() == path@.subrange(1, path@.len() as int));
        match scope_find(frames, &path[0]) {
            Some(v) => resolve_path(v, path, 1),
            None => resolve_path(root, path, 0),
        }
    } else {
        resolve_path(root, path, 0)
    }
}

/// Prints `v` through the formatters named from the `i`-th on, as
/// [`format_chain`] says.
fn format_value<F: ValueFormatter>(
    default: &F,
    named: &Vec<(String, F)>,
    v: &Value,
    names: &Vec<String>,
    i: usize,
    out: &mut String,
) -> (r: Result<(), Error>)
    requires
        i < names@.len() || names@.len() == 0,
    ensures
        match format_chain(*default, named@, *v, names@, i as int) {
            Ok(s) => r is Ok && final(out)@ == old(out)@ + s,
            Err(e) => r == Err::<(), Error>(e),
        },
    decreases names@.len() - i,
{
    if names.len() == 0 {
        return default.format(v, out);
    }
    match find_entry(named, &names[i]) {
        None => Err(Error::UnknownFormatter { name: names[i].clone() }),
        Some(j) => {
            proof {
                lemma_first_index_bounds(named@, names@[i as int]@, named@.len() as int);
            }
            let f = &named[j].1;
            if i == names.len() - 1 {
                f.format(v, out)
            } else {
                let mut buf = String::new();
                match f.format(v, &mut buf) {
                    Ok(()) => {
                        let chars = chars_of(buf.as_str());
                        assert(chars@.subrange(0, chars@.len() as int) == chars@);
                        let mid = Value::String(string_of(&chars, 0, chars.len()));
                        format_value(default, named, &mid, names, i + 1, out)
                    },
                    Err(e) => Err(e),
                }
            }
        },
    }
}

/// Runs the instructions from `start` up to `end`, as [`run_block`] says,
/// appending their output to `out`.
fn execute<'a, F: ValueFormatter>(
    prog: &Vec<Instruction>,
    start: usize,
    end: usize,
    root: &'a Value,
    frames: &mut Vec<(String, &'a Value)>,
    default: &F,
    named: &Vec<(String, F)>,
    out: &mut String,
) -> (r: Result<(), Error>)
    requires
        start <= end <= prog@.len(),
    ensures
        final(frames)@ == old(frames)@,
        match run_block(prog@, start as int, end as int, *root, old(frames)@, *default, named@) {
            Ok(s) => r is Ok && final(out)@ == old(out)@ + s,
            Err(e) => r == Err::<(), Error>(e),
        },
    decreases end - start, 0nat,
{
    let ghost out0 = out@;
    let ghost frames0 = frames@;
    let ghost total = run_block(prog@, start as int, end as int, *root, frames0, *default, named@);
    let ghost mut produced: Seq<char> = Seq::empty();
    let mut pc: usize = start;
    assert(out0 + produced == out0);
    while pc < end
        invariant
            start <= pc <= end <= prog@.len(),
            frames0 == old(frames)@,
            out0 == old(out)@,
            total == run_block(prog@, start as int, end as int, *root, frames0, *default, named@),
            frames@ == frames0,
            out@ == out0 + produced,
            total == prefixed(produced, run_block(prog@, pc as int, end as int, *root, frames0, *default, named@)),
        decreases end - pc,
    {
        let ghost rest_after = run_block(prog@, pc as int + 1, end as int, *root, frames0, *default, named@);
        match &prog[pc] {
            Instruction::Literal(s) => {
                push_str(out, s.as_str());
                proof {
                    if rest_after is Ok {
                        assert(produced + s@ + rest_after->Ok_0 == produced + (s@ + rest_after->Ok_0));
                    }
                    produced = produced + s@;
                }
                pc = pc + 1;
            },
            Instruction::Value(path, names) => {
                let w = match resolve_in(root, frames, path) {
                    Ok(w) => w,
                    Err(e) => {
                        return Err(e);
                    },
                };
                let ghost before = out@;
                let ghost printed = format_chain(*default, named@, *w, names@, 0);
                match format_value(default, named, w, names, 0, out) {
                    Ok(()) => {},
                    Err(e) => {
                        return Err(e);
                    },
                }
                proof {
                    let t = printed->Ok_0;
                    if rest_after is Ok {
                        assert(produced + t + rest_after->Ok_0 == produced + (t + rest_after->Ok_0));
                    }
                    produced = produced + t;
                }
                pc = pc + 1;
            },
            Instruction::Branch(path, t) => {
                if *t <= pc || *t > end {
                    return Err(Error::BrokenProgram { pc });
                }
                let w = match resolve_in(root, frames, path) {
                    Ok(w) => w,
                    Err(e) => {
                        return Err(e);
                    },
                };
                if w.is_truthy() {
                    pc = pc + 1;
                } else {
                    pc = *t;
                }
            },
            Instruction::Jump(t) => {
                if *t <= pc || *t > end {
                    return Err(Error::BrokenProgram { pc });
                }
                pc = *t;
            },
            Instruction::PushLoopScope(path, name, skip) => {
                let skip = *skip;
                if !(skip >= 3 && pc <= skip - 3 && skip <= end) {
                    return Err(Error::BrokenProgram { pc });
                }
                let shaped = match (&prog[skip - 2], &prog[skip - 1]) {
                    (Instruction::Iterate(back), Instruction::PopLoopScope) => *back == pc + 1,
                    _ => false,
                };
                if !shaped {
                    return Err(Error::BrokenProgram { pc });
                }
                assert(loop_shape(prog@, pc as int, end as int, skip as int));
                let w = match resolve_in(root, frames, path) {
                    Ok(w) => w,
                    Err(e) => {
                        return Err(e);
                    },
                };
                let items = match w {
                    Value::Array(items) => items,
                    _ => {
                        return Err(Error::NotIterable { kind: w.kind() });
                    },
                };
                let ghost rest = run_block(prog@, skip as int, end as int, *root, frames0, *default, named@);
                let ghost whole = run_loop(prog@, pc as int + 1, skip - 2, *name, items@, 0, *root, frames0, *default, named@);
                let ghost before = out@;
                match execute_loop(prog, pc + 1, skip - 2, name, items, root, frames, default, named, out) {
                    Ok(()) => {},
                    Err(e) => {
                        return Err(e);
                    },
                }
                proof {
                    let looped = whole->Ok_0;
                    if rest is Ok {
                        assert(produced + looped + rest->Ok_0 == produced + (looped + rest->Ok_0));
                    }
                    assert(out0 + produced + looped == out0 + (produced + looped));
                    produced = produced + looped;
                }
                pc = skip;
            },
            _ => {
                return Err(Error::BrokenProgram { pc });
            },
        }
    }
    proof {
        assert(produced + Seq::<char>::empty() == produced);
    }
    Ok(())
}

/// Runs the loop body from `start` to `stop` once for each item, with `name`
/// bound to the item, as [`run_loop`] says.
fn execute_loop<'a, F: ValueFormatter>(
    prog: &Vec<Instruction>,
    start: usize,
    stop: usize,
    name: &String,
    items: &'a Vec<Value>,
    root: &'a Value,
    frames: &mut Vec<(String, &'a Value)>,
    default: &F,
    named: &Vec<(String, F)>,
    out: &mut String,
) -> (r: Result<(), Error>)
    requires
        start <= stop <= prog@.len(),
    ensures
        final(frames)@ == old(frames)@,
        match run_loop(prog@, start as int, stop as int, *name, items@, 0, *root, old(frames)@, *default, named@) {
            Ok(s) => r is Ok && final(out)@ == old(out)@ + s,
            Err(e) => r == Err::<(), Error>(e),
        },
    decreases stop - start, 1nat,
{
    let ghost out0 = out@;
    let ghost frames0 = frames@;
    let ghost whole = run_loop(prog@, start as int, stop as int, *name, items@, 0, *root, frames0, *default, named@);
    let ghost mut looped: Seq<char> = Seq::empty();
    let mut k: usize = 0;
    assert(out0 + looped == out0);
    while k < items.len()
        invariant
            start <= stop <= prog@.len(),
            frames0 == old(frames)@,
            out0 == old(out)@,
            whole == run_loop(prog@, start as int, stop as int, *name, items@, 0, *root, frames0, *default, named@),
            frames@ == frames0,
            out@ == out0 + looped,
            whole == prefixed(looped, run_loop(prog@, start as int, stop as int, *name, items@, k as int, *root, frames0, *default, named@)),
        decreases items@.len() - k,
    {
        let ghost body = run_block(prog@, start as int, stop as int, *root, frames0.push((*name, &items@[k as int])), *default, named@);
        let ghost more = run_loop(prog@, start as int, stop as int, *name, items@, k as int + 1, *root, frames0, *default, named@);
        frames.push((name.clone(), &items[k]));
        let res = execute(prog, start, stop, root, frames, default, named, out);
        frames.pop();
        match res {
            Ok(()) => {},
            Err(e) => {
                return Err(e);
            },
        }
        proof {
            let b = body->Ok_0;
            if more is Ok {
                assert(looped + b + more->Ok_0 == looped + (b + more->Ok_0));
            }
            looped = looped + b;
        }
        k = k + 1;
    }
    proof {
        assert(looped + Seq::<char>::empty() == looped);
    }
    Ok(())
}

/// Runs a whole instruction list against `root`, with no loop bindings in scope.
pub(crate) fn execute_all<F: ValueFormatter>(prog: &Vec<Instruction>, root: &Value, default: &F, named: &Vec<(String, F)>) -> (r: Result<String, Error>)
    ensures
        match run_block(prog@, 0, prog@.len() as int, *root, Seq::empty(), *default, named@) {
            Ok(s) => r matches Ok(out) && out@ == s,
            Err(e) => r == Err::<String, Error>(e),
        },
{
    let mut frames: Vec<(String, &Value)> = Vec::new();
    let mut out = String::new();
    assert(frames@ == Seq::<(String, &Value)>::empty());
    match execute(prog, 0, prog.len(), root, &mut frames, default, named, &mut out) {
        Ok(()) => {
            assert(out@ == Seq::<char>::empty() + out@);
            Ok(out)
        },
        Err(e) => Err(e),
    }
}

} // verus!
