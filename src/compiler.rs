//! The compiler: one pass over the template text that splits it into literal
//! text, value expressions `{path | formatter}`, block tags `{% ... %}` and
//! comments `{# ... #}`, and emits instructions, back-patching the jump
//! targets of conditionals and loops when their closing tags arrive.
use crate::error::Error;
use crate::instruction::{ops_of, texts, Instruction, Op};
use crate::text::{chars_of, string_of};
use vstd::prelude::*;

verus! {

pub open spec fn is_space(c: char) -> bool {
    c == ' ' || c == '\t' || c == '\n' || c == '\r'
}

pub open spec fn trim_start(s: Seq<char>) -> Seq<char>
    decreases s.len(),
{
    if s.len() > 0 && is_space(s[0]) {
        trim_start(s.drop_first())
    } else {
        s
    }
}

pub open spec fn trim_end(s: Seq<char>) -> Seq<char>
    decreases s.len(),
{
    if s.len() > 0 && is_space(s.last()) {
        trim_end(s.drop_last())
    } else {
        s
    }
}

/// `s` without white space at either end.
pub open spec fn trim(s: Seq<char>) -> Seq<char> {
    trim_end(trim_start(s))
}

/// The parts of the first `n` characters of `s` that are complete, and the
/// part still being read, where `c` separates parts.
pub open spec fn split_acc(s: Seq<char>, c: char, n: int) -> (Seq<Seq<char>>, Seq<char>)
    decreases n,
{
    if n <= 0 {
        (Seq::empty(), Seq::empty())
    } else {
        let (done, cur) = split_acc(s, c, n - 1);
        if s[n - 1] == c {
            (done.push(cur), Seq::empty())
        } else {
            (done, cur.push(s[n - 1]))
        }
    }
}

/// The parts of `s` between occurrences of `c`; there is always at least one.
pub open spec fn split(s: Seq<char>, c: char) -> Seq<Seq<char>> {
    let (done, cur) = split_acc(s, c, s.len() as int);
    done.push(cur)
}

pub open spec fn all_nonempty(parts: Seq<Seq<char>>) -> bool {
    forall|i: int| 0 <= i < parts.len() ==> #[trigger] parts[i].len() > 0
}

/// A path: names separated by dots, none of them empty.
pub open spec fn parse_path(s: Seq<char>) -> Option<Seq<Seq<char>>> {
    let segs = split(s, '.');
    if all_nonempty(segs) {
        Some(segs)
    } else {
        None
    }
}

/// A value expression: a path, then formatter names, each after a `|`; white
/// space around each part is ignored.
pub open spec fn parse_expr(s: Seq<char>) -> Option<(Seq<Seq<char>>, Seq<Seq<char>>)> {
    let parts = split(s, '|');
    let names = parts.drop_first().map_values(|p: Seq<char>| trim(p));
    match parse_path(trim(parts[0])) {
        Some(path) => if all_nonempty(names) {
            Some((path, names))
        } else {
            None
        },
        None => None,
    }
}

/// What a block tag says.
pub enum Tag {
    If(Seq<Seq<char>>),
    Else,
    EndIf,
    For(Seq<char>, Seq<Seq<char>>),
    EndFor,
}

/// A block tag: its words, separated by single spaces, are `if path`, `else`,
/// `endif`, `for name in path` or `endfor`.
pub open spec fn parse_tag(s: Seq<char>) -> Option<Tag> {
    let w = split(trim(s), ' ');
    if w.len() == 1 && w[0] == seq!['e', 'l', 's', 'e'] {
        Some(Tag::Else)
    } else if w.len() == 1 && w[0] == seq!['e', 'n', 'd', 'i', 'f'] {
        Some(Tag::EndIf)
    } else if w.len() == 1 && w[0] == seq!['e', 'n', 'd', 'f', 'o', 'r'] {
        Some(Tag::EndFor)
    } else if w.len() == 2 && w[0] == seq!['i', 'f'] {
        match parse_path(w[1]) {
            Some(p) => Some(Tag::If(p)),
            None => None,
        }
    } else if w.len() == 4 && w[0] == seq!['f', 'o', 'r'] && w[1].len() > 0 && w[2] == seq!['i', 'n'] {
        match parse_path(w[3]) {
            Some(p) => Some(Tag::For(w[1], p)),
            None => None,
        }
    } else {
        None
    }
}

/// The kind of a construct that is open while the text is compiled.
#[derive(Clone, Copy, Debug, PartialEq, Eq, Structural)]
pub enum Block {
    If,
    Else,
    For,
}

/// An open construct: the instruction whose target waits for its closing
/// tag, and the offset of the tag that opened it.
#[derive(Clone, Copy, Debug, PartialEq, Eq, Structural)]
pub struct Open {
    pub kind: Block,
    pub index: usize,
    pub offset: usize,
}

/// The compiler's state: the instructions so far and the open constructs,
/// innermost last.
pub struct State {
    pub ops: Seq<Op>,
    pub open: Seq<Open>,
}

/// `op` with its jump target set to `t`.
pub open spec fn retarget(op: Op, t: nat) -> Op {
    match op {
        Op::Branch(p, _) => Op::Branch(p, t),
        Op::Jump(_) => Op::Jump(t),
        Op::PushLoopScope(p, n, _) => Op::PushLoopScope(p, n, t),
        _ => op,
    }
}

pub open spec fn patch(ops: Seq<Op>, i: int, t: nat) -> Seq<Op> {
    ops.update(i, retarget(ops[i], t))
}

/// What a block tag at `off` does to the state.
pub open spec fn tag_step(st: State, tag: Option<Tag>, off: int) -> Result<State, Error> {
    let n = st.ops.len();
    match tag {
        None => Err(Error::Malformed { offset: off as usize }),
        Some(Tag::If(p)) => Ok(State {
            ops: st.ops.push(Op::Branch(p, 0)),
            open: st.open.push(Open { kind: Block::If, index: n as usize, offset: off as usize }),
        }),
        Some(Tag::For(name, p)) => Ok(State {
            ops: st.ops.push(Op::PushLoopScope(p, name, 0)),
            open: st.open.push(Open { kind: Block::For, index: n as usize, offset: off as usize }),
        }),
        Some(Tag::Else) => if st.open.len() > 0 && st.open.last().kind == Block::If {
            Ok(State {
                ops: patch(st.ops, st.open.last().index as int, n + 1).push(Op::Jump(0)),
                open: st.open.drop_last().push(Open { kind: Block::Else, index: n as usize, offset: off as usize }),
            })
        } else {
            Err(Error::Unmatched { offset: off as usize })
        },
        Some(Tag::EndIf) => if st.open.len() > 0 && st.open.last().kind != Block::For {
            Ok(State { ops: patch(st.ops, st.open.last().index as int, n), open: st.open.drop_last() })
        } else {
            Err(Error::Unmatched { offset: off as usize })
        },
        Some(Tag::EndFor) => if st.open.len() > 0 && st.open.last().kind == Block::For {
            let i = st.open.last().index as int;
            Ok(State {
                ops: patch(st.ops.push(Op::Iterate((i + 1) as nat)).push(Op::PopLoopScope), i, n + 2),
                open: st.open.drop_last(),
            })
        } else {
            Err(Error::Unmatched { offset: off as usize })
        },
    }
}

/// The first position from `i` on that holds `c`, or the length of `s`.
pub open spec fn find_char(s: Seq<char>, i: int, c: char) -> int
    decreases s.len() - i,
{
    if i < 0 || i >= s.len() {
        s.len() as int
    } else if s[i] == c {
        i
    } else {
        find_char(s, i + 1, c)
    }
}

/// The first position from `i` on that holds `c` followed by `}`, or the length of `s`.
pub open spec fn find_close(s: Seq<char>, i: int, c: char) -> int
    decreases s.len() - i,
{
    if i < 0 || i + 1 >= s.len() {
        s.len() as int
    } else if s[i] == c && s[i + 1] == '}' {
        i
    } else {
        find_close(s, i + 1, c)
    }
}

/// Compiles the text from position `i` on, starting in state `st`.
pub open spec fn compile_from(s: Seq<char>, i: int, st: State) -> Result<State, Error>
    decreases s.len() - i,
{
    if i < 0 || i >= s.len() {
        Ok(st)
    } else if s[i] != '{' {
        let j = find_char(s, i + 1, '{');
        if j <= i || j > s.len() {
            Ok(st)
        } else {
            compile_from(s, j, State { ops: st.ops.push(Op::Literal(s.subrange(i, j))), open: st.open })
        }
    } else if i + 1 < s.len() && (s[i + 1] == '%' || s[i + 1] == '#') {
        let k = find_close(s, i + 2, s[i + 1]);
        if k + 1 >= s.len() {
            Err(Error::Unterminated { offset: i as usize })
        } else if k <= i {
            Ok(st)
        } else if s[i + 1] == '#' {
            compile_from(s, k + 2, st)
        } else {
            match tag_step(st, parse_tag(s.subrange(i + 2, k)), i) {
                Ok(next) => compile_from(s, k + 2, next),
                Err(e) => Err(e),
            }
        }
    } else {
        let k = find_char(s, i + 1, '}');
        if k >= s.len() {
            Err(Error::Unterminated { offset: i as usize })
        } else if k <= i {
            Ok(st)
        } else {
            match parse_expr(s.subrange(i + 1, k)) {
                Some((p, f)) => compile_from(
                    s,
                    k + 1,
                    State { ops: st.ops.push(Op::Value(p, f)), open: st.open },
                ),
                None => Err(Error::Malformed { offset: i as usize }),
            }
        }
    }
}

/// What compiling the text `s` gives: its instructions, or the first error.
pub open spec fn compile_spec(s: Seq<char>) -> Result<Seq<Op>, Error> {
    match compile_from(s, 0, State { ops: Seq::empty(), open: Seq::empty() }) {
        Ok(st) => if st.open.len() > 0 {
            Err(Error::Unclosed { offset: st.open.last().offset })
        } else {
            Ok(st.ops)
        },
        Err(e) => Err(e),
    }
}

} // verus!

verus! {

/// The bounds of `s[lo..hi]` without white space at either end.
fn trim_bounds(s: &Vec<char>, lo: usize, hi: usize) -> (r: (usize, usize))
    requires
        lo <= hi <= s@.len(),
    ensures
        lo <= r.0 <= r.1 <= hi,
        s@.subrange(r.0 as int, r.1 as int) == trim(s@.subrange(lo as int, hi as int)),
{
    let mut a: usize = lo;
    while a < hi && (s[a] == ' ' || s[a] == '\t' || s[a] == '\n' || s[a] == '\r')
        invariant
            lo <= a <= hi <= s@.len(),
            trim_start(s@.subrange(lo as int, hi as int)) == trim_start(s@.subrange(a as int, hi as int)),
        decreases hi - a,
    {
        assert(s@.subrange(a as int, hi as int).drop_first() == s@.subrange(a as int + 1, hi as int));
        a = a + 1;
    }
    let mut b: usize = hi;
    while b > a && (s[b - 1] == ' ' || s[b - 1] == '\t' || s[b - 1] == '\n' || s[b - 1] == '\r')
        invariant
            lo <= a <= b <= hi <= s@.len(),
            trim_start(s@.subrange(lo as int, hi as int)) == s@.subrange(a as int, hi as int),
            trim(s@.subrange(lo as int, hi as int)) == trim_end(s@.subrange(a as int, b as int)),
        decreases b - a,
    {
        assert(s@.subrange(a as int, b as int).drop_last() == s@.subrange(a as int, b - 1));
        b = b - 1;
    }
    (a, b)
}

/// Where each part of `split(parts)` lies in `s`.
pub open spec fn ranges_match(s: Seq<char>, r: Seq<(usize, usize)>, parts: Seq<Seq<char>>, lo: int, hi: int) -> bool {
    &&& r.len() == parts.len()
    &&& forall|i: int|
        0 <= i < r.len() ==> lo <= (#[trigger] r[i]).0 <= r[i].1 <= hi && s.subrange(r[i].0 as int, r[i].1 as int)
            == parts[i]
}

/// The bounds of the parts of `s[lo..hi]` between occurrences of `c`.
fn split_ranges(s: &Vec<char>, lo: usize, hi: usize, c: char) -> (r: Vec<(usize, usize)>)
    requires
        lo <= hi <= s@.len(),
    ensures
        ranges_match(s@, r@, split(s@.subrange(lo as int, hi as int), c), lo as int, hi as int),
{
    let ghost sub = s@.subrange(lo as int, hi as int);
    let mut r: Vec<(usize, usize)> = Vec::new();
    let mut start: usize = lo;
    let mut j: usize = lo;
    while j < hi
        invariant
            lo <= start <= j <= hi <= s@.len(),
            sub == s@.subrange(lo as int, hi as int),
            ranges_match(s@, r@, split_acc(sub, c, j - lo).0, lo as int, hi as int),
            split_acc(sub, c, j - lo).1 == s@.subrange(start as int, j as int),
        decreases hi - j,
    {
        assert(sub[j - lo] == s@[j as int]);
        if s[j] == c {
            r.push((start, j));
            start = j + 1;
            assert(s@.subrange(start as int, j + 1) == Seq::<char>::empty());
        } else {
            assert(s@.subrange(start as int, j + 1) == s@.subrange(start as int, j as int).push(s@[j as int]));
        }
        j = j + 1;
    }
    r.push((start, hi));
    r
}

/// A path in `s[lo..hi]`, as [`parse_path`] says.
fn parse_path_exec(s: &Vec<char>, lo: usize, hi: usize) -> (r: Option<Vec<String>>)
    requires
        lo <= hi <= s@.len(),
    ensures
        match parse_path(s@.subrange(lo as int, hi as int)) {
            Some(p) => r matches Some(v) && texts(v@) == p,
            None => r is None,
        },
{
    let ghost parts = split(s@.subrange(lo as int, hi as int), '.');
    let ranges = split_ranges(s, lo, hi, '.');
    let mut out: Vec<String> = Vec::new();
    let mut i: usize = 0;
    while i < ranges.len()
        invariant
            i <= ranges@.len(),
            lo <= hi <= s@.len(),
            ranges_match(s@, ranges@, parts, lo as int, hi as int),
            parts == split(s@.subrange(lo as int, hi as int), '.'),
            out@.len() == i,
            forall|k: int| 0 <= k < i ==> (#[trigger] out@[k])@ == parts[k] && parts[k].len() > 0,
        decreases ranges@.len() - i,
    {
        let (a, b) = ranges[i];
        assert(lo <= ranges@[i as int].0 <= ranges@[i as int].1 <= hi);
        if a == b {
            assert(parts[i as int].len() == 0);
            return None;
        }
        out.push(string_of(s, a, b));
        i = i + 1;
    }
    assert(texts(out@) == parts);
    Some(out)
}

/// A value expression in `s[lo..hi]`, as [`parse_expr`] says.
fn parse_expr_exec(s: &Vec<char>, lo: usize, hi: usize) -> (r: Option<(Vec<String>, Vec<String>)>)
    requires
        lo <= hi <= s@.len(),
    ensures
        match parse_expr(s@.subrange(lo as int, hi as int)) {
            Some((p, f)) => r matches Some((v, w)) && texts(v@) == p && texts(w@) == f,
            None => r is None,
        },
{
    let ghost parts = split(s@.subrange(lo as int, hi as int), '|');
    let ghost names = parts.drop_first().map_values(|p: Seq<char>| trim(p));
    let ranges = split_ranges(s, lo, hi, '|');
    assert(lo <= ranges@[0].0 <= ranges@[0].1 <= hi);
    let (a, b) = trim_bounds(s, ranges[0].0, ranges[0].1);
    let path = match parse_path_exec(s, a, b) {
        Some(p) => p,
        None => {
            return None;
        },
    };
    let mut out: Vec<String> = Vec::new();
    let mut i: usize = 1;
    while i < ranges.len()
        invariant
            1 <= i <= ranges@.len(),
            lo <= hi <= s@.len(),
            ranges_match(s@, ranges@, parts, lo as int, hi as int),
            parts == split(s@.subrange(lo as int, hi as int), '|'),
            names == parts.drop_first().map_values(|p: Seq<char>| trim(p)),
            out@.len() == i - 1,
            forall|k: int| 0 <= k < i - 1 ==> (#[trigger] out@[k])@ == names[k] && names[k].len() > 0,
        decreases ranges@.len() - i,
    {
        assert(lo <= ranges@[i as int].0 <= ranges@[i as int].1 <= hi);
        let (a, b) = trim_bounds(s, ranges[i].0, ranges[i].1);
        assert(names[i - 1] == trim(parts[i as int]));
        if a == b {
            return None;
        }
        out.push(string_of(s, a, b));
        i = i + 1;
    }
    assert(texts(out@) == names);
    Some((path, out))
}

/// A block tag, with its path and name as strings.
pub enum TagExec {
    If(Vec<String>),
    Else,
    EndIf,
    For(String, Vec<String>),
    EndFor,
}

pub open spec fn tag_view(t: Option<TagExec>) -> Option<Tag> {
    match t {
        None => None,
        Some(TagExec::If(p)) => Some(Tag::If(texts(p@))),
        Some(TagExec::Else) => Some(Tag::Else),
        Some(TagExec::EndIf) => Some(Tag::EndIf),
        Some(TagExec::For(n, p)) => Some(Tag::For(n@, texts(p@))),
        Some(TagExec::EndFor) => Some(Tag::EndFor),
    }
}

/// Whether `s[a..b]` is exactly `w`.
fn range_is(s: &Vec<char>, a: usize, b: usize, w: &Vec<char>) -> (r: bool)
    requires
        a <= b <= s@.len(),
    ensures
        r == (s@.subrange(a as int, b as int) == w@),
{
    if b - a != w.len() {
        return false;
    }
    let mut i: usize = 0;
    while i < w.len()
        invariant
            a <= b <= s@.len(),
            b - a == w@.len(),
            i <= w@.len(),
            forall|k: int| 0 <= k < i ==> s@[a + k] == w@[k],
        decreases w@.len() - i,
    {
        if s[a + i] != w[i] {
            assert(s@.subrange(a as int, b as int)[i as int] != w@[i as int]);
            return false;
        }
        i = i + 1;
    }
    assert(s@.subrange(a as int, b as int) == w@);
    true
}

/// A block tag in `s[lo..hi]`, as [`parse_tag`] says.
fn parse_tag_exec(s: &Vec<char>, lo: usize, hi: usize) -> (r: Option<TagExec>)
    requires
        lo <= hi <= s@.len(),
    ensures
        tag_view(r) == parse_tag(s@.subrange(lo as int, hi as int)),
{
    let (a, b) = trim_bounds(s, lo, hi);
    let ghost w = split(s@.subrange(a as int, b as int), ' ');
    let r = split_ranges(s, a, b, ' ');
    assert(lo <= r@[0].0 <= r@[0].1 <= hi);
    let (a0, b0) = r[0];
    let w_else: Vec<char> = vec!['e', 'l', 's', 'e'];
    let w_endif: Vec<char> = vec!['e', 'n', 'd', 'i', 'f'];
    let w_endfor: Vec<char> = vec!['e', 'n', 'd', 'f', 'o', 'r'];
    let w_if: Vec<char> = vec!['i', 'f'];
    let w_for: Vec<char> = vec!['f', 'o', 'r'];
    let w_in: Vec<char> = vec!['i', 'n'];
    assert(w_else@ == seq!['e', 'l', 's', 'e']);
    assert(w_endif@ == seq!['e', 'n', 'd', 'i', 'f']);
    assert(w_endfor@ == seq!['e', 'n', 'd', 'f', 'o', 'r']);
    assert(w_if@ == seq!['i', 'f']);
    assert(w_for@ == seq!['f', 'o', 'r']);
    assert(w_in@ == seq!['i', 'n']);
    if r.len() == 1 && range_is(s, a0, b0, &w_else) {
        Some(TagExec::Else)
    } else if r.len() == 1 && range_is(s, a0, b0, &w_endif) {
        Some(TagExec::EndIf)
    } else if r.len() == 1 && range_is(s, a0, b0, &w_endfor) {
        Some(TagExec::EndFor)
    } else if r.len() == 2 && range_is(s, a0, b0, &w_if) {
        assert(lo <= r@[1].0 <= r@[1].1 <= hi);
        match parse_path_exec(s, r[1].0, r[1].1) {
            Some(p) => Some(TagExec::If(p)),
            None => None,
        }
    } else if r.len() == 4 && range_is(s, a0, b0, &w_for) && r[1].0 < r[1].1 && range_is(
        s,
        r[2].0,
        r[2].1,
        &w_in,
    ) {
        assert(lo <= r@[1].0 <= r@[1].1 <= hi);
        assert(lo <= r@[3].0 <= r@[3].1 <= hi);
        match parse_path_exec(s, r[3].0, r[3].1) {
            Some(p) => Some(TagExec::For(string_of(s, r[1].0, r[1].1), p)),
            None => None,
        }
    } else {
        proof {
            if r@.len() == 4 {
                assert(lo <= r@[1].0 <= r@[1].1 <= hi);
                assert(lo <= r@[2].0 <= r@[2].1 <= hi);
            }
        }
        None
    }
}

/// Sets the jump target of the instruction at `i` to `t`.
fn retarget_at(ops: &mut Vec<Instruction>, i: usize, t: usize)
    requires
        i < old(ops)@.len(),
    ensures
        ops_of(final(ops)@) == patch(ops_of(old(ops)@), i as int, t as nat),
        final(ops)@.len() == old(ops)@.len(),
{
    let ins = ops.remove(i);
    let new = match ins {
        Instruction::Branch(p, _) => Instruction::Branch(p, t),
        Instruction::Jump(_) => Instruction::Jump(t),
        Instruction::PushLoopScope(p, n, _) => Instruction::PushLoopScope(p, n, t),
        other => other,
    };
    ops.insert(i, new);
    assert(ops_of(ops@) =~= patch(ops_of(old(ops)@), i as int, t as nat));
}

/// Applies a block tag at `off` to the instructions and open constructs, as
/// [`tag_step`] says.
fn apply_tag(ops: &mut Vec<Instruction>, open: &mut Vec<Open>, tag: Option<TagExec>, off: usize) -> (r: Result<
    (),
    Error,
>)
    requires
        old(ops)@.len() + 2 < usize::MAX,
        forall|k: int| 0 <= k < old(open)@.len() ==> (#[trigger] old(open)@[k]).index < old(ops)@.len(),
    ensures
        match tag_step(State { ops: ops_of(old(ops)@), open: old(open)@ }, tag_view(tag), off as int) {
            Ok(st) => r is Ok && ops_of(final(ops)@) == st.ops && final(open)@ == st.open,
            Err(e) => r == Err::<(), Error>(e),
        },
        forall|k: int| 0 <= k < final(open)@.len() ==> (#[trigger] final(open)@[k]).index < final(ops)@.len(),
        final(ops)@.len() <= old(ops)@.len() + 2,
{
    let n = ops.len();
    let ghost ops0 = ops_of(ops@);
    match tag {
        None => Err(Error::Malformed { offset: off }),
        Some(TagExec::If(p)) => {
            ops.push(Instruction::Branch(p, 0));
            open.push(Open { kind: Block::If, index: n, offset: off });
            assert(ops_of(ops@) =~= ops0.push(Op::Branch(texts(p@), 0)));
            Ok(())
        },
        Some(TagExec::For(name, p)) => {
            ops.push(Instruction::PushLoopScope(p, name, 0));
            open.push(Open { kind: Block::For, index: n, offset: off });
            assert(ops_of(ops@) =~= ops0.push(Op::PushLoopScope(texts(p@), name@, 0)));
            Ok(())
        },
        Some(TagExec::Else) => {
            if open.len() > 0 && open[open.len() - 1].kind == Block::If {
                let top = open.pop().unwrap();
                retarget_at(ops, top.index, n + 1);
                let ghost patched = ops_of(ops@);
                ops.push(Instruction::Jump(0));
                open.push(Open { kind: Block::Else, index: n, offset: off });
                assert(ops_of(ops@) =~= patched.push(Op::Jump(0)));
                Ok(())
            } else {
                Err(Error::Unmatched { offset: off })
            }
        },
        Some(TagExec::EndIf) => {
            if open.len() > 0 && open[open.len() - 1].kind != Block::For {
                let top = open.pop().unwrap();
                retarget_at(ops, top.index, n);
                Ok(())
            } else {
                Err(Error::Unmatched { offset: off })
            }
        },
        Some(TagExec::EndFor) => {
            if open.len() > 0 && open[open.len() - 1].kind == Block::For {
                let top = open.pop().unwrap();
                ops.push(Instruction::Iterate(top.index + 1));
                ops.push(Instruction::PopLoopScope);
                assert(ops_of(ops@) =~= ops0.push(Op::Iterate((top.index + 1) as nat)).push(Op::PopLoopScope));
                retarget_at(ops, top.index, n + 2);
                Ok(())
            } else {
                Err(Error::Unmatched { offset: off })
            }
        },
    }
}

proof fn lemma_find_char_bounds(s: Seq<char>, i: int, c: char)
    requires
        0 <= i <= s.len(),
    ensures
        i <= find_char(s, i, c) <= s.len(),
    decreases s.len() - i,
{
    if i < s.len() && s[i] != c {
        lemma_find_char_bounds(s, i + 1, c);
    }
}

proof fn lemma_find_close_bounds(s: Seq<char>, i: int, c: char)
    requires
        0 <= i <= s.len(),
    ensures
        i <= find_close(s, i, c) <= s.len(),
    decreases s.len() - i,
{
    if i + 1 < s.len() && !(s[i] == c && s[i + 1] == '}') {
        lemma_find_close_bounds(s, i + 1, c);
    }
}

fn find_char_exec(s: &Vec<char>, i: usize, c: char) -> (r: usize)
    requires
        i <= s@.len(),
    ensures
        r == find_char(s@, i as int, c),
{
    let mut j: usize = i;
    while j < s.len() && s[j] != c
        invariant
            i <= j <= s@.len(),
            find_char(s@, i as int, c) == find_char(s@, j as int, c),
        decreases s@.len() - j,
    {
        j = j + 1;
    }
    j
}

fn find_close_exec(s: &Vec<char>, i: usize, c: char) -> (r: usize)
    requires
        i <= s@.len(),
    ensures
        r == find_close(s@, i as int, c),
{
    let mut j: usize = i;
    while j < s.len() && j + 1 < s.len() && !(s[j] == c && s[j + 1] == '}')
        invariant
            i <= j <= s@.len(),
            find_close(s@, i as int, c) == find_close(s@, j as int, c),
        decreases s@.len() - j,
    {
        j = j + 1;
    }
    if j >= s.len() || j + 1 >= s.len() {
        s.len()
    } else {
        j
    }
}

/// Compiles template text into instructions, as [`compile_spec`] says.
pub fn compile(source: &str) -> (r: Result<Vec<Instruction>, Error>)
    ensures
        match compile_spec(source@) {
            Ok(ops) => r matches Ok(v) && ops_of(v@) == ops,
            Err(e) => r == Err::<Vec<Instruction>, Error>(e),
        },
{
    let s = chars_of(source);
    let mut ops: Vec<Instruction> = Vec::new();
    let mut open: Vec<Open> = Vec::new();
    let mut i: usize = 0;
    let ghost init = State { ops: Seq::empty(), open: Seq::empty() };
    assert(ops_of(ops@) =~= Seq::empty());
    while i < s.len()
        invariant
            i <= s@.len(),
            s@ == source@,
            init == (State { ops: Seq::empty(), open: Seq::empty() }),
            ops@.len() <= i,
            forall|k: int| 0 <= k < open@.len() ==> (#[trigger] open@[k]).index < ops@.len(),
            compile_from(s@, 0, init) == compile_from(s@, i as int, State { ops: ops_of(ops@), open: open@ }),
        decreases s@.len() - i,
    {
        let ghost ops0 = ops_of(ops@);
        if s[i] != '{' {
            let j = find_char_exec(&s, i + 1, '{');
            proof {
                lemma_find_char_bounds(s@, i + 1, '{');
            }
            ops.push(Instruction::Literal(string_of(&s, i, j)));
            assert(ops_of(ops@) =~= ops0.push(Op::Literal(s@.subrange(i as int, j as int))));
            i = j;
        } else if i + 1 < s.len() && (s[i + 1] == '%' || s[i + 1] == '#') {
            let k = find_close_exec(&s, i + 2, s[i + 1]);
            proof {
                lemma_find_close_bounds(s@, i + 2, s@[i + 1]);
            }
            if k >= s.len() - 1 {
                assert(compile_from(s@, i as int, State { ops: ops_of(ops@), open: open@ })
                    == Err::<State, Error>(Error::Unterminated { offset: i }));
                return Err(Error::Unterminated { offset: i });
            }
            if s[i + 1] == '#' {
                i = k + 2;
            } else {
                let tag = parse_tag_exec(&s, i + 2, k);
                match apply_tag(&mut ops, &mut open, tag, i) {
                    Ok(()) => {},
                    Err(e) => {
                        return Err(e);
                    },
                }
                i = k + 2;
            }
        } else {
            let k = find_char_exec(&s, i + 1, '}');
            proof {
                lemma_find_char_bounds(s@, i + 1, '}');
            }
            if k >= s.len() {
                assert(compile_from(s@, i as int, State { ops: ops_of(ops@), open: open@ })
                    == Err::<State, Error>(Error::Unterminated { offset: i }));
                return Err(Error::Unterminated { offset: i });
            }
            match parse_expr_exec(&s, i + 1, k) {
                Some((p, f)) => {
                    ops.push(Instruction::Value(p, f));
                    assert(ops_of(ops@) =~= ops0.push(Op::Value(texts(p@), texts(f@))));
                },
                None => {
                    return Err(Error::Malformed { offset: i });
                },
            }
            i = k + 1;
        }
    }
    if open.len() > 0 {
        return Err(Error::Unclosed { offset: open[open.len() - 1].offset });
    }
    Ok(ops)
}

} // verus!
