//! Laws of compiling and rendering, proved from the specifications.
use crate::compiler::{
    compile_from, compile_spec, find_char, find_close, is_space, parse_expr, parse_path, parse_tag, split, split_acc,
    tag_step, patch,
    trim, trim_end, trim_start, Block, Open, State, Tag,
};
use crate::error::Error;
use crate::instruction::{op_of, ops_of, texts, Instruction, Op};
use crate::render::{format_chain, join, resolve, run_block, run_loop, scope_lookup, ValueFormatter};
use crate::table::lookup;
use crate::template::render_spec;
use crate::text::string_from;
use crate::value::{resolve_from, truthy, Value};
use vstd::prelude::*;

verus! {

proof fn lemma_no_open_brace(s: Seq<char>, i: int)
    requires
        0 <= i <= s.len(),
        forall|k: int| 0 <= k < s.len() ==> s[k] != '{',
    ensures
        find_char(s, i, '{') == s.len(),
    decreases s.len() - i,
{
    if i < s.len() {
        lemma_no_open_brace(s, i + 1);
    }
}

/// Text without any `{` compiles to instructions that render as the text
/// itself, whatever the context and the formatters.
pub proof fn law_literal_text<F: ValueFormatter>(
    s: Seq<char>,
    prog: Seq<Instruction>,
    ctx: Value,
    default: F,
    named: Seq<(String, F)>,
)
    requires
        forall|k: int| 0 <= k < s.len() ==> s[k] != '{',
        compile_spec(s) == Ok::<Seq<Op>, Error>(ops_of(prog)),
    ensures
        render_spec(prog, ctx, default, named) == Ok::<Seq<char>, Error>(s),
{
    let init = State { ops: Seq::empty(), open: Seq::empty() };
    if s.len() == 0 {
        assert(ops_of(prog).len() == 0);
        assert(prog.len() == 0);
        assert(s == Seq::<char>::empty());
    } else {
        lemma_no_open_brace(s, 1);
        let next = State { ops: init.ops.push(Op::Literal(s.subrange(0, s.len() as int))), open: init.open };
        assert(compile_from(s, 0, init) == compile_from(s, s.len() as int, next));
        assert(ops_of(prog) == next.ops);
        assert(prog.len() == 1);
        assert(ops_of(prog)[0] == op_of(prog[0]));
        assert(op_of(prog[0]) == Op::Literal(s.subrange(0, s.len() as int)));
        assert(s.subrange(0, s.len() as int) == s);
        let t = prog[0]->Literal_0;
        assert(t@ == s);
        assert(run_block(prog, 1, 1, ctx, Seq::empty(), default, named) == Ok::<Seq<char>, Error>(Seq::empty()));
        assert(s + Seq::<char>::empty() == s);
    }
}

/// A value expression without formatters prints the resolved value with the
/// default formatter.
pub proof fn law_default_formatter<F: ValueFormatter>(default: F, named: Seq<(String, F)>, v: Value, names: Seq<String>)
    requires
        names.len() == 0,
    ensures
        format_chain(default, named, v, names, 0) == default.spec_format(v),
{
}

/// With formatters `f1 | f2`, the second prints, as a string value, what the
/// first printed of the resolved value.
pub proof fn law_formatter_pipe<F: ValueFormatter>(
    default: F,
    named: Seq<(String, F)>,
    v: Value,
    names: Seq<String>,
    f1: F,
    f2: F,
    s1: Seq<char>,
)
    requires
        names.len() == 2,
        lookup(named, names[0]@) == Some(f1),
        lookup(named, names[1]@) == Some(f2),
        f1.spec_format(v) == Ok::<Seq<char>, Error>(s1),
    ensures
        format_chain(default, named, v, names, 0) == f2.spec_format(Value::String(string_from(s1))),
{
    assert(format_chain(default, named, v, names, 0) == format_chain(
        default,
        named,
        Value::String(string_from(s1)),
        names,
        1,
    ));
}

/// A program made of one value instruction prints its resolved value
/// through its formatters, or fails as resolving fails.
pub proof fn law_value_instruction<F: ValueFormatter>(
    prog: Seq<Instruction>,
    path: Vec<String>,
    names: Vec<String>,
    ctx: Value,
    default: F,
    named: Seq<(String, F)>,
)
    requires
        prog == seq![Instruction::Value(path, names)],
    ensures
        render_spec(prog, ctx, default, named) == match resolve_from(ctx, path@) {
            Ok(v) => format_chain(default, named, v, names@, 0),
            Err(e) => Err(e),
        },
{
    assert(resolve(ctx, Seq::empty(), path@) == resolve_from(ctx, path@));
    assert(run_block(prog, 1, 1, ctx, Seq::empty(), default, named) == Ok::<Seq<char>, Error>(Seq::empty()));
    if let Ok(v) = resolve_from(ctx, path@) {
        if let Ok(t) = format_chain(default, named, v, names@, 0) {
            assert(t + Seq::<char>::empty() == t);
        }
    }
}

/// What `{% if c %}A{% else %}B{% endif %}` compiles to prints `A` where `c`
/// resolves to a value other than `null` and `false`, and `B` where it
/// resolves to one of those.
pub proof fn law_if_else<F: ValueFormatter>(
    prog: Seq<Instruction>,
    cond: Vec<String>,
    a: String,
    b: String,
    ctx: Value,
    default: F,
    named: Seq<(String, F)>,
)
    requires
        prog == seq![
            Instruction::Branch(cond, 3),
            Instruction::Literal(a),
            Instruction::Jump(4),
            Instruction::Literal(b),
        ],
        resolve_from(ctx, cond@) is Ok,
    ensures
        render_spec(prog, ctx, default, named) == Ok::<Seq<char>, Error>(
            if truthy(resolve_from(ctx, cond@)->Ok_0) {
                a@
            } else {
                b@
            },
        ),
{
    let e = Seq::<(String, &Value)>::empty();
    assert(resolve(ctx, e, cond@) == resolve_from(ctx, cond@));
    assert(run_block(prog, 4, 4, ctx, e, default, named) == Ok::<Seq<char>, Error>(Seq::empty()));
    assert(run_block(prog, 3, 4, ctx, e, default, named) == Ok::<Seq<char>, Error>(b@ + Seq::empty()));
    assert(run_block(prog, 2, 4, ctx, e, default, named) == Ok::<Seq<char>, Error>(Seq::empty()));
    assert(run_block(prog, 1, 4, ctx, e, default, named) == Ok::<Seq<char>, Error>(a@ + Seq::empty()));
    assert(a@ + Seq::<char>::empty() == a@);
    assert(b@ + Seq::<char>::empty() == b@);
}

/// The default formatter's output for each of the items from the `k`-th on,
/// joined in order; the first failure wins.
pub open spec fn each_formatted<F: ValueFormatter>(default: F, items: Seq<Value>, k: int) -> Result<Seq<char>, Error>
    decreases items.len() - k,
{
    if k < 0 || k >= items.len() {
        Ok(Seq::empty())
    } else {
        join(default.spec_format(items[k]), each_formatted(default, items, k + 1))
    }
}

proof fn lemma_join_empty(r: Result<Seq<char>, Error>)
    ensures
        join(r, Ok(Seq::empty())) == r,
{
    if let Ok(t) = r {
        assert(t + Seq::<char>::empty() == t);
    }
}

/// The loop body `{x}`, run once per item with `x` bound to it, prints the
/// items with the default formatter, in order.
proof fn lemma_loop_items<F: ValueFormatter>(
    prog: Seq<Instruction>,
    name: String,
    items: Seq<Value>,
    k: int,
    ctx: Value,
    default: F,
    named: Seq<(String, F)>,
)
    requires
        0 <= k <= items.len(),
        prog.len() == 4,
        prog[1] matches Instruction::Value(p, f) && p@.len() == 1 && p@[0]@ == name@ && f@.len() == 0,
    ensures
        run_loop(prog, 1, 2, name, items, k, ctx, Seq::empty(), default, named) == each_formatted(default, items, k),
    decreases items.len() - k,
{
    if k < items.len() {
        lemma_loop_items(prog, name, items, k + 1, ctx, default, named);
        let frames = Seq::<(String, &Value)>::empty().push((name, &items[k]));
        let p = prog[1]->Value_0;
        let f = prog[1]->Value_1;
        assert(scope_lookup(frames, p@[0]@) == Some(&items[k]));
        assert(p@.drop_first() == Seq::<String>::empty());
        assert(resolve(ctx, frames, p@) == Ok::<Value, Error>(items[k]));
        assert(run_block(prog, 2, 2, ctx, frames, default, named) == Ok::<Seq<char>, Error>(Seq::empty()));
        lemma_join_empty(default.spec_format(items[k]));
        assert(run_block(prog, 1, 2, ctx, frames, default, named) == default.spec_format(items[k]));
    }
}

/// What `{% for x in arr %}{x}{% endfor %}` compiles to prints each element
/// of the array with the default formatter, in order; an empty array prints
/// nothing.
pub proof fn law_loop_concatenates<F: ValueFormatter>(
    prog: Seq<Instruction>,
    path: Vec<String>,
    name: String,
    ctx: Value,
    default: F,
    named: Seq<(String, F)>,
)
    requires
        prog.len() == 4,
        prog[0] == Instruction::PushLoopScope(path, name, 4),
        prog[1] matches Instruction::Value(p, f) && p@.len() == 1 && p@[0]@ == name@ && f@.len() == 0,
        prog[2] == Instruction::Iterate(1),
        prog[3] is PopLoopScope,
        resolve_from(ctx, path@) matches Ok(Value::Array(_)),
    ensures
        render_spec(prog, ctx, default, named) == each_formatted(
            default,
            resolve_from(ctx, path@)->Ok_0->Array_0@,
            0,
        ),
        resolve_from(ctx, path@)->Ok_0->Array_0@.len() == 0 ==> render_spec(prog, ctx, default, named) == Ok::<
            Seq<char>,
            Error,
        >(Seq::empty()),
{
    let items = resolve_from(ctx, path@)->Ok_0->Array_0@;
    let e = Seq::<(String, &Value)>::empty();
    assert(resolve(ctx, e, path@) == resolve_from(ctx, path@));
    lemma_loop_items(prog, name, items, 0, ctx, default, named);
    assert(run_block(prog, 4, 4, ctx, e, default, named) == Ok::<Seq<char>, Error>(Seq::empty()));
    lemma_join_empty(each_formatted(default, items, 0));
}

proof fn lemma_find_char_at(s: Seq<char>, i: int, j: int, c: char)
    requires
        0 <= i <= j <= s.len(),
        j == s.len() || s[j] == c,
        forall|k: int| i <= k < j ==> s[k] != c,
    ensures
        find_char(s, i, c) == j,
    decreases j - i,
{
    if i < j {
        lemma_find_char_at(s, i + 1, j, c);
    }
}

proof fn lemma_find_close_at(s: Seq<char>, i: int, j: int, c: char)
    requires
        0 <= i <= j,
        j + 1 < s.len(),
        s[j] == c && s[j + 1] == '}',
        forall|k: int| i <= k < j ==> s[k] != c,
    ensures
        find_close(s, i, c) == j,
    decreases j - i,
{
    if i < j {
        lemma_find_close_at(s, i + 1, j, c);
    }
}

proof fn lemma_split_none(s: Seq<char>, c: char, n: int)
    requires
        0 <= n <= s.len(),
        forall|k: int| 0 <= k < n ==> s[k] != c,
    ensures
        split_acc(s, c, n) == (Seq::<Seq<char>>::empty(), s.subrange(0, n)),
    decreases n,
{
    if n > 0 {
        lemma_split_none(s, c, n - 1);
        assert(s.subrange(0, n - 1).push(s[n - 1]) == s.subrange(0, n));
    } else {
        assert(s.subrange(0, 0) == Seq::<char>::empty());
    }
}

proof fn lemma_split_after(s: Seq<char>, c: char, j: int, n: int)
    requires
        0 <= j < n <= s.len(),
        s[j] == c,
        forall|k: int| j < k < n ==> s[k] != c,
    ensures
        split_acc(s, c, n) == (split_acc(s, c, j).0.push(split_acc(s, c, j).1), s.subrange(j + 1, n)),
    decreases n - j,
{
    if n > j + 1 {
        lemma_split_after(s, c, j, n - 1);
        assert(s.subrange(j + 1, n - 1).push(s[n - 1]) == s.subrange(j + 1, n));
    } else {
        assert(s.subrange(j + 1, n) == Seq::<char>::empty());
    }
}

/// Plain text from `i` up to the next `{` (or the end) becomes one literal.
proof fn lemma_literal_run(s: Seq<char>, i: int, m: int, st: State)
    requires
        0 <= i <= m <= s.len(),
        m == s.len() || s[m] == '{',
        forall|k: int| i <= k < m ==> s[k] != '{',
    ensures
        compile_from(s, i, st) == compile_from(
            s,
            m,
            if i < m {
                State { ops: st.ops.push(Op::Literal(s.subrange(i, m))), open: st.open }
            } else {
                st
            },
        ),
{
    if i < m {
        lemma_find_char_at(s, i + 1, m, '{');
    }
}

pub open spec fn no_char(s: Seq<char>, c: char) -> bool {
    forall|k: int| 0 <= k < s.len() ==> s[k] != c
}

/// A word between single spaces, trimmed and split on spaces, is that word.
proof fn lemma_trim_padded(w: Seq<char>)
    requires
        w.len() > 0,
        !is_space(w[0]),
        !is_space(w.last()),
    ensures
        trim(seq![' '] + w + seq![' ']) == w,
{
    let x = seq![' '] + w + seq![' '];
    assert(x.drop_first() == w + seq![' ']);
    assert((w + seq![' '])[0] == w[0]);
    assert(x[0] == ' ');
    assert(trim_start(x) == trim_start(w + seq![' ']));
    assert(trim_start(w + seq![' ']) == w + seq![' ']);
    assert((w + seq![' ']).drop_last() == w);
    assert(w.last() == w[w.len() - 1]);
    assert(trim_end(w + seq![' ']) == trim_end(w));
}

pub open spec fn endif_tag() -> Seq<char> {
    seq!['{', '%', ' ', 'e', 'n', 'd', 'i', 'f', ' ', '%', '}']
}

/// After text without any `{`, an `{% endif %}` has no `if` to close, and
/// compiling fails at it, whatever follows.
pub proof fn law_endif_without_if(a: Seq<char>, b: Seq<char>)
    requires
        no_char(a, '{'),
    ensures
        compile_spec(a + endif_tag() + b) == Err::<Seq<Op>, Error>(Error::Unmatched { offset: a.len() as usize }),
{
    let s = a + endif_tag() + b;
    let m = a.len() as int;
    let init = State { ops: Seq::empty(), open: Seq::empty() };
    assert forall|k: int| 0 <= k < m implies s[k] != '{' by {
        assert(s[k] == a[k]);
    }
    assert(s[m] == '{');
    lemma_literal_run(s, 0, m, init);
    let st1 = if 0 < m {
        State { ops: init.ops.push(Op::Literal(s.subrange(0, m))), open: init.open }
    } else {
        init
    };
    assert(s[m + 1] == '%');
    assert forall|k: int| m + 2 <= k < m + 9 implies s[k] != '%' by {
        assert(s[k] == endif_tag()[k - m]);
    }
    assert(s[m + 9] == '%' && s[m + 10] == '}');
    lemma_find_close_at(s, m + 2, m + 9, '%');
    let w = seq!['e', 'n', 'd', 'i', 'f'];
    assert(s.subrange(m + 2, m + 9) == seq![' '] + w + seq![' ']);
    lemma_trim_padded(w);
    lemma_split_none(w, ' ', 5);
    assert(w.subrange(0, 5) == w);
    assert(split(w, ' ') == seq![w]);
    assert(w != seq!['e', 'l', 's', 'e']);
    assert(parse_tag(s.subrange(m + 2, m + 9)) == Some(Tag::EndIf));
    assert(tag_step(st1, Some(Tag::EndIf), m) == Err::<State, Error>(Error::Unmatched { offset: m as usize }));
}

/// A path with no white space, dots or `%`: one segment.
proof fn lemma_simple_path(p: Seq<char>)
    requires
        p.len() > 0,
        no_char(p, '.'),
    ensures
        parse_path(p) == Some(seq![p]),
{
    lemma_split_none(p, '.', p.len() as int);
    assert(p.subrange(0, p.len() as int) == p);
    assert(split(p, '.') == seq![p]);
}

pub open spec fn if_tag(p: Seq<char>) -> Seq<char> {
    seq!['{', '%', ' ', 'i', 'f', ' '] + p + seq![' ', '%', '}']
}

/// An `{% if p %}` that no `{% endif %}` closes, between texts without any
/// `{`, makes compiling fail at the end of the text, naming the `if`.
pub proof fn law_dangling_if(a: Seq<char>, p: Seq<char>, b: Seq<char>)
    requires
        no_char(a, '{'),
        no_char(b, '{'),
        p.len() > 0,
        forall|k: int| 0 <= k < p.len() ==> !is_space(#[trigger] p[k]) && p[k] != '.' && p[k] != '%',
    ensures
        compile_spec(a + if_tag(p) + b) == Err::<Seq<Op>, Error>(Error::Unclosed { offset: a.len() as usize }),
{
    let t = if_tag(p);
    let s = a + t + b;
    let m = a.len() as int;
    let q = p.len() as int;
    let init = State { ops: Seq::empty(), open: Seq::empty() };
    assert forall|k: int| 0 <= k < m implies s[k] != '{' by {
        assert(s[k] == a[k]);
    }
    assert(s[m] == '{');
    lemma_literal_run(s, 0, m, init);
    let st1 = if 0 < m {
        State { ops: init.ops.push(Op::Literal(s.subrange(0, m))), open: init.open }
    } else {
        init
    };
    assert(s[m + 1] == '%');
    assert forall|k: int| m + 2 <= k < m + 7 + q implies s[k] != '%' by {
        assert(s[k] == t[k - m]);
        if 6 <= k - m < 6 + q {
            assert(t[k - m] == p[k - m - 6]);
        }
    }
    assert(s[m + 7 + q] == t[7 + q]);
    assert(s[m + 8 + q] == t[8 + q]);
    lemma_find_close_at(s, m + 2, m + 7 + q, '%');
    let w = seq!['i', 'f', ' '] + p;
    assert(s.subrange(m + 2, m + 7 + q) == seq![' '] + w + seq![' ']);
    assert(w[0] == 'i');
    assert(w.last() == p.last());
    lemma_trim_padded(w);
    assert forall|k: int| 0 <= k < 2 implies w[k] != ' ' by {}
    lemma_split_none(w, ' ', 2);
    assert forall|k: int| 2 < k < w.len() implies w[k] != ' ' by {
        assert(w[k] == p[k - 3]);
    }
    lemma_split_after(w, ' ', 2, w.len() as int);
    assert(w.subrange(0, 2) == seq!['i', 'f']);
    assert(w.subrange(3, w.len() as int) == p);
    assert(split(w, ' ') == seq![seq!['i', 'f'], p]);
    assert forall|k: int| 0 <= k < p.len() implies p[k] != '.' by {}
    lemma_simple_path(p);
    assert(parse_tag(s.subrange(m + 2, m + 7 + q)) == Some(Tag::If(seq![p])));
    let st2 = State {
        ops: st1.ops.push(Op::Branch(seq![p], 0)),
        open: st1.open.push(Open { kind: Block::If, index: st1.ops.len() as usize, offset: m as usize }),
    };
    assert(tag_step(st1, Some(Tag::If(seq![p])), m) == Ok::<State, Error>(st2));
    let e = m + 9 + q;
    assert(s.len() == e + b.len());
    assert forall|k: int| e <= k < s.len() implies s[k] != '{' by {
        assert(s[k] == b[k - e]);
    }
    lemma_literal_run(s, e, s.len() as int, st2);
}

/// A block tag whose content lies between `m + 2` and `m + 2 + n`.
proof fn lemma_tag_at(s: Seq<char>, m: int, n: int, st: State)
    requires
        0 <= m,
        0 <= n,
        m + 3 + n < s.len(),
        s[m] == '{' && s[m + 1] == '%',
        s[m + 2 + n] == '%' && s[m + 3 + n] == '}',
        forall|k: int| m + 2 <= k < m + 2 + n ==> s[k] != '%',
    ensures
        compile_from(s, m, st) == match tag_step(st, parse_tag(s.subrange(m + 2, m + 2 + n)), m) {
            Ok(next) => compile_from(s, m + 4 + n, next),
            Err(e) => Err(e),
        },
{
    lemma_find_close_at(s, m + 2, m + 2 + n, '%');
}

/// A one-word tag `{% w %}`.
proof fn lemma_word_tag(w: Seq<char>)
    requires
        w.len() > 0,
        forall|k: int| 0 <= k < w.len() ==> !is_space(#[trigger] w[k]),
    ensures
        split(trim(seq![' '] + w + seq![' ']), ' ') == seq![w],
{
    assert(w.last() == w[w.len() - 1]);
    lemma_trim_padded(w);
    lemma_split_none(w, ' ', w.len() as int);
    assert(w.subrange(0, w.len() as int) == w);
}

pub open spec fn plain_word(p: Seq<char>) -> bool {
    &&& p.len() > 0
    &&& forall|k: int|
        0 <= k < p.len() ==> !is_space(#[trigger] p[k]) && p[k] != '.' && p[k] != '%' && p[k] != '{' && p[k]
            != '}' && p[k] != '|' && p[k] != '#'
}

pub open spec fn plain_run(t: Seq<char>) -> bool {
    t.len() > 0 && no_char(t, '{')
}

/// A value expression `{x}` whose path is one plain word.
proof fn lemma_expr_at(s: Seq<char>, m: int, x: Seq<char>, st: State)
    requires
        0 <= m,
        m + 1 + x.len() < s.len(),
        plain_word(x),
        s[m] == '{',
        s.subrange(m + 1, m + 1 + x.len()) == x,
        s[m + 1 + x.len()] == '}',
    ensures
        compile_from(s, m, st) == compile_from(
            s,
            m + 2 + x.len(),
            State { ops: st.ops.push(Op::Value(seq![x], Seq::empty())), open: st.open },
        ),
{
    let q = x.len() as int;
    assert(s[m + 1] == x[0]);
    assert forall|k: int| m + 1 <= k < m + 1 + q implies s[k] != '}' by {
        assert(s[k] == x[k - m - 1]);
    }
    lemma_find_char_at(s, m + 1, m + 1 + q, '}');
    lemma_split_none(x, '|', q);
    assert(x.subrange(0, q) == x);
    assert(split(x, '|') == seq![x]);
    assert(x.last() == x[q - 1]);
    assert(trim_start(x) == x);
    assert(trim_end(x) == x);
    lemma_simple_path(x);
    let names = split(x, '|').drop_first().map_values(|p: Seq<char>| trim(p));
    assert(names == Seq::<Seq<char>>::empty());
    assert(parse_expr(x) == Some((seq![x], Seq::<Seq<char>>::empty())));
}

/// The `if` tag `{% if p %}` holds the words `if` and `p`.
proof fn lemma_if_words(p: Seq<char>)
    requires
        plain_word(p),
    ensures
        split(trim(seq![' '] + (seq!['i', 'f', ' '] + p) + seq![' ']), ' ') == seq![seq!['i', 'f'], p],
{
    let w = seq!['i', 'f', ' '] + p;
    assert(w[0] == 'i');
    assert(w.last() == p.last());
    assert(p.last() == p[p.len() - 1]);
    lemma_trim_padded(w);
    assert forall|k: int| 0 <= k < 2 implies w[k] != ' ' by {}
    lemma_split_none(w, ' ', 2);
    assert forall|k: int| 2 < k < w.len() implies w[k] != ' ' by {
        assert(w[k] == p[k - 3]);
    }
    lemma_split_after(w, ' ', 2, w.len() as int);
    assert(w.subrange(0, 2) == seq!['i', 'f']);
    assert(w.subrange(3, w.len() as int) == p);
}

proof fn lemma_else_tag()
    ensures
        parse_tag(seq![' ', 'e', 'l', 's', 'e', ' ']) == Some(Tag::Else),
{
    let w = seq!['e', 'l', 's', 'e'];
    assert(seq![' ', 'e', 'l', 's', 'e', ' '] == seq![' '] + w + seq![' ']);
    lemma_word_tag(w);
}

proof fn lemma_endif_tag()
    ensures
        parse_tag(seq![' ', 'e', 'n', 'd', 'i', 'f', ' ']) == Some(Tag::EndIf),
{
    let w = seq!['e', 'n', 'd', 'i', 'f'];
    assert(seq![' ', 'e', 'n', 'd', 'i', 'f', ' '] == seq![' '] + w + seq![' ']);
    lemma_word_tag(w);
    assert(w != seq!['e', 'l', 's', 'e']);
}

proof fn lemma_endfor_tag()
    ensures
        parse_tag(seq![' ', 'e', 'n', 'd', 'f', 'o', 'r', ' ']) == Some(Tag::EndFor),
{
    let w = seq!['e', 'n', 'd', 'f', 'o', 'r'];
    assert(seq![' ', 'e', 'n', 'd', 'f', 'o', 'r', ' '] == seq![' '] + w + seq![' ']);
    lemma_word_tag(w);
    assert(w != seq!['e', 'l', 's', 'e']);
    assert(w != seq!['e', 'n', 'd', 'i', 'f']);
}

pub open spec fn if_else_source(p: Seq<char>, a: Seq<char>, b: Seq<char>) -> Seq<char> {
    if_tag(p) + a + seq!['{', '%', ' ', 'e', 'l', 's', 'e', ' ', '%', '}'] + b + endif_tag()
}

/// `{% if p %}a{% else %}b{% endif %}` compiles to a branch on `p` past the
/// jump that skips `b`.
#[verifier::rlimit(50)]
pub proof fn law_if_else_compiles(p: Seq<char>, a: Seq<char>, b: Seq<char>)
    requires
        plain_word(p),
        plain_run(a),
        plain_run(b),
    ensures
        compile_spec(if_else_source(p, a, b)) == Ok::<Seq<Op>, Error>(
            seq![Op::Branch(seq![p], 3), Op::Literal(a), Op::Jump(4), Op::Literal(b)],
        ),
{
    let s = if_else_source(p, a, b);
    let q = p.len() as int;
    let t = if_tag(p);
    let init = State { ops: Seq::empty(), open: Seq::empty() };
    // the if tag
    assert forall|k: int| 2 <= k < 7 + q implies s[k] != '%' by {
        assert(s[k] == t[k]);
        if 6 <= k < 6 + q {
            assert(t[k] == p[k - 6]);
        }
    }
    assert(s[7 + q] == t[7 + q] && s[8 + q] == t[8 + q]);
    lemma_tag_at(s, 0, 5 + q, init);
    assert(s.subrange(2, 7 + q) == seq![' '] + (seq!['i', 'f', ' '] + p) + seq![' ']);
    lemma_if_words(p);
    lemma_simple_path(p);
    let st1 = State {
        ops: seq![Op::Branch(seq![p], 0)],
        open: seq![Open { kind: Block::If, index: 0, offset: 0 }],
    };
    assert(tag_step(init, parse_tag(s.subrange(2, 7 + q)), 0) == Ok::<State, Error>(st1));
    // the text a
    let ia = 9 + q;
    let ie = ia + a.len();
    assert forall|k: int| ia <= k < ie implies s[k] != '{' by {
        assert(s[k] == a[k - ia]);
    }
    assert(s[ie] == '{');
    lemma_literal_run(s, ia, ie, st1);
    assert(s.subrange(ia, ie) == a);
    let st2 = State { ops: st1.ops.push(Op::Literal(a)), open: st1.open };
    // the else tag
    assert forall|k: int| ie + 2 <= k < ie + 8 implies s[k] != '%' by {}
    assert(s[ie + 1] == '%' && s[ie + 8] == '%' && s[ie + 9] == '}');
    lemma_tag_at(s, ie, 6, st2);
    assert(s.subrange(ie + 2, ie + 8) == seq![' ', 'e', 'l', 's', 'e', ' ']);
    lemma_else_tag();
    assert(st2.open.last() == Open { kind: Block::If, index: 0, offset: 0 });
    let st3 = State {
        ops: patch(st2.ops, 0, 3).push(Op::Jump(0)),
        open: seq![Open { kind: Block::Else, index: 2, offset: ie as usize }],
    };
    assert(st2.open.drop_last().push(Open { kind: Block::Else, index: 2, offset: ie as usize }) =~= st3.open);
    assert(tag_step(st2, parse_tag(s.subrange(ie + 2, ie + 8)), ie) == Ok::<State, Error>(st3));
    // the text b
    let ib = ie + 10;
    let iz = ib + b.len();
    assert forall|k: int| ib <= k < iz implies s[k] != '{' by {
        assert(s[k] == b[k - ib]);
    }
    assert(s[iz] == '{');
    lemma_literal_run(s, ib, iz, st3);
    assert(s.subrange(ib, iz) == b);
    let st4 = State { ops: st3.ops.push(Op::Literal(b)), open: st3.open };
    // the endif tag
    assert forall|k: int| iz + 2 <= k < iz + 9 implies s[k] != '%' by {}
    assert(s[iz + 1] == '%' && s[iz + 9] == '%' && s[iz + 10] == '}');
    lemma_tag_at(s, iz, 7, st4);
    assert(s.subrange(iz + 2, iz + 9) == seq![' ', 'e', 'n', 'd', 'i', 'f', ' ']);
    lemma_endif_tag();
    assert(st4.open.last() == Open { kind: Block::Else, index: 2, offset: ie as usize });
    let st5 = State { ops: patch(st4.ops, 2, 4), open: Seq::empty() };
    assert(st4.open.drop_last() =~= st5.open);
    assert(tag_step(st4, parse_tag(s.subrange(iz + 2, iz + 9)), iz) == Ok::<State, Error>(st5));
    assert(s.len() == iz + 11);
    assert(st5.ops =~= seq![Op::Branch(seq![p], 3), Op::Literal(a), Op::Jump(4), Op::Literal(b)]);
}

/// Whatever `{% if p %}a{% else %}b{% endif %}` compiles to prints `a`
/// where `p` resolves to a value other than `null` and `false`, and `b`
/// where it resolves to one of those.
pub proof fn law_if_else_source<F: ValueFormatter>(
    p: Seq<char>,
    a: Seq<char>,
    b: Seq<char>,
    prog: Seq<Instruction>,
    ctx: Value,
    default: F,
    named: Seq<(String, F)>,
)
    requires
        plain_word(p),
        plain_run(a),
        plain_run(b),
        compile_spec(if_else_source(p, a, b)) == Ok::<Seq<Op>, Error>(ops_of(prog)),
    ensures
        prog.len() == 4,
        prog[0] matches Instruction::Branch(c, _) && texts(c@) == seq![p] && (resolve_from(ctx, c@) matches Ok(v)
            ==> render_spec(prog, ctx, default, named) == Ok::<Seq<char>, Error>(
            if truthy(v) {
                a
            } else {
                b
            },
        )),
{
    law_if_else_compiles(p, a, b);
    let ops = seq![Op::Branch(seq![p], 3), Op::Literal(a), Op::Jump(4), Op::Literal(b)];
    assert(ops_of(prog) == ops);
    assert(ops.len() == 4);
    assert(ops_of(prog).len() == prog.len());
    assert(prog.len() == 4);
    assert(op_of(prog[0]) == ops[0]);
    assert(op_of(prog[1]) == ops[1]);
    assert(op_of(prog[2]) == ops[2]);
    assert(op_of(prog[3]) == ops[3]);
    let c = prog[0]->Branch_0;
    let la = prog[1]->Literal_0;
    let lb = prog[3]->Literal_0;
    assert(prog =~= seq![
        Instruction::Branch(c, 3),
        Instruction::Literal(la),
        Instruction::Jump(4),
        Instruction::Literal(lb),
    ]);
    if resolve_from(ctx, c@) is Ok {
        law_if_else(prog, c, la, lb, ctx, default, named);
    }
}

/// The tag `{% for x in p %}` holds the words `for`, `x`, `in` and `p`.
proof fn lemma_for_words(x: Seq<char>, p: Seq<char>)
    requires
        plain_word(x),
        plain_word(p),
    ensures
        split(trim(seq![' '] + (seq!['f', 'o', 'r', ' '] + x + seq![' ', 'i', 'n', ' '] + p) + seq![' ']), ' ')
            == seq![seq!['f', 'o', 'r'], x, seq!['i', 'n'], p],
{
    let w = seq!['f', 'o', 'r', ' '] + x + seq![' ', 'i', 'n', ' '] + p;
    let qx = x.len() as int;
    assert(w[0] == 'f');
    assert(w.last() == p.last());
    assert(p.last() == p[p.len() - 1]);
    lemma_trim_padded(w);
    assert forall|k: int| 0 <= k < 3 implies w[k] != ' ' by {}
    lemma_split_none(w, ' ', 3);
    assert forall|k: int| 3 < k < 4 + qx implies w[k] != ' ' by {
        assert(w[k] == x[k - 4]);
    }
    lemma_split_after(w, ' ', 3, 4 + qx);
    assert forall|k: int| 4 + qx < k < 7 + qx implies w[k] != ' ' by {}
    assert(w[4 + qx] == ' ');
    lemma_split_after(w, ' ', 4 + qx, 7 + qx);
    assert(w[7 + qx] == ' ');
    assert forall|k: int| 7 + qx < k < w.len() implies w[k] != ' ' by {
        assert(w[k] == p[k - 8 - qx]);
    }
    lemma_split_after(w, ' ', 7 + qx, w.len() as int);
    assert(w.subrange(0, 3) == seq!['f', 'o', 'r']);
    assert(w.subrange(4, 4 + qx) == x);
    assert(w.subrange(5 + qx, 7 + qx) == seq!['i', 'n']);
    assert(w.subrange(8 + qx, w.len() as int) == p);
}

pub open spec fn for_source(x: Seq<char>, p: Seq<char>) -> Seq<char> {
    seq!['{', '%', ' ', 'f', 'o', 'r', ' '] + x + seq![' ', 'i', 'n', ' '] + p + seq![' ', '%', '}', '{'] + x
        + seq!['}', '{', '%', ' ', 'e', 'n', 'd', 'f', 'o', 'r', ' ', '%', '}']
}

/// `{% for x in p %}{x}{% endfor %}` compiles to a loop over `p` whose body
/// prints `x`, skipped past its end where the array is empty.
#[verifier::rlimit(50)]
pub proof fn law_for_compiles(x: Seq<char>, p: Seq<char>)
    requires
        plain_word(x),
        plain_word(p),
    ensures
        compile_spec(for_source(x, p)) == Ok::<Seq<Op>, Error>(
            seq![
                Op::PushLoopScope(seq![p], x, 4),
                Op::Value(seq![x], Seq::empty()),
                Op::Iterate(1),
                Op::PopLoopScope,
            ],
        ),
{
    let s = for_source(x, p);
    let qx = x.len() as int;
    let qp = p.len() as int;
    let init = State { ops: Seq::empty(), open: Seq::empty() };
    let n = 10 + qx + qp;
    assert forall|k: int| 2 <= k < 2 + n implies s[k] != '%' by {
        if 7 <= k < 7 + qx {
            assert(s[k] == x[k - 7]);
        }
        if 11 + qx <= k < 11 + qx + qp {
            assert(s[k] == p[k - 11 - qx]);
        }
    }
    assert(s[0] == '{' && s[1] == '%' && s[2 + n] == '%' && s[3 + n] == '}');
    lemma_tag_at(s, 0, n, init);
    assert(s.subrange(2, 2 + n) == seq![' '] + (seq!['f', 'o', 'r', ' '] + x + seq![' ', 'i', 'n', ' '] + p)
        + seq![' ']);
    lemma_for_words(x, p);
    lemma_simple_path(p);
    let st1 = State {
        ops: seq![Op::PushLoopScope(seq![p], x, 0)],
        open: seq![Open { kind: Block::For, index: 0, offset: 0 }],
    };
    assert(tag_step(init, parse_tag(s.subrange(2, 2 + n)), 0) == Ok::<State, Error>(st1));
    let m = 4 + n;
    assert(s[m] == '{');
    assert(s.subrange(m + 1, m + 1 + qx) == x);
    assert(s[m + 1 + qx] == '}');
    lemma_expr_at(s, m, x, st1);
    let st2 = State { ops: st1.ops.push(Op::Value(seq![x], Seq::empty())), open: st1.open };
    let e = m + 2 + qx;
    assert forall|k: int| e + 2 <= k < e + 10 implies s[k] != '%' by {}
    assert(s[e] == '{' && s[e + 1] == '%' && s[e + 10] == '%' && s[e + 11] == '}');
    lemma_tag_at(s, e, 8, st2);
    assert(s.subrange(e + 2, e + 10) == seq![' ', 'e', 'n', 'd', 'f', 'o', 'r', ' ']);
    lemma_endfor_tag();
    assert(st2.open.last() == Open { kind: Block::For, index: 0, offset: 0 });
    let st3 = State {
        ops: patch(st2.ops.push(Op::Iterate(1)).push(Op::PopLoopScope), 0, 4),
        open: Seq::empty(),
    };
    assert(st2.open.drop_last() =~= st3.open);
    assert(tag_step(st2, parse_tag(s.subrange(e + 2, e + 10)), e) == Ok::<State, Error>(st3));
    assert(s.len() == e + 12);
    assert(st3.ops =~= seq![
        Op::PushLoopScope(seq![p], x, 4),
        Op::Value(seq![x], Seq::empty()),
        Op::Iterate(1),
        Op::PopLoopScope,
    ]);
}

/// Whatever `{% for x in p %}{x}{% endfor %}` compiles to prints each element
/// of the array that `p` resolves to with the default formatter, in order;
/// an empty array prints nothing.
pub proof fn law_for_source<F: ValueFormatter>(
    x: Seq<char>,
    p: Seq<char>,
    prog: Seq<Instruction>,
    ctx: Value,
    default: F,
    named: Seq<(String, F)>,
)
    requires
        plain_word(x),
        plain_word(p),
        compile_spec(for_source(x, p)) == Ok::<Seq<Op>, Error>(ops_of(prog)),
    ensures
        prog.len() == 4,
        prog[0] matches Instruction::PushLoopScope(c, _, _) && texts(c@) == seq![p] && (resolve_from(ctx, c@) matches Ok(
            Value::Array(items),
        ) ==> render_spec(prog, ctx, default, named) == each_formatted(default, items@, 0) && (items@.len() == 0
            ==> render_spec(prog, ctx, default, named) == Ok::<Seq<char>, Error>(Seq::empty()))),
{
    law_for_compiles(x, p);
    let ops = seq![
        Op::PushLoopScope(seq![p], x, 4),
        Op::Value(seq![x], Seq::empty()),
        Op::Iterate(1),
        Op::PopLoopScope,
    ];
    assert(ops_of(prog) == ops);
    assert(ops.len() == 4);
    assert(ops_of(prog).len() == prog.len());
    assert(op_of(prog[0]) == ops[0]);
    assert(op_of(prog[1]) == ops[1]);
    assert(op_of(prog[2]) == ops[2]);
    assert(op_of(prog[3]) == ops[3]);
    let c = prog[0]->PushLoopScope_0;
    let name = prog[0]->PushLoopScope_1;
    let q = prog[1]->Value_0;
    let f = prog[1]->Value_1;
    assert(texts(q@) == seq![x]);
    assert(texts(f@) == Seq::<Seq<char>>::empty());
    assert(texts(q@).len() == q@.len());
    assert(texts(f@).len() == f@.len());
    assert(q@.len() == 1);
    assert(texts(q@)[0] == q@[0]@);
    assert(name@ == x);
    if resolve_from(ctx, c@) matches Ok(Value::Array(_)) {
        law_loop_concatenates(prog, c, name, ctx, default, named);
    }
}

/// Text without any `{` always compiles: to nothing where it is empty, else
/// to one literal that holds it.
pub proof fn law_literal_compiles(s: Seq<char>)
    requires
        no_char(s, '{'),
    ensures
        compile_spec(s) == Ok::<Seq<Op>, Error>(
            if s.len() == 0 {
                Seq::empty()
            } else {
                seq![Op::Literal(s)]
            },
        ),
{
    let init = State { ops: Seq::empty(), open: Seq::empty() };
    lemma_literal_run(s, 0, s.len() as int, init);
    assert(s.subrange(0, s.len() as int) == s);
    assert(init.ops.push(Op::Literal(s)) =~= seq![Op::Literal(s)]);
}

/// `{x}` compiles to one value instruction with the one-segment path `x` and
/// no formatter, so that it prints with the default formatter.
pub proof fn law_value_compiles(x: Seq<char>)
    requires
        plain_word(x),
    ensures
        compile_spec(seq!['{'] + x + seq!['}']) == Ok::<Seq<Op>, Error>(seq![Op::Value(seq![x], Seq::empty())]),
{
    let s = seq!['{'] + x + seq!['}'];
    let init = State { ops: Seq::empty(), open: Seq::empty() };
    assert(s.subrange(1, 1 + x.len() as int) == x);
    lemma_expr_at(s, 0, x, init);
    assert(init.ops.push(Op::Value(seq![x], Seq::empty())) =~= seq![Op::Value(seq![x], Seq::empty())]);
}

proof fn lemma_trim_word(w: Seq<char>)
    requires
        plain_word(w),
    ensures
        trim(w) == w,
{
    assert(w.last() == w[w.len() - 1]);
}

pub open spec fn pipe_source(x: Seq<char>, f1: Seq<char>, f2: Seq<char>) -> Seq<char> {
    seq!['{'] + x + seq!['|'] + f1 + seq!['|'] + f2 + seq!['}']
}

/// `{x|f1|f2}` compiles to one value instruction with the path `x` and the
/// formatters `f1` and `f2`, in that order.
#[verifier::rlimit(50)]
pub proof fn law_pipe_compiles(x: Seq<char>, f1: Seq<char>, f2: Seq<char>)
    requires
        plain_word(x),
        plain_word(f1),
        plain_word(f2),
    ensures
        compile_spec(pipe_source(x, f1, f2)) == Ok::<Seq<Op>, Error>(seq![Op::Value(seq![x], seq![f1, f2])]),
{
    let s = pipe_source(x, f1, f2);
    let c = x + seq!['|'] + f1 + seq!['|'] + f2;
    let (a, b, d) = (x.len() as int, f1.len() as int, f2.len() as int);
    let init = State { ops: Seq::empty(), open: Seq::empty() };
    assert(s == seq!['{'] + c + seq!['}']);
    assert(s.subrange(1, 1 + c.len() as int) == c);
    assert forall|k: int| 1 <= k < 1 + c.len() implies s[k] != '}' by {
        assert(s[k] == c[k - 1]);
        if k - 1 < a {
            assert(c[k - 1] == x[k - 1]);
        } else if a < k - 1 < a + 1 + b {
            assert(c[k - 1] == f1[k - 2 - a]);
        } else if a + 1 + b < k - 1 {
            assert(c[k - 1] == f2[k - 3 - a - b]);
        }
    }
    assert(s[1 + c.len() as int] == '}');
    lemma_find_char_at(s, 1, 1 + c.len() as int, '}');
    assert forall|k: int| 0 <= k < a implies c[k] != '|' by {
        assert(c[k] == x[k]);
    }
    lemma_split_none(c, '|', a);
    assert forall|k: int| a < k < a + 1 + b implies c[k] != '|' by {
        assert(c[k] == f1[k - a - 1]);
    }
    lemma_split_after(c, '|', a, a + 1 + b);
    assert forall|k: int| a + 1 + b < k < c.len() implies c[k] != '|' by {
        assert(c[k] == f2[k - a - b - 2]);
    }
    lemma_split_after(c, '|', a + 1 + b, c.len() as int);
    assert(c.subrange(0, a) == x);
    assert(c.subrange(a + 1, a + 1 + b) == f1);
    assert(c.subrange(a + 2 + b, c.len() as int) == f2);
    assert(split(c, '|') == seq![x, f1, f2]);
    lemma_trim_word(x);
    lemma_trim_word(f1);
    lemma_trim_word(f2);
    lemma_simple_path(x);
    let names = split(c, '|').drop_first().map_values(|p: Seq<char>| trim(p));
    assert(names =~= seq![f1, f2]);
    assert(parse_expr(c) == Some((seq![x], seq![f1, f2])));
    assert(init.ops.push(Op::Value(seq![x], seq![f1, f2])) =~= seq![Op::Value(seq![x], seq![f1, f2])]);
    assert(s[1] == x[0]);
    assert(s.len() == 2 + c.len());
    let st = State { ops: init.ops.push(Op::Value(seq![x], seq![f1, f2])), open: init.open };
    assert(compile_from(s, 0, init) == compile_from(s, s.len() as int, st));
}

/// Whatever `{x|f1|f2}` compiles to prints, where `x` resolves, what `f2`
/// prints of the string that `f1` printed of the resolved value.
pub proof fn law_pipe_source<F: ValueFormatter>(
    x: Seq<char>,
    f1: Seq<char>,
    f2: Seq<char>,
    prog: Seq<Instruction>,
    ctx: Value,
    default: F,
    named: Seq<(String, F)>,
    g1: F,
    g2: F,
    s1: Seq<char>,
)
    requires
        plain_word(x),
        plain_word(f1),
        plain_word(f2),
        compile_spec(pipe_source(x, f1, f2)) == Ok::<Seq<Op>, Error>(ops_of(prog)),
        lookup(named, f1) == Some(g1),
        lookup(named, f2) == Some(g2),
    ensures
        prog.len() == 1,
        prog[0] matches Instruction::Value(path, _) && texts(path@) == seq![x] && (resolve_from(ctx, path@) matches Ok(v)
            ==> (g1.spec_format(v) == Ok::<Seq<char>, Error>(s1) ==> render_spec(prog, ctx, default, named)
            == g2.spec_format(Value::String(string_from(s1))))),
{
    law_pipe_compiles(x, f1, f2);
    let ops = seq![Op::Value(seq![x], seq![f1, f2])];
    assert(ops_of(prog) == ops);
    assert(ops_of(prog).len() == prog.len());
    assert(prog.len() == 1);
    assert(op_of(prog[0]) == ops[0]);
    let path = prog[0]->Value_0;
    let names = prog[0]->Value_1;
    assert(texts(names@) == seq![f1, f2]);
    assert(texts(names@).len() == names@.len());
    assert(names@[0]@ == texts(names@)[0]);
    assert(names@[1]@ == texts(names@)[1]);
    assert(prog =~= seq![Instruction::Value(path, names)]);
    law_value_instruction(prog, path, names, ctx, default, named);
    if let Ok(v) = resolve_from(ctx, path@) {
        if g1.spec_format(v) == Ok::<Seq<char>, Error>(s1) {
            law_formatter_pipe(default, named, v, names@, g1, g2, s1);
        }
    }
}

} // verus!
