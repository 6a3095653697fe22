use tinytemplate::error::{Error, ValueKind};
use tinytemplate::format::Builtin;
use tinytemplate::sync;
use tinytemplate::value::Value;
use tinytemplate::TinyTemplate;

fn s(text: &str) -> Value {
    Value::String(text.to_string())
}

fn n(text: &str) -> Value {
    Value::Number(text.to_string())
}

fn obj(fields: Vec<(&str, Value)>) -> Value {
    Value::Object(fields.into_iter().map(|(k, v)| (k.to_string(), v)).collect())
}

fn render_one(text: &str, ctx: &Value) -> Result<String, Error> {
    let mut tt = TinyTemplate::new();
    tt.add_template("t", text)?;
    tt.render("t", ctx)
}

#[test]
fn hello_world() {
    let ctx = obj(vec![("name", s("World"))]);
    assert_eq!(render_one("Hello {name}!", &ctx).unwrap(), "Hello World!");
}

#[test]
fn for_loop_numbers() {
    let ctx = obj(vec![("nums", Value::Array(vec![n("1"), n("2"), n("3")]))]);
    assert_eq!(render_one("{% for n in nums %}{n},{% endfor %}", &ctx).unwrap(), "1,2,3,");
}

#[test]
fn unknown_template() {
    let tt = TinyTemplate::new();
    let r = tt.render("missing", &Value::Null);
    assert_eq!(r, Err(Error::UnknownTemplate { name: "missing".to_string() }));
}

#[test]
fn literal_text_unchanged() {
    let text = "plain text } with % and # but no opening brace\n";
    assert_eq!(render_one(text, &Value::Null).unwrap(), text);
    assert_eq!(render_one(text, &obj(vec![("a", n("1"))])).unwrap(), text);
    assert_eq!(render_one("", &Value::Null).unwrap(), "");
}

#[test]
fn default_formatter_escapes() {
    let ctx = obj(vec![("x", s("<a href='x'>&\"</a>"))]);
    assert_eq!(
        render_one("{x}", &ctx).unwrap(),
        "&lt;a href=&#x27;x&#x27;&gt;&amp;&quot;&lt;/a&gt;"
    );
}

#[test]
fn scalars_print() {
    let ctx = obj(vec![("t", Value::Bool(true)), ("f", Value::Bool(false)), ("z", Value::Null), ("k", n("-2.5"))]);
    assert_eq!(render_one("{t} {f} [{z}] {k}", &ctx).unwrap(), "true false [] -2.5");
}

#[test]
fn unescaped_formatter_by_name() {
    let mut tt: sync::TinyTemplate<Builtin> = sync::TinyTemplate::new();
    tt.add_template("t", "{ x | unescaped }").unwrap();
    let ctx = obj(vec![("x", s("<b>"))]);
    assert_eq!(tt.render("t", &ctx).unwrap(), "<b>");
}

#[test]
fn formatter_pipe_applies_left_to_right() {
    let mut tt: sync::TinyTemplate<Builtin> = sync::TinyTemplate::new();
    tt.add_formatter("esc", Builtin::Escaped);
    tt.add_template("once", "{x|esc}").unwrap();
    tt.add_template("twice", "{x|esc|esc}").unwrap();
    tt.add_template("mixed", "{x | esc | unescaped}").unwrap();
    let ctx = obj(vec![("x", s("<"))]);
    assert_eq!(tt.render("once", &ctx).unwrap(), "&lt;");
    assert_eq!(tt.render("twice", &ctx).unwrap(), "&amp;lt;");
    assert_eq!(tt.render("mixed", &ctx).unwrap(), "&lt;");
}

#[test]
fn set_default_formatter_changes_output() {
    let mut tt: sync::TinyTemplate<Builtin> = sync::TinyTemplate::new();
    tt.add_template("t", "{x}").unwrap();
    let ctx = obj(vec![("x", s("a&b"))]);
    assert_eq!(tt.render("t", &ctx).unwrap(), "a&amp;b");
    tt.set_default_formatter(Builtin::Unescaped);
    assert_eq!(tt.render("t", &ctx).unwrap(), "a&b");
}

#[test]
fn unknown_formatter() {
    let mut tt: sync::TinyTemplate<Builtin> = sync::TinyTemplate::new();
    tt.add_template("t", "{x | nope}").unwrap();
    let r = tt.render("t", &obj(vec![("x", n("1"))]));
    assert_eq!(r, Err(Error::UnknownFormatter { name: "nope".to_string() }));
}

#[test]
fn if_else_branches() {
    let text = "{% if cond %}A{% else %}B{% endif %}";
    let cases = vec![
        (Value::Bool(true), "A"),
        (Value::Bool(false), "B"),
        (Value::Null, "B"),
        (n("0"), "A"),
        (s(""), "A"),
        (Value::Array(vec![]), "A"),
    ];
    for (c, want) in cases {
        assert_eq!(render_one(text, &obj(vec![("cond", c)])).unwrap(), want);
    }
}

#[test]
fn if_without_else() {
    let text = "x{% if c %}y{% endif %}z";
    assert_eq!(render_one(text, &obj(vec![("c", Value::Bool(true))])).unwrap(), "xyz");
    assert_eq!(render_one(text, &obj(vec![("c", Value::Bool(false))])).unwrap(), "xz");
}

#[test]
fn loop_over_elements_in_order() {
    let ctx = obj(vec![("arr", Value::Array(vec![s("a"), s("b"), s("c")]))]);
    assert_eq!(render_one("{% for x in arr %}{x}{% endfor %}", &ctx).unwrap(), "abc");
    let empty = obj(vec![("arr", Value::Array(vec![]))]);
    assert_eq!(render_one("[{% for x in arr %}{x}{% endfor %}]", &empty).unwrap(), "[]");
}

#[test]
fn nested_loops_and_shadowing() {
    let ctx = obj(vec![
        ("x", s("outer")),
        ("rows", Value::Array(vec![
            obj(vec![("cells", Value::Array(vec![n("1"), n("2")]))]),
            obj(vec![("cells", Value::Array(vec![n("3")]))]),
        ])),
    ]);
    let text = "{x}:{% for r in rows %}[{% for x in r.cells %}{x}{% endfor %}]{% endfor %}:{x}";
    assert_eq!(render_one(text, &ctx).unwrap(), "outer:[12][3]:outer");
}

#[test]
fn dotted_paths_and_indices() {
    let ctx = obj(vec![("a", obj(vec![("b", Value::Array(vec![s("zero"), s("one")]))]))]);
    assert_eq!(render_one("{a.b.1}/{a.b.0}", &ctx).unwrap(), "one/zero");
}

#[test]
fn comments_are_stripped() {
    assert_eq!(render_one("a{# note {x} #}b", &Value::Null).unwrap(), "ab");
}

#[test]
fn render_twice_with_different_contexts() {
    let mut tt = TinyTemplate::new();
    tt.add_template("t", "{% for v in vs %}{v}{% endfor %}").unwrap();
    let one = obj(vec![("vs", Value::Array(vec![s("p"), s("q")]))]);
    let two = obj(vec![("vs", Value::Array(vec![s("r")]))]);
    assert_eq!(tt.render("t", &one).unwrap(), "pq");
    assert_eq!(tt.render("t", &two).unwrap(), "r");
    assert_eq!(tt.render("t", &one).unwrap(), "pq");
}

#[test]
fn add_template_replaces() {
    let mut tt = TinyTemplate::new();
    tt.add_template("t", "first").unwrap();
    tt.add_template("t", "second").unwrap();
    assert_eq!(tt.render("t", &Value::Null).unwrap(), "second");
}

#[test]
fn failed_compile_keeps_registry() {
    let mut tt = TinyTemplate::new();
    tt.add_template("t", "kept").unwrap();
    assert!(tt.add_template("t", "{% endif %}").is_err());
    assert_eq!(tt.render("t", &Value::Null).unwrap(), "kept");
}

#[test]
fn unmatched_endif_fails() {
    let r = TinyTemplate::new().add_template("t", "ab{% endif %}");
    assert_eq!(r, Err(Error::Unmatched { offset: 2 }));
}

#[test]
fn dangling_if_fails() {
    let r = TinyTemplate::new().add_template("t", "{% if x %}abc");
    assert_eq!(r, Err(Error::Unclosed { offset: 0 }));
}

#[test]
fn mismatched_tags_fail() {
    let mut tt = TinyTemplate::new();
    assert_eq!(tt.add_template("a", "{% for x in y %}{% endif %}"), Err(Error::Unmatched { offset: 16 }));
    assert_eq!(tt.add_template("b", "{% endfor %}"), Err(Error::Unmatched { offset: 0 }));
    assert_eq!(
        tt.add_template("c", "{% if x %}{% else %}{% else %}{% endif %}"),
        Err(Error::Unmatched { offset: 20 })
    );
    assert_eq!(tt.add_template("d", "{% for x in y %}"), Err(Error::Unclosed { offset: 0 }));
}

#[test]
fn unterminated_markers_fail() {
    let mut tt = TinyTemplate::new();
    assert_eq!(tt.add_template("a", "abc {name"), Err(Error::Unterminated { offset: 4 }));
    assert_eq!(tt.add_template("b", "x{% if y"), Err(Error::Unterminated { offset: 1 }));
    assert_eq!(tt.add_template("c", "{# comment"), Err(Error::Unterminated { offset: 0 }));
}

#[test]
fn malformed_expressions_fail() {
    let mut tt = TinyTemplate::new();
    assert_eq!(tt.add_template("a", "{}"), Err(Error::Malformed { offset: 0 }));
    assert_eq!(tt.add_template("b", "x{a..b}"), Err(Error::Malformed { offset: 1 }));
    assert_eq!(tt.add_template("c", "{a|}"), Err(Error::Malformed { offset: 0 }));
    assert_eq!(tt.add_template("d", "{% while x %}"), Err(Error::Malformed { offset: 0 }));
}

#[test]
fn missing_field_fails() {
    let r = render_one("{a.b}", &obj(vec![("a", obj(vec![]))]));
    assert_eq!(r, Err(Error::PathNotFound { segment: "b".to_string(), kind: ValueKind::Object }));
    let r = render_one("{a.5}", &obj(vec![("a", Value::Array(vec![n("1")]))]));
    assert_eq!(r, Err(Error::PathNotFound { segment: "5".to_string(), kind: ValueKind::Array }));
    let r = render_one("{a.b}", &obj(vec![("a", n("1"))]));
    assert_eq!(r, Err(Error::PathNotFound { segment: "b".to_string(), kind: ValueKind::Number }));
}

#[test]
fn loop_over_non_array_fails() {
    let r = render_one("{% for x in a %}{x}{% endfor %}", &obj(vec![("a", s("abc"))]));
    assert_eq!(r, Err(Error::NotIterable { kind: ValueKind::String }));
}

#[test]
fn containers_are_unprintable() {
    let r = render_one("{a}", &obj(vec![("a", Value::Array(vec![]))]));
    assert_eq!(r, Err(Error::Unprintable { kind: ValueKind::Array }));
}

#[test]
fn error_discards_partial_output() {
    let r = render_one("before {missing} after", &obj(vec![]));
    assert!(r.is_err());
}
