//! A registry whose formatters are values of one type chosen by the caller,
//! besides the built-in ones; rendering only reads it, so a registry that is
//! no longer changed can be shared between threads.
use crate::error::Error;
use crate::compiler::compile_spec;
use crate::format::Builtin;
use crate::instruction::ops_of;
use crate::render::ValueFormatter;
use crate::table::{lookup, put_entry};
use crate::template::{register_template, render_named, render_spec, Template};
use crate::value::Value;
use vstd::prelude::*;

verus! {

/// A formatter of a registry: a built-in one, or one of the caller's.
pub enum Formatter<F> {
    Builtin(Builtin),
    Custom(F),
}

impl<F: ValueFormatter> ValueFormatter for Formatter<F> {
    open spec fn spec_format(&self, v: Value) -> Result<Seq<char>, Error> {
        match self {
            Formatter::Builtin(b) => b.spec_format(v),
            Formatter::Custom(f) => f.spec_format(v),
        }
    }

    fn format(&self, v: &Value, out: &mut String) -> (r: Result<(), Error>) {
        match self {
            Formatter::Builtin(b) => b.format(v, out),
            Formatter::Custom(f) => f.format(v, out),
        }
    }
}

/// Templates and formatters by name, and the formatter for values that name none.
pub struct TinyTemplate<F> {
    pub templates: Vec<(String, Template)>,
    pub formatters: Vec<(String, Formatter<F>)>,
    pub default_formatter: Formatter<F>,
}

impl<F: ValueFormatter> TinyTemplate<F> {
    /// A registry with no templates, the HTML-escaping formatter as default,
    /// and the plain one registered as "unescaped".
    pub fn new() -> (r: TinyTemplate<F>)
        ensures
            r.templates@.len() == 0,
            r.default_formatter == Formatter::<F>::Builtin(Builtin::Escaped),
            r.formatters@.len() == 1,
            r.formatters@[0].0@ == seq!['u', 'n', 'e', 's', 'c', 'a', 'p', 'e', 'd'],
            r.formatters@[0].1 == Formatter::<F>::Builtin(Builtin::Unescaped),
    {
        let mut formatters: Vec<(String, Formatter<F>)> = Vec::new();
        let name = "unescaped".to_owned();
        proof {
            reveal_strlit("unescaped");
        }
        formatters.push((name, Formatter::Builtin(Builtin::Unescaped)));
        TinyTemplate { templates: Vec::new(), formatters, default_formatter: Formatter::Builtin(Builtin::Escaped) }
    }

    /// Compiles `text` and registers it under `name`, replacing a template of
    /// that name; on a compile error nothing changes.
    pub fn add_template(&mut self, name: &str, text: &str) -> (r: Result<(), Error>)
        ensures
            final(self).formatters@ == old(self).formatters@,
            final(self).default_formatter == old(self).default_formatter,
            match compile_spec(text@) {
                Ok(ops) => r is Ok && (lookup(final(self).templates@, name@) matches Some(t) && ops_of(
                    t.instructions@,
                ) == ops) && forall|k: Seq<char>|
                    k != name@ ==> lookup(#[trigger] final(self).templates@, k) == lookup(old(self).templates@, k),
                Err(e) => r == Err::<(), Error>(e) && final(self).templates@ == old(self).templates@,
            },
    {
        register_template(&mut self.templates, name, text)
    }

    /// Makes `formatter` the one for values that name none.
    pub fn set_default_formatter(&mut self, formatter: F)
        ensures
            final(self).default_formatter == Formatter::Custom(formatter),
            final(self).templates@ == old(self).templates@,
            final(self).formatters@ == old(self).formatters@,
    {
        self.default_formatter = Formatter::Custom(formatter);
    }

    /// Registers `formatter` under `name`, replacing one of that name.
    pub fn add_formatter(&mut self, name: &str, formatter: F)
        ensures
            lookup(final(self).formatters@, name@) == Some(Formatter::Custom(formatter)),
            forall|k: Seq<char>|
                k != name@ ==> lookup(#[trigger] final(self).formatters@, k) == lookup(old(self).formatters@, k),
            final(self).templates@ == old(self).templates@,
            final(self).default_formatter == old(self).default_formatter,
    {
        put_entry(&mut self.formatters, name.to_owned(), Formatter::Custom(formatter));
    }

    /// Renders the template registered under `template` against `context`.
    pub fn render(&self, template: &str, context: &Value) -> (r: Result<String, Error>)
        ensures
            match lookup(self.templates@, template@) {
                None => r matches Err(Error::UnknownTemplate { name: n }) && n@ == template@,
                Some(t) => match render_spec(t.instructions@, *context, self.default_formatter, self.formatters@) {
                    Ok(s) => r matches Ok(out) && out@ == s,
                    Err(e) => r == Err::<String, Error>(e),
                },
            },
    {
        render_named(&self.templates, template, context, &self.default_formatter, &self.formatters)
    }
}

impl<F: ValueFormatter> Default for TinyTemplate<F> {
    fn default() -> (r: TinyTemplate<F>)
        ensures
            r.templates@.len() == 0,
            r.default_formatter == Formatter::<F>::Builtin(Builtin::Escaped),
            r.formatters@.len() == 1,
    {
        TinyTemplate::new()
    }
}

} // verus!
