//! A small template engine: template text is compiled once into a flat list of
//! instructions, which a renderer then executes against structured values.
use vstd::prelude::*;

pub mod compiler;
pub mod error;
pub mod format;
pub mod instruction;
pub mod laws;
pub mod render;
pub mod sync;
pub mod table;
pub mod template;
pub mod text;
pub mod value;

use crate::compiler::compile_spec;
use crate::error::Error;
use crate::format::Builtin;
use crate::instruction::ops_of;
use crate::table::lookup;
use crate::template::{register_template, render_named, render_spec, Template};
use crate::value::Value;

verus! {

/// Templates by name, rendered with the HTML-escaping formatter.
pub struct TinyTemplate {
    pub templates: Vec<(String, Template)>,
}

impl TinyTemplate {
    /// A registry with no templates.
    pub fn new() -> (r: TinyTemplate)
        ensures
            r.templates@.len() == 0,
    {
        TinyTemplate { templates: Vec::new() }
    }

    /// Compiles `text` and registers it under `name`, replacing a template of
    /// that name; on a compile error nothing changes.
    pub fn add_template(&mut self, name: &str, text: &str) -> (r: Result<(), Error>)
        ensures
            match compile_spec(text@) {
                Ok(ops) => r is Ok && (lookup(final(self).templates@, name@) matches Some(t) && ops_of(
                    t.instructions@,
                ) == ops) && forall|k: Seq<char>|
                    k != name@ ==> lookup(#[trigger] final(self).templates@, k) == lookup(old(self).templates@, k),
                Err(e) => r == Err::<(), Error>(e) && final(self).templates@ == old(self).templates@,
            },
    {
        register_template(&mut self.templates, name, text)
    }

    /// Renders the template registered under `template` against `context`,
    /// printing values with the HTML-escaping formatter.
    pub fn render(&self, template: &str, context: &Value) -> (r: Result<String, Error>)
        ensures
            match lookup(self.templates@, template@) {
                None => r matches Err(Error::UnknownTemplate { name: n }) && n@ == template@,
                Some(t) => match render_spec(t.instructions@, *context, Builtin::Escaped, Seq::empty()) {
                    Ok(s) => r matches Ok(out) && out@ == s,
                    Err(e) => r == Err::<String, Error>(e),
                },
            },
    {
        let named: Vec<(String, Builtin)> = Vec::new();
        render_named(&self.templates, template, context, &Builtin::Escaped, &named)
    }
}

impl Default for TinyTemplate {
    fn default() -> (r: TinyTemplate)
        ensures
            r.templates@.len() == 0,
    {
        TinyTemplate::new()
    }
}

} // verus!
