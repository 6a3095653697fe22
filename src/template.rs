//! A compiled template.
use crate::compiler::{compile, compile_spec};
use crate::error::Error;
use crate::instruction::{ops_of, Instruction};
use crate::render::{execute_all, run_block, ValueFormatter};
use crate::table::{find_entry, lemma_first_index_bounds, lookup, put_entry};
use crate::value::Value;
use vstd::prelude::*;

verus! {

/// The output of a whole instruction list, run against `ctx` with no loop
/// bindings in scope.
pub open spec fn render_spec<F: ValueFormatter>(
    prog: Seq<Instruction>,
    ctx: Value,
    default: F,
    named: Seq<(String, F)>,
) -> Result<Seq<char>, Error> {
    run_block(prog, 0, prog.len() as int, ctx, Seq::empty(), default, named)
}

/// Template text compiled into instructions. It is never changed after it
/// is compiled.
pub struct Template {
    pub instructions: Vec<Instruction>,
}

impl Template {
    /// Compiles `text`, as [`compile_spec`] says.
    pub fn compile(text: &str) -> (r: Result<Template, Error>)
        ensures
            match compile_spec(text@) {
                Ok(ops) => r matches Ok(t) && ops_of(t.instructions@) == ops,
                Err(e) => r == Err::<Template, Error>(e),
            },
    {
        match compile(text) {
            Ok(instructions) => Ok(Template { instructions }),
            Err(e) => Err(e),
        }
    }

    /// Renders the template against `ctx`, with `default` printing values that
    /// name no formatter and `named` holding the formatters by name.
    pub fn render<F: ValueFormatter>(&self, ctx: &Value, default: &F, named: &Vec<(String, F)>) -> (r:
        Result<String, Error>)
        ensures
            match render_spec(self.instructions@, *ctx, *default, named@) {
                Ok(s) => r matches Ok(out) && out@ == s,
                Err(e) => r == Err::<String, Error>(e),
            },
    {
        execute_all(&self.instructions, ctx, default, named)
    }
}

/// Compiles `text` and registers it under `name`, replacing a template of
/// that name; on a compile error the registry is left as it was.
pub fn register_template(templates: &mut Vec<(String, Template)>, name: &str, text: &str) -> (r: Result<(), Error>)
    ensures
        match compile_spec(text@) {
            Ok(ops) => r is Ok && (lookup(final(templates)@, name@) matches Some(t) && ops_of(t.instructions@) == ops)
                && forall|k: Seq<char>| k != name@ ==> lookup(#[trigger] final(templates)@, k) == lookup(old(templates)@, k),
            Err(e) => r == Err::<(), Error>(e) && final(templates)@ == old(templates)@,
        },
{
    let template = match Template::compile(text) {
        Ok(t) => t,
        Err(e) => {
            return Err(e);
        },
    };
    put_entry(templates, name.to_owned(), template);
    Ok(())
}

/// Renders the template registered under `name` against `ctx`. Where there is
/// none, fails with [`Error::UnknownTemplate`] and renders nothing.
pub fn render_named<F: ValueFormatter>(
    templates: &Vec<(String, Template)>,
    name: &str,
    ctx: &Value,
    default: &F,
    named: &Vec<(String, F)>,
) -> (r: Result<String, Error>)
    ensures
        match lookup(templates@, name@) {
            None => r matches Err(Error::UnknownTemplate { name: n }) && n@ == name@,
            Some(t) => match render_spec(t.instructions@, *ctx, *default, named@) {
                Ok(s) => r matches Ok(out) && out@ == s,
                Err(e) => r == Err::<String, Error>(e),
            },
        },
{
    let key = name.to_owned();
    match find_entry(templates, &key) {
        Some(i) => {
            proof {
                lemma_first_index_bounds(templates@, key@, templates@.len() as int);
            }
            templates[i].1.render(ctx, default, named)
        },
        None => Err(Error::UnknownTemplate { name: key }),
    }
}

} // verus!
