//! Rendering of text templates through MiniJinja.

use vstd::prelude::*;

use minijinja::{Environment, Value};

use crate::text::strings_view;

verus! {

/// The MiniJinja template environment (its templates, filters and settings).
#[verifier::external_type_specification]
#[verifier::external_body]
pub struct ExEnvironment<'source>(Environment<'source>);

/// An error of MiniJinja: a template syntax error or a failure while
/// rendering.
#[verifier::external_type_specification]
#[verifier::external_body]
pub struct ExTemplateError(minijinja::Error);

/// The values a template is rendered with: named strings, named lists of
/// strings and named booleans.
pub struct TemplateContext {
    pub text: Vec<(String, String)>,
    pub lists: Vec<(String, Vec<String>)>,
    pub flags: Vec<(String, bool)>,
}

impl TemplateContext {
    pub open spec fn text_view(&self) -> Seq<(Seq<char>, Seq<char>)> {
        self.text@.map_values(|p: (String, String)| (p.0@, p.1@))
    }

    pub open spec fn lists_view(&self) -> Seq<(Seq<char>, Seq<Seq<char>>)> {
        self.lists@.map_values(|p: (String, Vec<String>)| (p.0@, strings_view(p.1@)))
    }

    pub open spec fn flags_view(&self) -> Seq<(Seq<char>, bool)> {
        self.flags@.map_values(|p: (String, bool)| (p.0@, p.1))
    }
}

/// What MiniJinja makes, in an environment with the default settings, of
/// the template `source` named `name`, given a context that maps each name
/// of `text` to its string, each name of `lists` to its list of strings and
/// each name of `flags` to its boolean (a later entry for a name replacing
/// an earlier one): the rendered text, or nothing where the template does
/// not parse or rendering fails.
pub uninterp spec fn rendered(
    name: Seq<char>,
    source: Seq<char>,
    text: Seq<(Seq<char>, Seq<char>)>,
    lists: Seq<(Seq<char>, Seq<Seq<char>>)>,
    flags: Seq<(Seq<char>, bool)>,
) -> Option<Seq<char>>;

/// The template renders with that context.
pub open spec fn renders(
    name: Seq<char>,
    source: Seq<char>,
    text: Seq<(Seq<char>, Seq<char>)>,
    lists: Seq<(Seq<char>, Seq<Seq<char>>)>,
    flags: Seq<(Seq<char>, bool)>,
) -> bool {
    rendered(name, source, text, lists, flags) is Some
}

/// The rendered text (empty where rendering fails).
pub open spec fn render_text(
    name: Seq<char>,
    source: Seq<char>,
    text: Seq<(Seq<char>, Seq<char>)>,
    lists: Seq<(Seq<char>, Seq<Seq<char>>)>,
    flags: Seq<(Seq<char>, bool)>,
) -> Seq<char> {
    match rendered(name, source, text, lists, flags) {
        Some(t) => t,
        None => Seq::empty(),
    }
}

/// `Environment::new`: an environment with MiniJinja's default filters,
/// tests, globals and settings, and no templates.
///
/// Trusted: nothing is claimed beyond what `render_named_str` states of
/// environments made here.
#[verifier::external_body]
pub(crate) fn new_environment() -> Environment<'static> {
    Environment::new()
}

/// `Environment::render_named_str`: parse `source` as a template named
/// `name` and render it with the context.
///
/// Trusted: the outcome is what `rendered` names for the name, the source
/// and the context: the rendered text, or MiniJinja's error where `rendered`
/// is nothing. This holds for the default environments that
/// `new_environment` makes (the only ones this library makes).
#[verifier::external_body]
pub(crate) fn render_named_str(
    env: &Environment<'static>,
    name: &str,
    source: &str,
    ctx: &TemplateContext,
) -> (r: Result<String, minijinja::Error>)
    ensures
        match r {
            Ok(s) => rendered(name@, source@, ctx.text_view(), ctx.lists_view(), ctx.flags_view())
                == Some(s@),
            Err(_) => rendered(name@, source@, ctx.text_view(), ctx.lists_view(), ctx.flags_view())
                is None,
        },
{
    let pairs = ctx.text.iter().map(|(k, v)| (k.clone(), Value::from(v.as_str()))).chain(
        ctx.lists.iter().map(|(k, v)| (k.clone(), Value::from(v.clone()))),
    ).chain(ctx.flags.iter().map(|(k, b)| (k.clone(), Value::from(*b))));
    env.render_named_str(name, source, Value::from_iter(pairs))
}

} // verus!
