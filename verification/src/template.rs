//! The template engine's per-entry planning: where one entry of the
//! template source tree lands under the target root, and what happens to a
//! file entry once its content is rendered.
//!
//! The walk itself, with its directory listing, file reads and writes, is
//! the caller's business: for every entry it asks this module for the
//! rendered target path, and for file entries hands the rendered content
//! and the current content of the target to the conflict logic.

use crate::chars::{has_prefix, starts_with};
use crate::context::{spec_prompts, spec_resolve, Context, resolve};
use crate::defaults::Defaults;
use crate::errors::Error;
use handlebars::Handlebars;
use std::collections::BTreeMap;
use vstd::prelude::*;

verus! {

/// The handlebars registry: the render collaborator, set up by the caller
/// with the helper transforms the template language offers.
#[verifier::external_type_specification]
#[verifier::external_body]
pub struct ExHandlebars<'reg>(Handlebars<'reg>);

/// The fixed name of the subdirectory holding the renderable file tree
/// under a template root.
pub fn template_dir_name() -> (r: String)
    ensures
        r@ == "template"@,
{
    String::from_str("template")
}

/// The fixed name of the defaults file under a template root.
pub fn defaults_file_name() -> (r: String)
    ensures
        r@ == "default.env"@,
{
    String::from_str("default.env")
}

/// A template: the path of its source root, which holds the defaults file
/// and the renderable file tree.
#[derive(Debug)]
pub struct Template {
    /// Path to the template source root.
    pub path: String,
}

/// Relies on handlebars::Handlebars::render_template: renders a template
/// string against the context's name-to-value pairs, or reports why the
/// template was rejected. What text a render yields is the collaborator's
/// business; the engine's decisions take it as given.
#[verifier::external_body]
fn render_with(hbs: &Handlebars<'_>, template: &str, ctx: &Context) -> (r: Result<String, String>)
{
    let mut data: BTreeMap<String, String> = BTreeMap::new();
    for (k, v) in ctx.pairs().iter() {
        data.insert(k.clone(), v.clone());
    }
    hbs.render_template(template, &data).map_err(|e| e.to_string())
}

/// Renders one template text against the context; a rejected template comes
/// back as a render error naming it.
pub fn render_text(hbs: &Handlebars<'_>, ctx: &Context, template: &str) -> (r: Result<
    String,
    Error,
>)
    ensures
        match r {
            Ok(_) => true,
            Err(e) => e matches Error::Render { template: t, detail: _ } && t@ == template@,
        },
{
    match render_with(hbs, template, ctx) {
        Ok(s) => Ok(s),
        Err(d) => Err(Error::Render { template: String::from_str(template), detail: d }),
    }
}

/// `s` with every leading repetition of `p` removed.
pub open spec fn strip_all_prefix(s: Seq<char>, p: Seq<char>) -> Seq<char>
    decreases s.len(),
{
    if p.len() == 0 {
        s
    } else if has_prefix(s, p) {
        strip_all_prefix(s.subrange(p.len() as int, s.len() as int), p)
    } else {
        s
    }
}

/// An entry's path relative to the template source root: the scratch
/// prefix, however often repeated, stripped from the front.
pub fn relative_to_root(path: &str, prefix: &str) -> (r: String)
    ensures
        r@ == strip_all_prefix(path@, prefix@),
{
    let m: usize = prefix.unicode_len();
    let n: usize = path.unicode_len();
    if m == 0 {
        return String::from_str(path);
    }
    let mut pos: usize = 0;
    proof {
        assert(path@.subrange(0, n as int) =~= path@);
    }
    loop
        invariant
            0 <= pos <= n,
            1 <= m,
            n as int == path@.len(),
            m as int == prefix@.len(),
            strip_all_prefix(path@, prefix@) == strip_all_prefix(
                path@.subrange(pos as int, n as int),
                prefix@,
            ),
        ensures
            pos <= n,
            strip_all_prefix(path@, prefix@) == path@.subrange(pos as int, n as int),
        decreases n - pos,
    {
        let ghost rem = path@.subrange(pos as int, n as int);
        let rest: &str = path.substring_char(pos, n);
        if starts_with(rest, prefix) {
            proof {
                assert(rem.subrange(m as int, rem.len() as int) =~= path@.subrange(
                    pos + m,
                    n as int,
                ));
            }
            pos = pos + m;
        } else {
            break ;
        }
    }
    String::from_str(path.substring_char(pos, n))
}

/// A rendered relative path joined under the target root: an absolute
/// rendered path stands alone, anything else goes below the root, with a
/// separator added unless the root already ends in one.
pub open spec fn spec_join(root: Seq<char>, rel: Seq<char>) -> Seq<char> {
    if rel.len() > 0 && rel[0] == '/' {
        rel
    } else if root.len() == 0 {
        rel
    } else if root[root.len() - 1] == '/' {
        root + rel
    } else {
        root + "/"@ + rel
    }
}

/// Joins a rendered relative path under the target root.
pub fn join_path(root: &str, rel: &str) -> (r: String)
    ensures
        r@ == spec_join(root@, rel@),
{
    let n: usize = rel.unicode_len();
    let rn: usize = root.unicode_len();
    if n > 0 && rel.get_char(0) == '/' {
        return String::from_str(rel);
    }
    if rn == 0 {
        return String::from_str(rel);
    }
    if root.get_char(rn - 1) == '/' {
        return String::from_str(root).concat(rel);
    }
    String::from_str(root).concat("/").concat(rel)
}

/// The target path for one entry of the template source tree: the entry's
/// path relative to the scratch prefix, rendered against the context, and
/// joined under the target root. Yields the rendered relative path and the
/// full target path; a rejected path template comes back as a render error
/// naming the relative path.
pub fn plan_entry_path(
    hbs: &Handlebars<'_>,
    ctx: &Context,
    entry_path: &str,
    scratch_prefix: &str,
    target_root: &str,
) -> (r: Result<(String, String), Error>)
    ensures
        match r {
            Ok(p) => p.1@ == spec_join(target_root@, p.0@),
            Err(e) => e matches Error::Render { template: t, detail: _ } && t@ == strip_all_prefix(
                entry_path@,
                scratch_prefix@,
            ),
        },
{
    let rel: String = relative_to_root(entry_path, scratch_prefix);
    let rendered: String = match render_text(hbs, ctx, rel.as_str()) {
        Ok(s) => s,
        Err(e) => {
            return Err(e);
        },
    };
    let target: String = join_path(target_root, rendered.as_str());
    Ok((rendered, target))
}

impl Template {
    /// A template rooted at `path`.
    pub fn new(path: String) -> (t: Template)
        ensures
            t.path@ == path@,
    {
        Template { path }
    }

    /// Resolves the render context from the parsed defaults: the defaults
    /// verbatim when `accept` is set, otherwise the injected environment
    /// override for each name, and failing that the operator's next answer.
    /// The first occurrence of a duplicated name wins and is the one asked
    /// about. Reading the defaults file and prompting are the caller's
    /// business; `answers` carries one line per prompted name, as
    /// `crate::context::prompts` lists them.
    pub fn context(
        &self,
        defaults: &Defaults,
        accept: bool,
        env: &Vec<(String, String)>,
        answers: &Vec<String>,
    ) -> (r: Context)
        requires
            accept || answers.deep_view().len() == spec_prompts(
                defaults.deep_view(),
                env.deep_view(),
            ).len(),
        ensures
            r@ == spec_resolve(
                defaults.deep_view(),
                accept,
                env.deep_view(),
                answers.deep_view(),
            ),
            r.wf(),
    {
        resolve(defaults, accept, env, answers)
    }
}

} // verus!
