//! A template file rendered with a `title`, through minijinja.

use vstd::prelude::*;
use minijinja::{Environment, Template};
use crate::error::FrontmatterError;

verus! {

#[verifier::external_type_specification]
#[verifier::external_body]
pub struct ExEnvironment<'source>(Environment<'source>);

#[verifier::external_type_specification]
#[verifier::external_body]
pub struct ExTemplate<'env: 'source, 'source>(Template<'env, 'source>);

#[verifier::external_type_specification]
#[verifier::external_body]
pub struct ExError(minijinja::Error);

/// The parent directory of a path, as `std::path::Path::parent` gives it.
pub uninterp spec fn path_parent(p: Seq<char>) -> Option<Seq<char>>;

/// The final component of a path, as `std::path::Path::file_name` gives it.
pub uninterp spec fn path_file_name(p: Seq<char>) -> Option<Seq<char>>;

/// Relies on `Path::parent`: the parent directory of `p`, a function of `p`.
#[verifier::external_body]
fn parent_of(p: &str) -> (r: Option<String>)
    ensures
        match r {
            Some(d) => path_parent(p@) == Some(d@),
            None => path_parent(p@) is None,
        },
{
    std::path::Path::new(p).parent().map(|d| d.to_string_lossy().into_owned())
}

/// Relies on `Path::file_name`: the last component of `p`, a function of `p`.
#[verifier::external_body]
fn file_name_of(p: &str) -> (r: Option<String>)
    ensures
        match r {
            Some(n) => path_file_name(p@) == Some(n@),
            None => path_file_name(p@) is None,
        },
{
    std::path::Path::new(p).file_name().map(|n| n.to_string_lossy().into_owned())
}

/// Relies on `minijinja::Environment::new`, `set_loader` and `path_loader`:
/// an environment that loads templates by name from the directory `dir`.
#[verifier::external_body]
fn loader_environment(dir: String) -> Environment<'static> {
    let mut env = Environment::new();
    env.set_loader(minijinja::path_loader(dir));
    env
}

/// Relies on `minijinja::Environment::get_template`: loads the template
/// `name`; what comes back depends on the files on disk.
#[verifier::external_body]
fn load_template<'e>(env: &'e Environment<'static>, name: &str) -> Result<Template<'e, 'e>, minijinja::Error> {
    env.get_template(name)
}

/// Relies on `minijinja::Template::render`: renders with `title` bound both
/// as `title` and as `page.title`.
#[verifier::external_body]
fn render_with_title(t: &Template, title: &str) -> Result<String, minijinja::Error> {
    let page = minijinja::Value::from_iter([("title", title)]);
    let title = minijinja::Value::from(title);
    t.render(minijinja::Value::from_iter([("title", title), ("page", page)]))
}

/// Relies on minijinja's `Display` of its error: a text describing it.
#[verifier::external_body]
fn describe(e: &minijinja::Error) -> String {
    e.to_string()
}

/// A template file, loaded by name from its directory each time it renders,
/// so that edits to the file are seen.
pub struct TemplateEngine {
    env: Environment<'static>,
    template_dir: String,
    template_name: String,
}

impl TemplateEngine {
    pub closed spec fn dir_view(&self) -> Seq<char> {
        self.template_dir@
    }

    pub closed spec fn name_view(&self) -> Seq<char> {
        self.template_name@
    }

    /// The directory templates are loaded from.
    pub fn template_dir(&self) -> (r: &str)
        ensures
            r@ == self.dir_view(),
    {
        self.template_dir.as_str()
    }

    /// The file name of the template.
    pub fn template_name(&self) -> (r: &str)
        ensures
            r@ == self.name_view(),
    {
        self.template_name.as_str()
    }

    /// An engine for the template file at `template_path`: fails when the
    /// path has no parent directory, or else when it has no file name.
    pub fn new(template_path: &str) -> (r: Result<TemplateEngine, FrontmatterError>)
        ensures
            match (path_parent(template_path@), path_file_name(template_path@)) {
                (None, _) => r matches Err(FrontmatterError::NoParentDir),
                (Some(_), None) => r matches Err(FrontmatterError::NoFileName),
                (Some(d), Some(n)) => r matches Ok(e) && e.dir_view() == d && e.name_view() == n,
            },
    {
        let dir = match parent_of(template_path) {
            Some(d) => d,
            None => return Err(FrontmatterError::NoParentDir),
        };
        let name = match file_name_of(template_path) {
            Some(n) => n,
            None => return Err(FrontmatterError::NoFileName),
        };
        let env = loader_environment(dir.clone());
        Ok(TemplateEngine { env, template_dir: dir, template_name: name })
    }

    /// The template rendered with `title`. What it yields depends on the
    /// template file as it is now; a failure is a load or a render error.
    pub fn render(&self, title: &str) -> (r: Result<String, FrontmatterError>)
        ensures
            r matches Err(e) ==> (e matches FrontmatterError::TemplateLoad(_) || e matches FrontmatterError::TemplateRender(_)),
    {
        let t = match load_template(&self.env, self.template_name.as_str()) {
            Ok(t) => t,
            Err(e) => return Err(FrontmatterError::TemplateLoad(describe(&e))),
        };
        match render_with_title(&t, title) {
            Ok(s) => Ok(s),
            Err(e) => Err(FrontmatterError::TemplateRender(describe(&e))),
        }
    }
}

} // verus!
