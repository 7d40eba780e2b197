//! Errors of the library.

use vstd::prelude::*;

verus! {

/// Why a template could not be set up or used, or a document processed.
#[derive(Debug, PartialEq, Eq)]
pub enum FrontmatterError {
    /// The template path has no parent directory.
    NoParentDir,
    /// The template path has no file name.
    NoFileName,
    /// The template could not be loaded; the text describes why.
    TemplateLoad(String),
    /// The template failed to render; the text describes why.
    TemplateRender(String),
    /// A document could not be read or written.
    Io(String),
}

impl FrontmatterError {
    /// A one-line description of the error.
    pub fn message(&self) -> (r: String)
        ensures
            self matches FrontmatterError::Io(e) ==> r@ == e@,
            self matches FrontmatterError::TemplateLoad(e) ==> r@ == "Template load error: "@ + e@,
            self matches FrontmatterError::TemplateRender(e) ==> r@ == "Template render error: "@
                + e@,
            self matches FrontmatterError::NoParentDir ==> r@
                == "Template path has no parent directory"@,
            self matches FrontmatterError::NoFileName ==> r@ == "Template path has no file name"@,
    {
        match self {
            FrontmatterError::NoParentDir => String::from_str("Template path has no parent directory"),
            FrontmatterError::NoFileName => String::from_str("Template path has no file name"),
            FrontmatterError::TemplateLoad(e) => String::from_str("Template load error: ").concat(e.as_str()),
            FrontmatterError::TemplateRender(e) => String::from_str("Template render error: ").concat(e.as_str()),
            FrontmatterError::Io(e) => e.clone(),
        }
    }
}

} // verus!
