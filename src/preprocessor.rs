//! The book preprocessor: each chapter's frontmatter is taken out, its
//! placeholders filled in the body, and its `title` names the chapter.

use vstd::prelude::*;
use crate::frontmatter::{extract, extract_spec, substitute, substitute_spec};
use crate::text::same_text;

verus! {

pub open spec fn title_key() -> Seq<char> {
    seq!['t', 'i', 't', 'l', 'e']
}

/// What a chapter with content `s` becomes: `None` (left as it is) without a
/// frontmatter block; else its substituted body, and the `title` value as
/// its new name when the block sets one.
pub open spec fn chapter_spec(s: Seq<char>) -> Option<(Seq<char>, Option<Seq<char>>)> {
    match extract_spec(s) {
        None => None,
        Some((m, body)) => Some(
            (
                substitute_spec(body, m),
                if m.contains_key(title_key()) {
                    Some(m[title_key()])
                } else {
                    None
                },
            ),
        ),
    }
}

/// The new content of a chapter, and its new name when it gets one.
pub struct ChapterUpdate {
    pub content: String,
    pub name: Option<String>,
}

/// The frontmatter preprocessor.
pub struct Frntmtr;

impl Frntmtr {
    pub fn new() -> Frntmtr {
        Frntmtr
    }

    /// The name the preprocessor is known by.
    pub fn name(&self) -> (r: &'static str)
        ensures
            r@ == seq!['f', 'r', 'n', 't', 'm', 't', 'r'],
    {
        proof {
            reveal_strlit("frntmtr");
            assert("frntmtr"@ =~= seq!['f', 'r', 'n', 't', 'm', 't', 'r']);
        }
        "frntmtr"
    }

    /// Every renderer is supported but the one named `unknown`.
    pub fn supports_renderer(&self, renderer: &str) -> (r: bool)
        ensures
            r == (renderer@ != seq!['u', 'n', 'k', 'n', 'o', 'w', 'n']),
    {
        proof {
            reveal_strlit("unknown");
            assert("unknown"@ =~= seq!['u', 'n', 'k', 'n', 'o', 'w', 'n']);
        }
        !same_text(renderer, "unknown")
    }

    /// What the chapter with content `content` becomes.
    pub fn process_chapter(&self, content: &str) -> (r: Option<ChapterUpdate>)
        ensures
            match r {
                Some(u) => chapter_spec(content@) == Some(
                    (
                        u.content@,
                        match u.name {
                            Some(n) => Some(n@),
                            None => None,
                        },
                    ),
                ),
                None => chapter_spec(content@) is None,
            },
    {
        match extract(content) {
            None => None,
            Some((meta, body)) => {
                let new_content = substitute(body.as_str(), &meta);
                proof {
                    reveal_strlit("title");
                    assert("title"@ =~= title_key());
                }
                let name = meta.get("title");
                Some(ChapterUpdate { content: new_content, name })
            },
        }
    }
}

} // verus!
