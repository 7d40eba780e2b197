//! Frontmatter injection: a title taken from a document's first non-blank
//! line, a template rendered with it, and the document rebuilt around the
//! rendered block.

use vstd::prelude::*;
use crate::error::FrontmatterError;
use crate::template::TemplateEngine;
use crate::text::{chars_of, lemma_line_end, line_at, line_bounds, next_line, substring, trim, trim_range};

verus! {

/// Start of the first line from `i` on that is not blank.
pub open spec fn heading_from(s: Seq<char>, i: int) -> Option<int>
    decreases s.len() - i,
    via heading_from_decreases
{
    if i < 0 || i >= s.len() {
        None
    } else if trim(line_at(s, i)).len() > 0 {
        Some(i)
    } else {
        heading_from(s, next_line(s, i))
    }
}

#[via_fn]
proof fn heading_from_decreases(s: Seq<char>, i: int) {
    if 0 <= i < s.len() {
        lemma_line_end(s, i);
    }
}

/// `h` holds `---` at index `k`.
pub open spec fn dashes_at(h: Seq<char>, k: int) -> bool {
    0 <= k && k + 3 <= h.len() && h[k] == '-' && h[k + 1] == '-' && h[k + 2] == '-'
}

/// `h` holds `---` somewhere.
pub open spec fn has_dashes(h: Seq<char>) -> bool {
    exists|k: int| #[trigger] dashes_at(h, k)
}

/// `h` without its leading `#` characters.
pub open spec fn strip_hashes(h: Seq<char>) -> Seq<char>
    decreases h.len(),
{
    if h.len() > 0 && h[0] == '#' {
        strip_hashes(h.drop_first())
    } else {
        h
    }
}

/// The first non-blank line of `s`, trimmed, when there is one and it does
/// not hold `---` (a document that seems to carry frontmatter already).
pub open spec fn heading_spec(s: Seq<char>) -> Option<Seq<char>> {
    match heading_from(s, 0) {
        None => None,
        Some(p) => if has_dashes(trim(line_at(s, p))) {
            None
        } else {
            Some(trim(line_at(s, p)))
        },
    }
}

/// The title injected into `s`: its heading without leading `#`, trimmed.
pub open spec fn title_spec(s: Seq<char>) -> Option<Seq<char>> {
    match heading_spec(s) {
        None => None,
        Some(h) => Some(trim(strip_hashes(h))),
    }
}

/// The lines of `s` from the one starting at `i` on, joined by `\n`.
pub open spec fn joined_lines_from(s: Seq<char>, i: int) -> Seq<char>
    decreases s.len() - i,
    via joined_lines_from_decreases
{
    if i < 0 || i >= s.len() {
        Seq::empty()
    } else if next_line(s, i) < s.len() {
        line_at(s, i) + seq!['\n'] + joined_lines_from(s, next_line(s, i))
    } else {
        line_at(s, i)
    }
}

#[via_fn]
proof fn joined_lines_from_decreases(s: Seq<char>, i: int) {
    if 0 <= i < s.len() {
        lemma_line_end(s, i);
    }
}

/// `s` after injection of the block `rendered`: the block, a newline, then
/// the lines after the heading line. Nothing when `s` has no title.
pub open spec fn inject_spec(s: Seq<char>, rendered: Seq<char>) -> Option<Seq<char>> {
    match heading_spec(s) {
        None => None,
        Some(h) => Some(
            rendered + seq!['\n'] + joined_lines_from(s, next_line(s, heading_from(s, 0)->0)),
        ),
    }
}

/// `heading_from` computed, with the bounds of the trimmed heading line.
fn find_heading(v: &Vec<char>) -> (r: Option<(usize, usize, usize)>)
    ensures
        match r {
            Some((p, x, y)) => heading_from(v@, 0) == Some(p as int) && p < v@.len() && x <= y
                <= v@.len() && v@.subrange(x as int, y as int) == trim(line_at(v@, p as int)),
            None => heading_from(v@, 0) is None,
        },
{
    let mut p: usize = 0;
    while p < v.len()
        invariant
            p <= v@.len(),
            heading_from(v@, 0) == heading_from(v@, p as int),
        decreases v@.len() - p,
    {
        proof {
            lemma_line_end(v@, p as int);
        }
        let (a, b, n) = line_bounds(v, p);
        let (x, y) = trim_range(v, a, b, false);
        if x < y {
            return Some((p, x, y));
        }
        p = n;
    }
    None
}

fn find_dashes(v: &Vec<char>, x: usize, y: usize) -> (r: bool)
    requires
        x <= y <= v@.len(),
    ensures
        r == has_dashes(v@.subrange(x as int, y as int)),
{
    let ghost h = v@.subrange(x as int, y as int);
    let mut k = x;
    while k < y && y - k >= 3
        invariant
            x <= k <= y <= v@.len(),
            h == v@.subrange(x as int, y as int),
            forall|j: int| 0 <= j < k - x ==> !#[trigger] dashes_at(h, j),
        decreases y - k,
    {
        if v[k] == '-' && v[k + 1] == '-' && v[k + 2] == '-' {
            assert(dashes_at(h, k - x));
            return true;
        }
        k = k + 1;
    }
    assert forall|j: int| !#[trigger] dashes_at(h, j) by {
        if 0 <= j < k - x {
        }
    }
    false
}

/// Bounds of the title inside the trimmed heading `v[x..y]`.
fn title_range(v: &Vec<char>, x: usize, y: usize) -> (r: (usize, usize))
    requires
        x <= y <= v@.len(),
    ensures
        r.0 <= r.1 <= v@.len(),
        v@.subrange(r.0 as int, r.1 as int) == trim(strip_hashes(v@.subrange(x as int, y as int))),
{
    let mut a = x;
    while a < y && v[a] == '#'
        invariant
            x <= a <= y <= v@.len(),
            strip_hashes(v@.subrange(x as int, y as int)) == strip_hashes(
                v@.subrange(a as int, y as int),
            ),
        decreases y - a,
    {
        assert(v@.subrange(a as int, y as int).drop_first() =~= v@.subrange(a + 1, y as int));
        a = a + 1;
    }
    trim_range(v, a, y, false)
}

/// The title of `content`, when it has one.
pub fn injection_title(content: &str) -> (r: Option<String>)
    ensures
        match r {
            Some(t) => title_spec(content@) == Some(t@),
            None => title_spec(content@) is None,
        },
{
    let v = chars_of(content);
    match find_heading(&v) {
        None => None,
        Some((_p, x, y)) => {
            if find_dashes(&v, x, y) {
                None
            } else {
                let (a, b) = title_range(&v, x, y);
                Some(substring(content, a, b))
            }
        },
    }
}

/// Appends `joined_lines_from(content@, start)` to `out`.
fn append_lines_from(out: &mut String, content: &str, v: &Vec<char>, start: usize)
    requires
        v@ == content@,
        start <= v@.len(),
    ensures
        final(out)@ == old(out)@ + joined_lines_from(v@, start as int),
{
    let ghost target = old(out)@ + joined_lines_from(v@, start as int);
    let mut pos = start;
    assert(pos >= v@.len() ==> out@ =~= target);
    while pos < v.len()
        invariant
            pos <= v@.len(),
            v@ == content@,
            pos < v@.len() ==> out@ + joined_lines_from(v@, pos as int) == target,
            pos >= v@.len() ==> out@ == target,
        decreases v@.len() - pos,
    {
        proof {
            lemma_line_end(v@, pos as int);
        }
        let ghost before = out@;
        let (a, b, n) = line_bounds(v, pos);
        out.append(content.substring_char(a, b));
        if n < v.len() {
            proof {
                reveal_strlit("\n");
            }
            out.append("\n");
            proof {
                assert(out@ =~= before + line_at(v@, pos as int) + seq!['\n']);
                assert(before + (line_at(v@, pos as int) + seq!['\n'] + joined_lines_from(
                    v@,
                    n as int,
                )) =~= out@ + joined_lines_from(v@, n as int));
            }
        }
        pos = n;
    }
}

/// The document `content` rebuilt around the rendered block `rendered`.
/// `None` when `content` has no title, and is then left as it is.
pub fn inject_rendered(content: &str, rendered: &str) -> (r: Option<String>)
    ensures
        match r {
            Some(s) => inject_spec(content@, rendered@) == Some(s@),
            None => inject_spec(content@, rendered@) is None,
        },
{
    let v = chars_of(content);
    match find_heading(&v) {
        None => None,
        Some((p, x, y)) => {
            if find_dashes(&v, x, y) {
                None
            } else {
                proof {
                    lemma_line_end(v@, p as int);
                }
                let (_a, _b, n) = line_bounds(&v, p);
                let mut out = String::from_str(rendered);
                proof {
                    reveal_strlit("\n");
                }
                out.append("\n");
                append_lines_from(&mut out, content, &v, n);
                Some(out)
            }
        },
    }
}

/// Injection into `content` with the template of `engine`: `Ok(None)` when
/// `content` has no title; otherwise the template is rendered with the title
/// and the rebuilt document returned, or the template's error.
pub fn process_content(content: &str, engine: &TemplateEngine) -> (r: Result<
    Option<String>,
    FrontmatterError,
>)
    ensures
        title_spec(content@) is None <==> r matches Ok(None),
        r matches Ok(Some(s)) ==> exists|x: Seq<char>| inject_spec(content@, x) == Some(s@),
        r matches Err(e) ==> (e matches FrontmatterError::TemplateLoad(_)
            || e matches FrontmatterError::TemplateRender(_)),
{
    let title = match injection_title(content) {
        Some(t) => t,
        None => return Ok(None),
    };
    let rendered = match engine.render(title.as_str()) {
        Ok(s) => s,
        Err(e) => return Err(e),
    };
    let r = inject_rendered(content, rendered.as_str());
    assert(r is Some);
    Ok(r)
}

/// A document whose first non-blank line is `---` gets no injection.
pub proof fn lemma_dashes_heading_untouched(s: Seq<char>, rendered: Seq<char>)
    requires
        heading_from(s, 0) matches Some(p) && trim(line_at(s, p)) =~= seq!['-', '-', '-'],
    ensures
        inject_spec(s, rendered) is None,
        title_spec(s) is None,
{
    let p = heading_from(s, 0)->0;
    assert(dashes_at(trim(line_at(s, p)), 0));
}

} // verus!
