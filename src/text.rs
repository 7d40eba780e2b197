//! Character-level text model: whitespace, trimming and lines, stated over
//! `Seq<char>` and computed over `Vec<char>`.

use vstd::prelude::*;

verus! {

/// Unicode `White_Space`, the set that `char::is_whitespace` tests.
pub open spec fn is_ws(c: char) -> bool {
    let u = c as u32;
    (9 <= u && u <= 13) || u == 32 || u == 0x85 || u == 0xa0 || u == 0x1680 || (0x2000 <= u && u
        <= 0x200a) || u == 0x2028 || u == 0x2029 || u == 0x202f || u == 0x205f || u == 0x3000
}

/// The characters a trim removes: any whitespace, or only the plain space.
pub open spec fn trimmed_away(c: char, spaces_only: bool) -> bool {
    if spaces_only {
        c == ' '
    } else {
        is_ws(c)
    }
}

pub open spec fn trim_start(t: Seq<char>, spaces_only: bool) -> Seq<char>
    decreases t.len(),
{
    if t.len() > 0 && trimmed_away(t[0], spaces_only) {
        trim_start(t.drop_first(), spaces_only)
    } else {
        t
    }
}

pub open spec fn trim_end(t: Seq<char>, spaces_only: bool) -> Seq<char>
    decreases t.len(),
{
    if t.len() > 0 && trimmed_away(t.last(), spaces_only) {
        trim_end(t.drop_last(), spaces_only)
    } else {
        t
    }
}

/// `str::trim`: whitespace removed at both ends.
pub open spec fn trim(t: Seq<char>) -> Seq<char> {
    trim_end(trim_start(t, false), false)
}

/// Plain spaces removed at both ends.
pub open spec fn trim_spaces(t: Seq<char>) -> Seq<char> {
    trim_end(trim_start(t, true), true)
}

/// Index of the newline that ends the line holding position `i`, or the
/// length of `s` when that line is the last one and has no newline.
pub open spec fn line_end(s: Seq<char>, i: int) -> int
    decreases s.len() - i,
{
    if i < 0 || i >= s.len() || s[i] == '\n' {
        i
    } else {
        line_end(s, i + 1)
    }
}

/// Start of the line after the one starting at `i` (the length when none).
pub open spec fn next_line(s: Seq<char>, i: int) -> int {
    let e = line_end(s, i);
    if e < s.len() {
        e + 1
    } else {
        s.len() as int
    }
}

/// The line starting at `i`, without its line ending, as `str::lines` yields
/// it: a `\r` directly before the newline belongs to the ending.
pub open spec fn line_at(s: Seq<char>, i: int) -> Seq<char> {
    let e = line_end(s, i);
    if i < e && e < s.len() && s[e - 1] == '\r' {
        s.subrange(i, e - 1)
    } else {
        s.subrange(i, e)
    }
}

/// `i` is where a line begins.
pub open spec fn is_line_start(s: Seq<char>, i: int) -> bool {
    0 <= i < s.len() && (i == 0 || s[i - 1] == '\n')
}

pub proof fn lemma_line_end(s: Seq<char>, i: int)
    requires
        0 <= i <= s.len(),
    ensures
        i <= line_end(s, i) <= s.len(),
        forall|k: int| i <= k < line_end(s, i) ==> s[k] != '\n',
        line_end(s, i) < s.len() ==> s[line_end(s, i)] == '\n',
        i < next_line(s, i) || i == s.len(),
        next_line(s, i) <= s.len(),
    decreases s.len() - i,
{
    if i < s.len() && s[i] != '\n' {
        lemma_line_end(s, i + 1);
    }
}

/// The characters of a string, in order.
pub fn chars_of(s: &str) -> (r: Vec<char>)
    ensures
        r@ == s@,
{
    let n = s.unicode_len();
    let mut r: Vec<char> = Vec::new();
    let mut i: usize = 0;
    while i < n
        invariant
            n == s@.len(),
            i <= n,
            r@ == s@.subrange(0, i as int),
        decreases n - i,
    {
        let c = s.get_char(i);
        r.push(c);
        i = i + 1;
        assert(r@ =~= s@.subrange(0, i as int));
    }
    assert(r@ =~= s@);
    r
}

/// The two strings hold the same characters.
pub fn same_text(a: &str, b: &str) -> (r: bool)
    ensures
        r == (a@ == b@),
{
    let x = chars_of(a);
    let y = chars_of(b);
    if x.len() != y.len() {
        return false;
    }
    let mut i: usize = 0;
    while i < x.len()
        invariant
            x@ == a@,
            y@ == b@,
            x@.len() == y@.len(),
            forall|k: int| 0 <= k < i ==> x@[k] == y@[k],
        decreases x@.len() - i,
    {
        if x[i] != y[i] {
            assert(x@[i as int] != y@[i as int]);
            return false;
        }
        i = i + 1;
    }
    assert(x@ =~= y@);
    true
}

/// `String` holding the characters `from..to` of `s`.
pub fn substring(s: &str, from: usize, to: usize) -> (r: String)
    requires
        from <= to <= s@.len(),
    ensures
        r@ == s@.subrange(from as int, to as int),
{
    let piece = s.substring_char(from, to);
    String::from_str(piece)
}

pub fn is_whitespace(c: char) -> (r: bool)
    ensures
        r == is_ws(c),
{
    let u = c as u32;
    (9 <= u && u <= 13) || u == 32 || u == 0x85 || u == 0xa0 || u == 0x1680 || (0x2000 <= u && u
        <= 0x200a) || u == 0x2028 || u == 0x2029 || u == 0x202f || u == 0x205f || u == 0x3000
}

fn is_trimmed_away(c: char, spaces_only: bool) -> (r: bool)
    ensures
        r == trimmed_away(c, spaces_only),
{
    if spaces_only {
        c == ' '
    } else {
        is_whitespace(c)
    }
}

/// Bounds of the trimmed part of `v[lo..hi]`.
pub fn trim_range(v: &Vec<char>, lo: usize, hi: usize, spaces_only: bool) -> (r: (usize, usize))
    requires
        lo <= hi <= v@.len(),
    ensures
        lo <= r.0 <= r.1 <= hi,
        v@.subrange(r.0 as int, r.1 as int) == trim_end(
            trim_start(v@.subrange(lo as int, hi as int), spaces_only),
            spaces_only,
        ),
{
    let mut a = lo;
    while a < hi && is_trimmed_away(v[a], spaces_only)
        invariant
            lo <= a <= hi <= v@.len(),
            trim_start(v@.subrange(lo as int, hi as int), spaces_only) == trim_start(
                v@.subrange(a as int, hi as int),
                spaces_only,
            ),
        decreases hi - a,
    {
        assert(v@.subrange(a as int, hi as int).drop_first() =~= v@.subrange(a + 1, hi as int));
        a = a + 1;
    }
    assert(trim_start(v@.subrange(a as int, hi as int), spaces_only) == v@.subrange(
        a as int,
        hi as int,
    ));
    let mut b = hi;
    while b > a && is_trimmed_away(v[b - 1], spaces_only)
        invariant
            lo <= a <= b <= hi <= v@.len(),
            trim_end(v@.subrange(a as int, hi as int), spaces_only) == trim_end(
                v@.subrange(a as int, b as int),
                spaces_only,
            ),
        decreases b - a,
    {
        assert(v@.subrange(a as int, b as int).drop_last() =~= v@.subrange(a as int, b - 1));
        b = b - 1;
    }
    (a, b)
}

/// `line_end` computed.
pub fn find_line_end(v: &Vec<char>, i: usize) -> (e: usize)
    requires
        i <= v@.len(),
    ensures
        e == line_end(v@, i as int),
{
    let mut e = i;
    while e < v.len() && v[e] != '\n'
        invariant
            i <= e <= v@.len(),
            line_end(v@, i as int) == line_end(v@, e as int),
        decreases v@.len() - e,
    {
        e = e + 1;
    }
    e
}

/// Bounds of `line_at(v@, i)` and the start of the next line.
pub fn line_bounds(v: &Vec<char>, i: usize) -> (r: (usize, usize, usize))
    requires
        i <= v@.len(),
    ensures
        i <= r.1 <= v@.len(),
        r.0 == i,
        v@.subrange(r.0 as int, r.1 as int) == line_at(v@, i as int),
        r.2 == next_line(v@, i as int),
{
    proof {
        lemma_line_end(v@, i as int);
    }
    let e = find_line_end(v, i);
    let next = if e < v.len() {
        e + 1
    } else {
        v.len()
    };
    if i < e && e < v.len() && v[e - 1] == '\r' {
        (i, e - 1, next)
    } else {
        (i, e, next)
    }
}

} // verus!
