//! The frontmatter block at the top of a document, its key/value metadata,
//! and `{{ page.key }}` placeholder substitution in the body.

use vstd::prelude::*;
use crate::text::{
    chars_of, is_line_start, lemma_line_end, line_end, line_at, line_bounds, next_line, substring, trim, trim_range,
    trim_spaces,
};

verus! {

/// The line starting at `i` is a delimiter: `---` alone, up to whitespace.
pub open spec fn is_delimiter(s: Seq<char>, i: int) -> bool {
    trim(line_at(s, i)) =~= seq!['-', '-', '-']
}

/// Start of the first delimiter line among the lines from `i` on.
pub open spec fn delimiter_from(s: Seq<char>, i: int) -> Option<int>
    decreases s.len() - i,
    via delimiter_from_decreases
{
    if i < 0 || i >= s.len() {
        None
    } else if is_delimiter(s, i) {
        Some(i)
    } else {
        delimiter_from(s, next_line(s, i))
    }
}

#[via_fn]
proof fn delimiter_from_decreases(s: Seq<char>, i: int) {
    if 0 <= i < s.len() {
        lemma_line_end(s, i);
    }
}

/// Index of the first `:` of `l` at or after `k`, or -1.
pub open spec fn first_colon(l: Seq<char>, k: int) -> int
    decreases l.len() - k,
{
    if k < 0 || k >= l.len() {
        -1
    } else if l[k] == ':' {
        k
    } else {
        first_colon(l, k + 1)
    }
}

/// The key/value pair of one metadata line: split on its first colon, both
/// sides trimmed. A line without a colon holds no pair.
pub open spec fn entry_of(l: Seq<char>) -> Option<(Seq<char>, Seq<char>)> {
    let c = first_colon(l, 0);
    if c < 0 {
        None
    } else {
        Some((trim(l.subrange(0, c)), trim(l.subrange(c + 1, l.len() as int))))
    }
}

/// The pairs of the lines of `t` from the line starting at `i` on, in order.
pub open spec fn meta_entries(t: Seq<char>, i: int) -> Seq<(Seq<char>, Seq<char>)>
    decreases t.len() - i,
    via meta_entries_decreases
{
    if i < 0 || i >= t.len() {
        Seq::empty()
    } else {
        let rest = meta_entries(t, next_line(t, i));
        match entry_of(line_at(t, i)) {
            Some(e) => seq![e] + rest,
            None => rest,
        }
    }
}

#[via_fn]
proof fn meta_entries_decreases(t: Seq<char>, i: int) {
    if 0 <= i < t.len() {
        lemma_line_end(t, i);
    }
}

/// The mapping that a list of pairs defines: a later pair for a key wins.
pub open spec fn entries_map(es: Seq<(Seq<char>, Seq<char>)>) -> Map<Seq<char>, Seq<char>>
    decreases es.len(),
{
    if es.len() == 0 {
        Map::empty()
    } else {
        entries_map(es.drop_last()).insert(es.last().0, es.last().1)
    }
}

/// The metadata held by the text of a frontmatter block.
pub open spec fn parse_metadata(t: Seq<char>) -> Map<Seq<char>, Seq<char>> {
    entries_map(meta_entries(t, 0))
}

/// What extraction finds in `s`: absent unless two delimiter lines exist;
/// otherwise the metadata between the first two of them and the body that
/// follows the second.
pub open spec fn extract_spec(s: Seq<char>) -> Option<(Map<Seq<char>, Seq<char>>, Seq<char>)> {
    match delimiter_from(s, 0) {
        None => None,
        Some(p1) => match delimiter_from(s, next_line(s, p1)) {
            None => None,
            Some(p2) => Some(
                (
                    parse_metadata(s.subrange(next_line(s, p1), p2)),
                    s.subrange(next_line(s, p2), s.len() as int),
                ),
            ),
        },
    }
}

pub proof fn lemma_entries_map_last(es: Seq<(Seq<char>, Seq<char>)>, k: Seq<char>, j: int)
    requires
        0 <= j < es.len(),
        es[j].0 == k,
        forall|i: int| j < i < es.len() ==> es[i].0 != k,
    ensures
        entries_map(es).contains_key(k),
        entries_map(es)[k] == es[j].1,
    decreases es.len(),
{
    if j < es.len() - 1 {
        lemma_entries_map_last(es.drop_last(), k, j);
    }
}

pub proof fn lemma_entries_map_absent(es: Seq<(Seq<char>, Seq<char>)>, k: Seq<char>)
    requires
        forall|i: int| 0 <= i < es.len() ==> es[i].0 != k,
    ensures
        !entries_map(es).contains_key(k),
    decreases es.len(),
{
    if es.len() > 0 {
        lemma_entries_map_absent(es.drop_last(), k);
    }
}

/// Flat string metadata. Every pair is kept in the order it was added; the
/// last pair for a key gives its value.
pub struct Metadata {
    keys: Vec<String>,
    values: Vec<String>,
}

impl Metadata {
    pub closed spec fn wf(&self) -> bool {
        self.keys.len() == self.values.len()
    }

    pub closed spec fn entries(&self) -> Seq<(Seq<char>, Seq<char>)> {
        Seq::new(self.keys.len() as nat, |i: int| (self.keys[i]@, self.values[i]@))
    }

    pub closed spec fn view(&self) -> Map<Seq<char>, Seq<char>> {
        entries_map(self.entries())
    }

    pub fn new() -> (r: Metadata)
        ensures
            r.wf(),
            r.view() == Map::<Seq<char>, Seq<char>>::empty(),
    {
        let r = Metadata { keys: Vec::new(), values: Vec::new() };
        assert(r.entries().len() == 0);
        r
    }

    /// Sets `key` to `value`, replacing any earlier value of `key`.
    pub fn insert(&mut self, key: String, value: String)
        requires
            old(self).wf(),
        ensures
            final(self).wf(),
            final(self).view() == old(self).view().insert(key@, value@),
    {
        let ghost before = self.entries();
        self.keys.push(key);
        self.values.push(value);
        assert(self.entries().drop_last() =~= before);
    }

    /// Index of the last pair whose key is `v[lo..hi]`.
    fn find_key(&self, key_chars: &Vec<Vec<char>>, v: &Vec<char>, lo: usize, hi: usize) -> (r: Option<usize>)
        requires
            self.wf(),
            lo <= hi <= v@.len(),
            key_chars@.len() == self.keys@.len(),
            forall|j: int| 0 <= j < key_chars@.len() ==> key_chars@[j]@ == self.keys@[j]@,
        ensures
            match r {
                Some(j) => j < self.keys@.len() && self.entries()[j as int].0 == v@.subrange(lo as int, hi as int)
                    && forall|i: int| j < i < self.keys@.len() ==> self.entries()[i].0 != v@.subrange(lo as int, hi as int),
                None => forall|i: int| 0 <= i < self.keys@.len() ==> self.entries()[i].0 != v@.subrange(lo as int, hi as int),
            },
    {
        let ghost k = v@.subrange(lo as int, hi as int);
        let mut j = key_chars.len();
        while j > 0
            invariant
                j <= key_chars@.len() == self.keys@.len() == self.values@.len(),
                lo <= hi <= v@.len(),
                k == v@.subrange(lo as int, hi as int),
                forall|i: int| 0 <= i < key_chars@.len() ==> key_chars@[i]@ == self.keys@[i]@,
                forall|i: int| j <= i < self.keys@.len() ==> self.entries()[i].0 != k,
            decreases j,
        {
            j = j - 1;
            if same_chars(&key_chars[j], v, lo, hi) {
                return Some(j);
            }
        }
        None
    }

    /// The value that `key` maps to, if any.
    pub fn get(&self, key: &str) -> (r: Option<String>)
        requires
            self.wf(),
        ensures
            match r {
                Some(s) => self.view().contains_key(key@) && self.view()[key@] == s@,
                None => !self.view().contains_key(key@),
            },
    {
        let kv = chars_of(key);
        let mut j = self.keys.len();
        while j > 0
            invariant
                j <= self.keys@.len() == self.values@.len(),
                kv@ == key@,
                forall|i: int| j <= i < self.keys@.len() ==> self.entries()[i].0 != key@,
            decreases j,
        {
            j = j - 1;
            let kj = chars_of(self.keys[j].as_str());
            if kj.len() == kv.len() && same_chars(&kj, &kv, 0, kv.len()) {
                proof {
                    assert(kv@.subrange(0, kv@.len() as int) =~= kv@);
                    lemma_entries_map_last(self.entries(), key@, j as int);
                }
                return Some(self.values[j].clone());
            }
            assert(kv@.subrange(0, kv@.len() as int) =~= kv@);
            assert(self.entries()[j as int].0 == kj@);
        }
        proof {
            lemma_entries_map_absent(self.entries(), key@);
        }
        None
    }
}

/// `a` equals `v[lo..hi]`.
fn same_chars(a: &Vec<char>, v: &Vec<char>, lo: usize, hi: usize) -> (r: bool)
    requires
        lo <= hi <= v@.len(),
    ensures
        r == (a@ == v@.subrange(lo as int, hi as int)),
{
    if a.len() != hi - lo {
        return false;
    }
    let mut i: usize = 0;
    while i < a.len()
        invariant
            a@.len() == hi - lo,
            lo <= hi <= v@.len(),
            forall|k: int| 0 <= k < i ==> a@[k] == v@[lo + k],
        decreases a@.len() - i,
    {
        if a[i] != v[lo + i] {
            assert(a@[i as int] != v@.subrange(lo as int, hi as int)[i as int]);
            return false;
        }
        i = i + 1;
    }
    assert(a@ =~= v@.subrange(lo as int, hi as int));
    true
}

/// Index of the first `}}` of `s` at or after `j`, or -1.
pub open spec fn close_from(s: Seq<char>, j: int) -> int
    decreases s.len() - j,
{
    if j < 0 || j + 1 >= s.len() {
        -1
    } else if s[j] == '}' && s[j + 1] == '}' {
        j
    } else {
        close_from(s, j + 1)
    }
}

pub proof fn lemma_close_from(s: Seq<char>, j: int)
    requires
        0 <= j,
    ensures
        close_from(s, j) == -1 || (j <= close_from(s, j) && close_from(s, j) + 1 < s.len()),
    decreases s.len() - j,
{
    if j + 1 < s.len() && !(s[j] == '}' && s[j + 1] == '}') {
        lemma_close_from(s, j + 1);
    }
}

pub open spec fn is_page_prefix(t: Seq<char>) -> bool {
    t.len() >= 5 && t[0] == 'p' && t[1] == 'a' && t[2] == 'g' && t[3] == 'e' && t[4] == '.'
}

/// The placeholder that starts at `i`, if one does: `{{`, then up to the
/// first `}}` a text that, stripped of spaces at both ends, is `page.` and a
/// key. Gives the key and the index just after the closing braces.
pub open spec fn placeholder_at(s: Seq<char>, i: int) -> Option<(Seq<char>, int)> {
    if 0 <= i && i + 1 < s.len() && s[i] == '{' && s[i + 1] == '{' {
        let c = close_from(s, i + 2);
        if c >= 0 {
            let inner = trim_spaces(s.subrange(i + 2, c));
            if is_page_prefix(inner) {
                Some((inner.subrange(5, inner.len() as int), c + 2))
            } else {
                None
            }
        } else {
            None
        }
    } else {
        None
    }
}

/// `s` from `i` on, each placeholder whose key `m` defines replaced by its
/// value, scanning left to right; inserted values are not scanned again.
pub open spec fn subst_from(s: Seq<char>, m: Map<Seq<char>, Seq<char>>, i: int) -> Seq<char>
    decreases s.len() - i,
    via subst_from_decreases
{
    if i < 0 || i >= s.len() {
        Seq::empty()
    } else {
        match placeholder_at(s, i) {
            Some(p) => if m.contains_key(p.0) {
                m[p.0] + subst_from(s, m, p.1)
            } else {
                seq![s[i]] + subst_from(s, m, i + 1)
            },
            None => seq![s[i]] + subst_from(s, m, i + 1),
        }
    }
}

#[via_fn]
proof fn subst_from_decreases(s: Seq<char>, m: Map<Seq<char>, Seq<char>>, i: int) {
    if 0 <= i {
        lemma_close_from(s, i + 2);
    }
}

/// The body `s` with every placeholder of a key of `m` replaced.
pub open spec fn substitute_spec(s: Seq<char>, m: Map<Seq<char>, Seq<char>>) -> Seq<char> {
    subst_from(s, m, 0)
}

fn is_delimiter_at(v: &Vec<char>, i: usize) -> (r: bool)
    requires
        i <= v@.len(),
    ensures
        r == is_delimiter(v@, i as int),
{
    let (a, b, _n) = line_bounds(v, i);
    let (x, y) = trim_range(v, a, b, false);
    let r = y - x == 3 && v[x] == '-' && v[x + 1] == '-' && v[x + 2] == '-';
    proof {
        let t = v@.subrange(x as int, y as int);
        if r {
            assert(t =~= seq!['-', '-', '-']);
        } else if y - x == 3 {
            assert(t[0] != '-' || t[1] != '-' || t[2] != '-');
            assert(t != seq!['-', '-', '-']);
        }
    }
    r
}

/// `delimiter_from` computed.
fn find_delimiter(v: &Vec<char>, i: usize) -> (r: Option<usize>)
    requires
        i <= v@.len(),
    ensures
        match r {
            Some(p) => i <= p < v@.len() && delimiter_from(v@, i as int) == Some(p as int),
            None => delimiter_from(v@, i as int) is None,
        },
{
    let mut p = i;
    while p < v.len()
        invariant
            i <= p <= v@.len(),
            delimiter_from(v@, i as int) == delimiter_from(v@, p as int),
        decreases v@.len() - p,
    {
        if is_delimiter_at(v, p) {
            return Some(p);
        }
        proof {
            lemma_line_end(v@, p as int);
        }
        let (_a, _b, n) = line_bounds(v, p);
        p = n;
    }
    None
}

/// Metadata of the block text `seg`, whose characters are `t`.
fn parse_block(t: &Vec<char>, seg: &str) -> (m: Metadata)
    requires
        t@ == seg@,
    ensures
        m.wf(),
        m.view() == parse_metadata(seg@),
{
    let mut m = Metadata::new();
    let ghost done: Seq<(Seq<char>, Seq<char>)> = Seq::empty();
    let mut pos: usize = 0;
    assert(done + meta_entries(t@, 0) =~= meta_entries(t@, 0));
    while pos < t.len()
        invariant
            pos <= t@.len(),
            t@ == seg@,
            m.wf(),
            m.view() == entries_map(done),
            meta_entries(t@, 0) == done + meta_entries(t@, pos as int),
        decreases t@.len() - pos,
    {
        proof {
            lemma_line_end(t@, pos as int);
        }
        let (a, b, n) = line_bounds(t, pos);
        let ghost line = t@.subrange(a as int, b as int);
        let mut c = a;
        while c < b && t[c] != ':'
            invariant
                a <= c <= b <= t@.len(),
                line == t@.subrange(a as int, b as int),
                first_colon(line, 0) == first_colon(line, c - a),
            decreases b - c,
        {
            c = c + 1;
        }
        if c < b {
            let (ka, kb) = trim_range(t, a, c, false);
            let (va, vb) = trim_range(t, c + 1, b, false);
            let key = substring(seg, ka, kb);
            let value = substring(seg, va, vb);
            proof {
                assert(line.subrange(0, c - a) =~= t@.subrange(a as int, c as int));
                assert(line.subrange(c - a + 1, line.len() as int) =~= t@.subrange(
                    c + 1,
                    b as int,
                ));
                assert(entry_of(line) == Some((key@, value@)));
                let e = (key@, value@);
                assert(done.push(e).drop_last() =~= done);
                assert(done + meta_entries(t@, pos as int) =~= done.push(e) + meta_entries(
                    t@,
                    n as int,
                ));
                done = done.push(e);
            }
            m.insert(key, value);
        }
        pos = n;
    }
    assert(done + meta_entries(t@, pos as int) =~= done);
    m
}

/// Finds the frontmatter block of `content`: the metadata between its first
/// two delimiter lines and the body after the second. `None` when there are
/// fewer than two delimiter lines.
pub fn extract(content: &str) -> (r: Option<(Metadata, String)>)
    ensures
        match r {
            Some((m, body)) => m.wf() && extract_spec(content@) == Some((m.view(), body@)),
            None => extract_spec(content@) is None,
        },
{
    let v = chars_of(content);
    let p1 = match find_delimiter(&v, 0) {
        Some(p) => p,
        None => return None,
    };
    let (_a1, _b1, n1) = line_bounds(&v, p1);
    let p2 = match find_delimiter(&v, n1) {
        Some(p) => p,
        None => return None,
    };
    let (_a2, _b2, n2) = line_bounds(&v, p2);
    proof {
        lemma_line_end(v@, p2 as int);
    }
    let seg = substring(content, n1, p2);
    let t = chars_of(seg.as_str());
    let m = parse_block(&t, seg.as_str());
    let body = substring(content, n2, v.len());
    Some((m, body))
}

/// `close_from` computed.
fn find_close(v: &Vec<char>, j: usize) -> (r: Option<usize>)
    requires
        j <= v@.len(),
    ensures
        match r {
            Some(c) => close_from(v@, j as int) == c && j <= c && c + 1 < v@.len(),
            None => close_from(v@, j as int) == -1,
        },
{
    let mut c = j;
    while c < v.len() && c + 1 < v.len()
        invariant
            j <= c <= v@.len(),
            close_from(v@, j as int) == close_from(v@, c as int),
        decreases v@.len() - c,
    {
        if v[c] == '}' && v[c + 1] == '}' {
            return Some(c);
        }
        c = c + 1;
    }
    None
}

/// `placeholder_at` computed: the key as a range of `v`, and the end.
fn placeholder_in(v: &Vec<char>, i: usize) -> (r: Option<(usize, usize, usize)>)
    requires
        i < v@.len(),
    ensures
        match r {
            Some((klo, khi, e)) => klo <= khi <= v@.len() && i < e <= v@.len() && placeholder_at(
                v@,
                i as int,
            ) == Some((v@.subrange(klo as int, khi as int), e as int)),
            None => placeholder_at(v@, i as int) is None,
        },
{
    if i < v.len() - 1 && v[i] == '{' && v[i + 1] == '{' {
        match find_close(v, i + 2) {
            Some(c) => {
                let (a, b) = trim_range(v, i + 2, c, true);
                if b - a >= 5 && v[a] == 'p' && v[a + 1] == 'a' && v[a + 2] == 'g' && v[a + 3]
                    == 'e' && v[a + 4] == '.' {
                    proof {
                        let inner = v@.subrange(a as int, b as int);
                        assert(inner.subrange(5, inner.len() as int) =~= v@.subrange(
                            a + 5,
                            b as int,
                        ));
                    }
                    Some((a + 5, b, c + 2))
                } else {
                    None
                }
            },
            None => None,
        }
    } else {
        None
    }
}

/// Replaces in `body` every `{{ page.<key> }}` placeholder whose key `meta`
/// defines by that key's value, verbatim. Placeholders of other keys stay.
pub fn substitute(body: &str, meta: &Metadata) -> (r: String)
    requires
        meta.wf(),
    ensures
        r@ == substitute_spec(body@, meta.view()),
{
    let ghost m = meta.view();
    let v = chars_of(body);
    let mut key_chars: Vec<Vec<char>> = Vec::new();
    let mut j: usize = 0;
    while j < meta.keys.len()
        invariant
            meta.wf(),
            j <= meta.keys@.len(),
            key_chars@.len() == j,
            forall|i: int| 0 <= i < j ==> key_chars@[i]@ == meta.keys@[i]@,
        decreases meta.keys@.len() - j,
    {
        key_chars.push(chars_of(meta.keys[j].as_str()));
        j = j + 1;
    }
    let mut out = String::new();
    let mut c: usize = 0;
    let mut i: usize = 0;
    while i < v.len()
        invariant
            meta.wf(),
            m == meta.view(),
            c <= i <= v@.len(),
            v@ == body@,
            key_chars@.len() == meta.keys@.len(),
            forall|k: int| 0 <= k < key_chars@.len() ==> key_chars@[k]@ == meta.keys@[k]@,
            out@ + v@.subrange(c as int, i as int) + subst_from(v@, m, i as int) == subst_from(
                v@,
                m,
                0,
            ),
        decreases v@.len() - i,
    {
        let mut replaced = false;
        match placeholder_in(&v, i) {
            Some((klo, khi, e)) => {
                match meta.find_key(&key_chars, &v, klo, khi) {
                    Some(k) => {
                        let ghost key = v@.subrange(klo as int, khi as int);
                        proof {
                            lemma_entries_map_last(meta.entries(), key, k as int);
                        }
                        let ghost prev = out@ + v@.subrange(c as int, i as int);
                        out.append(body.substring_char(c, i));
                        out.append(meta.values[k].as_str());
                        proof {
                            assert(meta.entries()[k as int].1 == meta.values@[k as int]@);
                            assert(subst_from(v@, m, i as int) == m[key] + subst_from(
                                v@,
                                m,
                                e as int,
                            ));
                            assert(out@ + v@.subrange(e as int, e as int) =~= prev + m[key]);
                            assert(prev + (m[key] + subst_from(v@, m, e as int)) =~= (prev
                                + m[key]) + subst_from(v@, m, e as int));
                        }
                        i = e;
                        c = e;
                        replaced = true;
                    },
                    None => {
                        proof {
                            lemma_entries_map_absent(
                                meta.entries(),
                                v@.subrange(klo as int, khi as int),
                            );
                        }
                    },
                }
            },
            None => {},
        }
        if !replaced {
            proof {
                assert(subst_from(v@, m, i as int) == seq![v@[i as int]] + subst_from(
                    v@,
                    m,
                    i + 1,
                ));
                assert(v@.subrange(c as int, i as int) + seq![v@[i as int]] =~= v@.subrange(
                    c as int,
                    i + 1,
                ));
                assert(out@ + v@.subrange(c as int, i as int) + (seq![v@[i as int]]
                    + subst_from(v@, m, i + 1)) =~= out@ + v@.subrange(c as int, i + 1)
                    + subst_from(v@, m, i + 1));
            }
            i = i + 1;
        }
    }
    out.append(body.substring_char(c, v.len()));
    proof {
        assert(out@ =~= out@ + subst_from(v@, m, i as int));
    }
    out
}

/// A delimiter found from a line start `i` is a delimiter line at or after `i`.
proof fn lemma_delimiter_found(s: Seq<char>, i: int)
    requires
        0 <= i,
        is_line_start(s, i) || i >= s.len(),
    ensures
        delimiter_from(s, i) matches Some(p) ==> i <= p && is_line_start(s, p) && is_delimiter(s, p),
    decreases s.len() - i,
{
    if i < s.len() && !is_delimiter(s, i) {
        lemma_line_end(s, i);
        lemma_delimiter_found(s, next_line(s, i));
    }
}

/// From a line start `i`, the search stops at the first delimiter line `q`.
proof fn lemma_delimiter_reaches(s: Seq<char>, i: int, q: int)
    requires
        is_line_start(s, i),
        is_line_start(s, q),
        i <= q,
        is_delimiter(s, q),
        forall|k: int| i <= k < q && is_line_start(s, k) ==> !#[trigger] is_delimiter(s, k),
    ensures
        delimiter_from(s, i) == Some(q),
    decreases q - i,
{
    if i < q {
        lemma_line_end(s, i);
        assert(line_end(s, i) <= q - 1) by {
            if line_end(s, i) > q - 1 {
                assert(s[q - 1] != '\n');
            }
        }
        lemma_delimiter_reaches(s, next_line(s, i), q);
    }
}

/// With exactly two delimiter lines, at `p1` and `p2`, extraction gives the
/// metadata of the lines between them and the text after the second.
pub proof fn lemma_extract_two_delimiters(s: Seq<char>, p1: int, p2: int)
    requires
        p1 < p2,
        is_line_start(s, p1),
        is_line_start(s, p2),
        is_delimiter(s, p1),
        is_delimiter(s, p2),
        forall|q: int|
            is_line_start(s, q) && #[trigger] is_delimiter(s, q) ==> q == p1 || q == p2,
    ensures
        extract_spec(s) == Some(
            (
                parse_metadata(s.subrange(next_line(s, p1), p2)),
                s.subrange(next_line(s, p2), s.len() as int),
            ),
        ),
{
    assert(is_line_start(s, 0));
    lemma_delimiter_reaches(s, 0, p1);
    lemma_line_end(s, p1);
    assert(line_end(s, p1) <= p2 - 1) by {
        if line_end(s, p1) > p2 - 1 {
            assert(s[p2 - 1] != '\n');
        }
    }
    lemma_delimiter_reaches(s, next_line(s, p1), p2);
}

/// With no delimiter line, or only one, extraction finds nothing.
pub proof fn lemma_extract_absent(s: Seq<char>)
    requires
        forall|q1: int, q2: int|
            is_line_start(s, q1) && is_line_start(s, q2) && #[trigger] is_delimiter(s, q1)
                && #[trigger] is_delimiter(s, q2) ==> q1 == q2,
    ensures
        extract_spec(s) is None,
{
    lemma_delimiter_found(s, 0);
    if let Some(p1) = delimiter_from(s, 0) {
        lemma_line_end(s, p1);
        lemma_delimiter_found(s, next_line(s, p1));
        if let Some(p2) = delimiter_from(s, next_line(s, p1)) {
            assert(p1 < p2);
        }
    }
}

/// A placeholder of a key of `m` starts at `i`.
pub open spec fn defined_placeholder_at(s: Seq<char>, m: Map<Seq<char>, Seq<char>>, i: int) -> bool {
    match placeholder_at(s, i) {
        Some(p) => m.contains_key(p.0),
        None => false,
    }
}

/// `s` holds a placeholder of a key of `m`.
pub open spec fn has_defined_placeholder(s: Seq<char>, m: Map<Seq<char>, Seq<char>>) -> bool {
    exists|i: int| 0 <= i < s.len() && #[trigger] defined_placeholder_at(s, m, i)
}

proof fn lemma_subst_unchanged(s: Seq<char>, m: Map<Seq<char>, Seq<char>>, i: int)
    requires
        0 <= i <= s.len(),
        !has_defined_placeholder(s, m),
    ensures
        subst_from(s, m, i) == s.subrange(i, s.len() as int),
    decreases s.len() - i,
{
    if i < s.len() {
        assert(!defined_placeholder_at(s, m, i));
        lemma_subst_unchanged(s, m, i + 1);
        assert(seq![s[i]] + s.subrange(i + 1, s.len() as int) =~= s.subrange(i, s.len() as int));
    } else {
        assert(s.subrange(i, s.len() as int) =~= Seq::<char>::empty());
    }
}

/// Text without a placeholder of a key of `m` is left as it is.
pub proof fn lemma_substitute_fixed(s: Seq<char>, m: Map<Seq<char>, Seq<char>>)
    requires
        !has_defined_placeholder(s, m),
    ensures
        substitute_spec(s, m) == s,
{
    lemma_subst_unchanged(s, m, 0);
    assert(s.subrange(0, s.len() as int) =~= s);
}

/// Substituting twice is substituting once, when the result of the first
/// pass holds no placeholder of a key of `m` (no value brought one in).
pub proof fn lemma_substitute_idempotent(body: Seq<char>, m: Map<Seq<char>, Seq<char>>)
    requires
        !has_defined_placeholder(substitute_spec(body, m), m),
    ensures
        substitute_spec(substitute_spec(body, m), m) == substitute_spec(body, m),
{
    lemma_substitute_fixed(substitute_spec(body, m), m);
}

} // verus!
