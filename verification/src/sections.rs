//! Re-parsing a stored file for display. A stored file is line-oriented:
//! a top-level section starts at an unindented `key:` line and runs until
//! the next unindented line. The detail view needs the four named sections
//! back; a file that holds none of them — foreign content, or a fallback
//! rendering — yields the all-absent result, never a failure.

use crate::info::strs;
use crate::text::{find_first, push_char};
use vstd::prelude::*;
use vstd::string::StrSliceExecFns;
use vstd::string::StringExecFns;

verus! {

/// The lines of a text, split on `\n`; a text with no `\n` is one line.
pub open spec fn split_lines(s: Seq<char>) -> Seq<Seq<char>>
    decreases s.len(),
{
    match find_first(s, '\n') {
        None => seq![s],
        Some(i) => if 0 <= i < s.len() {
            seq![s.subrange(0, i)] + split_lines(s.subrange(i + 1, s.len() as int))
        } else {
            seq![s]
        },
    }
}

/// An unindented, non-empty line: where a new top-level section starts.
pub open spec fn is_top(l: Seq<char>) -> bool {
    l.len() > 0 && l[0] != ' '
}

/// A line that opens the section named `k`: the key, then `:`.
pub open spec fn starts_with_key(l: Seq<char>, k: Seq<char>) -> bool {
    l.len() >= k.len() + 1 && l.subrange(0, k.len() as int) == k && l[k.len() as int] == ':'
}

/// The first line at or after `i` that opens the section named `k`.
pub open spec fn find_section(lines: Seq<Seq<char>>, k: Seq<char>, i: int) -> Option<int>
    decreases lines.len() - i,
{
    if i < 0 || i >= lines.len() {
        None
    } else if is_top(lines[i]) && starts_with_key(lines[i], k) {
        Some(i)
    } else {
        find_section(lines, k, i + 1)
    }
}

/// Where the section opened at line `j` ends: the next top-level line, or
/// the end of the file.
pub open spec fn section_end(lines: Seq<Seq<char>>, j: int) -> int
    decreases lines.len() - j,
{
    if j < 0 || j + 1 >= lines.len() {
        lines.len() as int
    } else if is_top(lines[j + 1]) {
        j + 1
    } else {
        section_end(lines, j + 1)
    }
}

/// Lines joined back with `\n`.
pub open spec fn join_lines(ls: Seq<Seq<char>>) -> Seq<char>
    decreases ls.len(),
{
    if ls.len() == 0 {
        Seq::empty()
    } else if ls.len() == 1 {
        ls[0]
    } else {
        join_lines(ls.drop_last()) + seq!['\n'] + ls.last()
    }
}

/// A body line with its storage indent removed.
pub open spec fn strip_indent(l: Seq<char>) -> Seq<char> {
    if l.len() >= 2 && l[0] == ' ' && l[1] == ' ' {
        l.skip(2)
    } else {
        l
    }
}

/// The raw text of the section named `k`: its opening line and the
/// indented lines under it, or nothing when the file holds no such
/// section.
pub open spec fn section_text(content: Seq<char>, k: Seq<char>) -> Option<Seq<char>> {
    let lines = split_lines(content);
    match find_section(lines, k, 0) {
        None => None,
        Some(j) => Some(join_lines(lines.subrange(j, section_end(lines, j)))),
    }
}

/// The stored body, de-indented: the lines under the `body:` marker with
/// the two-space storage indent removed.
pub open spec fn body_text(content: Seq<char>) -> Option<Seq<char>> {
    let lines = split_lines(content);
    match find_section(lines, seq!['b', 'o', 'd', 'y'], 0) {
        None => None,
        Some(j) => Some(
            join_lines(
                lines.subrange(j + 1, section_end(lines, j)).map_values(
                    |l: Seq<char>| strip_indent(l),
                ),
            ),
        ),
    }
}

/// Splitting distributes over concatenation at a line boundary: the empty
/// last line of a `\n`-terminated prefix merges with what follows.
pub proof fn lemma_split_concat(a: Seq<char>, b: Seq<char>)
    requires
        a.len() > 0,
        a.last() == '\n',
    ensures
        split_lines(a + b) == split_lines(a).drop_last() + split_lines(b),
    decreases a.len(),
{
    crate::text::lemma_find_from(a, '\n', 0);
    let i = find_first(a, '\n').unwrap();
    assert(forall|k: int| 0 <= k < i ==> a[k] != '\n');
    assert(forall|k: int| 0 <= k < i ==> (a + b)[k] != '\n');
    assert((a + b)[i] == '\n');
    crate::text::lemma_find_from_unique(a + b, '\n', 0, i);
    let head = a.subrange(0, i);
    assert((a + b).subrange(0, i) =~= head);
    if i == a.len() - 1 {
        assert((a + b).subrange(i + 1, (a + b).len() as int) =~= b);
        assert(a.subrange(i + 1, a.len() as int) =~= Seq::<char>::empty());
        crate::text::lemma_find_from_none(Seq::<char>::empty(), '\n', 0);
        assert(split_lines(Seq::<char>::empty()) == seq![Seq::<char>::empty()]);
        assert(split_lines(a) == seq![head] + seq![Seq::<char>::empty()]);
        assert(split_lines(a).drop_last() =~= seq![head]);
        assert(split_lines(a + b) =~= seq![head] + split_lines(b));
    } else {
        let a2 = a.subrange(i + 1, a.len() as int);
        assert(a2.len() > 0 && a2.last() == '\n');
        lemma_split_concat(a2, b);
        assert((a + b).subrange(i + 1, (a + b).len() as int) =~= a2 + b);
        assert(split_lines(a + b) == seq![head] + (split_lines(a2).drop_last() + split_lines(
            b,
        )));
        assert(split_lines(a) == seq![head] + split_lines(a2));
        assert(split_lines(a).drop_last() =~= seq![head] + split_lines(a2).drop_last());
        assert(split_lines(a + b) =~= split_lines(a).drop_last() + split_lines(b));
    }
}

/// Prepending one line to a join inserts one separator.
pub proof fn lemma_join_cons(h: Seq<char>, ls: Seq<Seq<char>>)
    requires
        ls.len() >= 1,
    ensures
        join_lines(seq![h] + ls) == h + seq!['\n'] + join_lines(ls),
    decreases ls.len(),
{
    if ls.len() == 1 {
        assert((seq![h] + ls).drop_last() =~= seq![h]);
        assert(join_lines(seq![h]) == h);
        assert((seq![h] + ls).last() == ls[0]);
    } else {
        lemma_join_cons(h, ls.drop_last());
        assert((seq![h] + ls).drop_last() =~= seq![h] + ls.drop_last());
        assert((seq![h] + ls).last() == ls.last());
    }
}

/// Joining the lines of a text gives the text back: the line split is
/// lossless.
pub proof fn lemma_join_split(s: Seq<char>)
    ensures
        join_lines(split_lines(s)) == s,
    decreases s.len(),
{
    match find_first(s, '\n') {
        None => {
        },
        Some(i) => {
            crate::text::lemma_find_from(s, '\n', 0);
            let head = s.subrange(0, i);
            let tail = s.subrange(i + 1, s.len() as int);
            lemma_join_split(tail);
            lemma_join_cons(head, split_lines(tail));
            assert(split_lines(tail).len() >= 1) by {
                match find_first(tail, '\n') {
                    None => {},
                    Some(_) => {
                        crate::text::lemma_find_from(tail, '\n', 0);
                    },
                }
            }
            assert(head + seq!['\n'] + tail =~= s);
        },
    }
}

/// The search finds exactly the line known to be the first match.
pub proof fn lemma_find_section_unique(lines: Seq<Seq<char>>, k: Seq<char>, i: int, j: int)
    requires
        0 <= i <= j < lines.len(),
        is_top(lines[j]) && starts_with_key(lines[j], k),
        forall|m: int| i <= m < j ==> !(is_top(#[trigger] lines[m]) && starts_with_key(lines[m], k)),
    ensures
        find_section(lines, k, i) == Some(j),
    decreases j - i,
{
    if i < j {
        lemma_find_section_unique(lines, k, i + 1, j);
    }
}

/// A section followed only by indented lines runs to the end of the file.
pub proof fn lemma_section_end_all(lines: Seq<Seq<char>>, j: int)
    requires
        0 <= j < lines.len(),
        forall|m: int| j < m < lines.len() ==> !is_top(#[trigger] lines[m]),
    ensures
        section_end(lines, j) == lines.len(),
    decreases lines.len() - j,
{
    if j + 1 < lines.len() {
        lemma_section_end_all(lines, j + 1);
    }
}

/// The four sections of one stored record, as the detail view renders
/// them; an absent section renders as nothing.
#[derive(Clone, Debug)]
pub struct Sections {
    pub headers: Option<String>,
    pub cookies: Option<String>,
    pub query_params: Option<String>,
    pub body: Option<String>,
}

/// The view of an optional owned text.
pub open spec fn opt_view(o: Option<String>) -> Option<Seq<char>> {
    match o {
        Some(s) => Some(s@),
        None => None,
    }
}

impl Sections {
    /// All sections absent: what a missing, forged or unparseable record
    /// renders as.
    pub fn absent() -> (r: Sections)
        ensures
            r.is_absent(),
    {
        Sections { headers: None, cookies: None, query_params: None, body: None }
    }

    pub open spec fn is_absent(self) -> bool {
        self.headers is None && self.cookies is None && self.query_params is None
            && self.body is None
    }
}

/// Splits a text into its lines, executably.
fn split_lines_exec(s: &str) -> (r: Vec<String>)
    ensures
        strs(r@) == split_lines(s@),
{
    let mut out: Vec<String> = Vec::new();
    let mut rest: String = String::from_str(s);
    loop
        invariant_except_break
            split_lines(s@) =~= strs(out@) + split_lines(rest@),
        ensures
            strs(out@) == split_lines(s@),
        decreases rest@.len(),
    {
        let ghost out_pre = out@;
        match crate::text::find_char(rest.as_str(), '\n') {
            None => {
                proof {
                    assert(split_lines(rest@) == seq![rest@]);
                }
                out.push(rest);
                proof {
                    assert(strs(out@) =~= strs(out_pre).push(out@.last()@));
                    assert(strs(out@) =~= split_lines(s@));
                }
                break ;
            },
            Some(i) => {
                let n = rest.as_str().unicode_len();
                let head = String::from_str(rest.as_str().substring_char(0, i));
                let tail = String::from_str(rest.as_str().substring_char(i + 1, n));
                proof {
                    assert(split_lines(rest@) == seq![head@] + split_lines(tail@));
                }
                out.push(head);
                proof {
                    assert(strs(out@) =~= strs(out_pre).push(out@.last()@));
                    assert(strs(out@) + split_lines(tail@) =~= strs(out_pre) + (seq![
                        out@.last()@,
                    ] + split_lines(tail@)));
                }
                rest = tail;
            },
        }
    }
    out
}

/// Whether a line opens the section named `k`, executably.
fn line_starts_key(l: &str, k: &str) -> (r: bool)
    ensures
        r == starts_with_key(l@, k@),
{
    let ln = l.unicode_len();
    let kn = k.unicode_len();
    if ln <= kn {
        return false;
    }
    let mut i: usize = 0;
    while i < kn
        invariant
            0 <= i <= kn,
            kn == k@.len(),
            ln == l@.len(),
            ln >= kn + 1,
            forall|j: int| 0 <= j < i ==> l@[j] == k@[j],
        decreases kn - i,
    {
        if l.get_char(i) != k.get_char(i) {
            proof {
                assert(l@.subrange(0, kn as int)[i as int] != k@[i as int]);
            }
            return false;
        }
        i = i + 1;
    }
    let r = l.get_char(kn) == ':';
    proof {
        if r {
            assert(l@.subrange(0, kn as int) =~= k@);
        }
    }
    r
}

/// Whether a line is unindented and non-empty, executably.
fn is_top_exec(l: &str) -> (r: bool)
    ensures
        r == is_top(l@),
{
    l.unicode_len() > 0 && l.get_char(0) != ' '
}

/// The first line at or after `from` that opens the section named `k`.
fn find_section_exec(lines: &Vec<String>, k: &str, from: usize) -> (r: Option<usize>)
    requires
        from <= lines@.len(),
    ensures
        match r {
            Some(j) => from <= j < lines@.len() && find_section(strs(lines@), k@, from as int)
                == Some(j as int),
            None => find_section(strs(lines@), k@, from as int) is None,
        },
    decreases lines@.len() - from,
{
    if from >= lines.len() {
        return None;
    }
    let l = &lines[from];
    if is_top_exec(l.as_str()) && line_starts_key(l.as_str(), k) {
        proof {
            assert(strs(lines@)[from as int] == l@);
        }
        Some(from)
    } else {
        proof {
            assert(strs(lines@)[from as int] == l@);
        }
        find_section_exec(lines, k, from + 1)
    }
}

/// Where the section opened at line `j` ends, executably.
fn section_end_exec(lines: &Vec<String>, j: usize) -> (r: usize)
    requires
        j < lines@.len(),
    ensures
        r == section_end(strs(lines@), j as int),
        j < r <= lines@.len(),
    decreases lines@.len() - j,
{
    let n = lines.len();
    if j + 1 >= n {
        n
    } else if is_top_exec(lines[j + 1].as_str()) {
        proof {
            assert(strs(lines@)[j + 1] == lines@[j + 1]@);
        }
        j + 1
    } else {
        proof {
            assert(strs(lines@)[j + 1] == lines@[j + 1]@);
        }
        section_end_exec(lines, j + 1)
    }
}

/// Joins `lines[from..to]` back with `\n`, stripping the storage indent
/// of each line when asked.
fn join_range(lines: &Vec<String>, from: usize, to: usize, strip: bool) -> (r: String)
    requires
        from <= to <= lines@.len(),
    ensures
        !strip ==> r@ == join_lines(strs(lines@).subrange(from as int, to as int)),
        strip ==> r@ == join_lines(
            strs(lines@).subrange(from as int, to as int).map_values(
                |l: Seq<char>| strip_indent(l),
            ),
        ),
{
    let ghost whole = if strip {
        strs(lines@).subrange(from as int, to as int).map_values(|l: Seq<char>| strip_indent(l))
    } else {
        strs(lines@).subrange(from as int, to as int)
    };
    let mut out = String::new();
    let mut i: usize = from;
    while i < to
        invariant
            from <= i <= to <= lines@.len(),
            whole == (if strip {
                strs(lines@).subrange(from as int, to as int).map_values(
                    |l: Seq<char>| strip_indent(l),
                )
            } else {
                strs(lines@).subrange(from as int, to as int)
            }),
            out@ == join_lines(whole.take(i - from)),
        decreases to - i,
    {
        let l = &lines[i];
        let piece = if strip {
            let n = l.as_str().unicode_len();
            if n >= 2 && l.as_str().get_char(0) == ' ' && l.as_str().get_char(1) == ' ' {
                let t = l.as_str().substring_char(2, n);
                proof {
                    assert(t@ =~= strip_indent(l@));
                }
                String::from_str(t)
            } else {
                proof {
                    assert(strip_indent(l@) == l@);
                }
                l.clone()
            }
        } else {
            l.clone()
        };
        proof {
            assert(whole[i - from] == piece@);
            assert(whole.take(i - from + 1).drop_last() =~= whole.take(i - from));
            assert(whole.take(i - from + 1).last() == whole[i - from]);
        }
        if i > from {
            push_char(&mut out, '\n');
        }
        out.append(piece.as_str());
        proof {
            if i == from {
                assert(whole.take(1).len() == 1);
                assert(join_lines(whole.take(1)) == whole.take(1)[0]);
                assert(out@ =~= join_lines(whole.take(i - from + 1)));
            } else {
                assert(out@ =~= join_lines(whole.take(i - from)) + seq!['\n'] + whole[i - from]);
            }
        }
        i = i + 1;
    }
    proof {
        assert(whole.take(to - from) =~= whole);
    }
    out
}

/// One named section of the file, as raw text.
fn section_exec(lines: &Vec<String>, k: &str) -> (r: Option<String>)
    ensures
        opt_view(r) == (match find_section(strs(lines@), k@, 0) {
            None => None,
            Some(j) => Some(
                join_lines(strs(lines@).subrange(j, section_end(strs(lines@), j))),
            ),
        }),
{
    match find_section_exec(lines, k, 0) {
        None => None,
        Some(j) => {
            let end = section_end_exec(lines, j);
            Some(join_range(lines, j, end, false))
        },
    }
}

/// Re-parses a stored file's text into its named sections. A text that
/// holds none of them yields the all-absent result.
pub fn parse_sections(content: &str) -> (r: Sections)
    ensures
        opt_view(r.headers) == section_text(content@, "headers"@),
        opt_view(r.cookies) == section_text(content@, "cookies"@),
        opt_view(r.query_params) == section_text(content@, "query_params"@),
        opt_view(r.body) == body_text(content@),
{
    let lines = split_lines_exec(content);
    let headers = section_exec(&lines, "headers");
    let cookies = section_exec(&lines, "cookies");
    let query_params = section_exec(&lines, "query_params");
    let body = match find_section_exec(&lines, "body", 0) {
        None => None,
        Some(j) => {
            let end = section_end_exec(&lines, j);
            Some(join_range(&lines, j + 1, end, true))
        },
    };
    proof {
        reveal_strlit("body");
        assert("body"@ =~= seq!['b', 'o', 'd', 'y']);
    }
    Sections { headers, cookies, query_params, body }
}

/// The detail read's last step: the file's sections when there was a file
/// to read, the all-absent result when the key did not resolve or the
/// file was missing.
pub fn read_sections(content: Option<&String>) -> (r: Sections)
    ensures
        match content {
            None => r.is_absent(),
            Some(c) => {
                &&& opt_view(r.headers) == section_text(c@, "headers"@)
                &&& opt_view(r.cookies) == section_text(c@, "cookies"@)
                &&& opt_view(r.query_params) == section_text(c@, "query_params"@)
                &&& opt_view(r.body) == body_text(c@)
            },
        },
{
    match content {
        None => Sections::absent(),
        Some(c) => parse_sections(c.as_str()),
    }
}

} // verus!
