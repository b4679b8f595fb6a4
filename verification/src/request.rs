//! The record codec: every captured request is named
//! `YYYYMMDD-HH:MM:SS-METHOD[-PATH].EXT`, where the path's `/` characters
//! are swapped for `|` so the name stays a single path segment, and the
//! extension marks whether the stored metadata serialized cleanly. The name
//! grammar is reversible: parsing a well-formed record's name yields the
//! record back.

use crate::method::{valid_token, Method};
use crate::text::{
    digit_val, find_first, find_last, four_digits, is_digit, push_char, push_four_digits,
    push_two_digits, str_eq, two_digits,
};
use crate::timestamp::{days_in_month, spec_time_text, Timestamp};
use vstd::prelude::*;
use vstd::string::StrSliceExecFns;
use vstd::string::StringExecFns;

verus! {

/// The abstract content of a record: what its file name encodes.
pub struct Record {
    pub time: Timestamp,
    pub method: Seq<char>,
    pub path: Option<Seq<char>>,
    pub is_yaml: bool,
}

/// A method token that survives the name grammar: the two separators may
/// not occur in it (HTTP methods never contain `-` or `.`).
pub open spec fn codec_token(m: Seq<char>) -> bool {
    valid_token(m) && forall|i: int| 0 <= i < m.len() ==> m[i] != '-' && #[trigger] m[i] != '.'
}

/// A path that survives the slash swap: it contains no `|`.
pub open spec fn path_ok(p: Seq<char>) -> bool {
    forall|i: int| 0 <= i < p.len() ==> #[trigger] p[i] != '|'
}

impl Record {
    /// A record the codec round-trips.
    pub open spec fn wf(self) -> bool {
        &&& self.time.wf()
        &&& codec_token(self.method)
        &&& match self.path {
            Some(p) => path_ok(p),
            None => true,
        }
    }
}

/// One captured request, as reconstructed from or encoded into a file name.
#[derive(Clone, Debug)]
pub struct RequestFile {
    pub time: Timestamp,
    pub method: Method,
    pub path: Option<String>,
    pub is_yaml: bool,
}

impl View for RequestFile {
    type V = Record;

    open spec fn view(&self) -> Record {
        Record {
            time: self.time,
            method: self.method@,
            path: match self.path {
                Some(p) => Some(p@),
                None => None,
            },
            is_yaml: self.is_yaml,
        }
    }
}

/// The error for every way a file name can fail to parse as a record name.
#[derive(Debug, PartialEq, Eq, Structural, Clone, Copy)]
pub struct ParseRequestFileError;

/// The path as embedded in a name: `/` becomes `|`.
pub open spec fn swap_slash(p: Seq<char>) -> Seq<char> {
    p.map_values(
        |c: char|
            if c == '/' {
                '|'
            } else {
                c
            },
    )
}

/// The inverse substitution: `|` becomes `/`.
pub open spec fn unswap_slash(p: Seq<char>) -> Seq<char> {
    p.map_values(
        |c: char|
            if c == '|' {
                '/'
            } else {
                c
            },
    )
}

/// The extension marking whether the metadata block is structured text.
pub open spec fn ext_chars(is_yaml: bool) -> Seq<char> {
    if is_yaml {
        seq!['y', 'a', 'm', 'l']
    } else {
        seq!['i', 'n']
    }
}

/// The date piece of a name: `YYYYMMDD`.
pub open spec fn spec_date_compact(t: Timestamp) -> Seq<char> {
    four_digits(t.year as int) + two_digits(t.month as int) + two_digits(t.day as int)
}

/// The canonical file name of a record.
pub open spec fn spec_name(v: Record) -> Seq<char> {
    spec_date_compact(v.time) + seq!['-'] + spec_time_text(v.time) + seq!['-'] + v.method + (match v
        .path {
        Some(p) => seq!['-'] + swap_slash(p),
        None => Seq::<char>::empty(),
    }) + seq!['.'] + ext_chars(v.is_yaml)
}

/// Reads `YYYYMMDD` back into year, month and day, accepting exactly the
/// dates a well-formed timestamp can hold.
pub open spec fn spec_parse_date(s: Seq<char>) -> Option<(u16, u8, u8)> {
    if s.len() == 8 && is_digit(s[0]) && is_digit(s[1]) && is_digit(s[2]) && is_digit(s[3])
        && is_digit(s[4]) && is_digit(s[5]) && is_digit(s[6]) && is_digit(s[7]) {
        let y = digit_val(s[0]) * 1000 + digit_val(s[1]) * 100 + digit_val(s[2]) * 10 + digit_val(
            s[3],
        );
        let mo = digit_val(s[4]) * 10 + digit_val(s[5]);
        let d = digit_val(s[6]) * 10 + digit_val(s[7]);
        if 1 <= y && 1 <= mo <= 12 && 1 <= d <= days_in_month(y, mo) {
            Some((y as u16, mo as u8, d as u8))
        } else {
            None
        }
    } else {
        None
    }
}

/// Reads `HH:MM:SS` back into hour, minute and second.
pub open spec fn spec_parse_time(s: Seq<char>) -> Option<(u8, u8, u8)> {
    if s.len() == 8 && is_digit(s[0]) && is_digit(s[1]) && s[2] == ':' && is_digit(s[3]) && is_digit(
        s[4],
    ) && s[5] == ':' && is_digit(s[6]) && is_digit(s[7]) {
        let h = digit_val(s[0]) * 10 + digit_val(s[1]);
        let mi = digit_val(s[3]) * 10 + digit_val(s[4]);
        let sec = digit_val(s[6]) * 10 + digit_val(s[7]);
        if h <= 23 && mi <= 59 && sec <= 59 {
            Some((h as u8, mi as u8, sec as u8))
        } else {
            None
        }
    } else {
        None
    }
}

/// Parses a file name back into a record: split on the first two `-` for
/// date and time, then one more `-` decides whether a path is present, and
/// the last `.` separates the extension.
pub open spec fn spec_parse_name(s: Seq<char>) -> Option<Record> {
    match find_first(s, '-') {
        None => None,
        Some(i1) => {
            let date = s.subrange(0, i1);
            let rest1 = s.subrange(i1 + 1, s.len() as int);
            match find_first(rest1, '-') {
                None => None,
                Some(i2) => {
                    let time = rest1.subrange(0, i2);
                    let rest2 = rest1.subrange(i2 + 1, rest1.len() as int);
                    match (spec_parse_date(date), spec_parse_time(time)) {
                        (Some((y, mo, d)), Some((h, mi, sec))) => {
                            let t = Timestamp {
                                year: y,
                                month: mo,
                                day: d,
                                hour: h,
                                minute: mi,
                                second: sec,
                            };
                            spec_parse_tail(rest2, t)
                        },
                        _ => None,
                    }
                },
            }
        },
    }
}

/// Parses `METHOD[-PATH].EXT`, the piece of the name after the timestamp.
pub open spec fn spec_parse_tail(rest2: Seq<char>, t: Timestamp) -> Option<Record> {
    match find_first(rest2, '-') {
        Some(i3) => {
            let mtok = rest2.subrange(0, i3);
            let tail = rest2.subrange(i3 + 1, rest2.len() as int);
            match find_last(tail, '.') {
                None => None,
                Some(j) => {
                    let pathpart = tail.subrange(0, j);
                    let ext = tail.subrange(j + 1, tail.len() as int);
                    if valid_token(mtok) {
                        Some(
                            (Record {
                                time: t,
                                method: mtok,
                                path: Some(unswap_slash(pathpart)),
                                is_yaml: ext == ext_chars(true),
                            }),
                        )
                    } else {
                        None
                    }
                },
            }
        },
        None => {
            match find_last(rest2, '.') {
                None => None,
                Some(j) => {
                    let mtok = rest2.subrange(0, j);
                    let ext = rest2.subrange(j + 1, rest2.len() as int);
                    if valid_token(mtok) {
                        Some(
                            (Record {
                                time: t,
                                method: mtok,
                                path: None,
                                is_yaml: ext == ext_chars(true),
                            }),
                        )
                    } else {
                        None
                    }
                },
            }
        },
    }
}

/// The slash swap is reversible on paths that contain no `|`.
pub proof fn lemma_swap_roundtrip(p: Seq<char>)
    requires
        path_ok(p),
    ensures
        unswap_slash(swap_slash(p)) == p,
{
    assert(unswap_slash(swap_slash(p)) =~= p);
}

/// Reading the date piece of a name back yields the timestamp's date.
pub proof fn lemma_date_compact_roundtrip(t: Timestamp)
    requires
        t.wf(),
    ensures
        spec_parse_date(spec_date_compact(t)) == Some((t.year, t.month, t.day)),
{
    let s = spec_date_compact(t);
    crate::text::lemma_four_digits_val(t.year as int);
    crate::text::lemma_two_digits_val(t.month as int);
    crate::text::lemma_two_digits_val(t.day as int);
    assert(s[0] == four_digits(t.year as int)[0]);
    assert(s[1] == four_digits(t.year as int)[1]);
    assert(s[2] == four_digits(t.year as int)[2]);
    assert(s[3] == four_digits(t.year as int)[3]);
    assert(s[4] == two_digits(t.month as int)[0]);
    assert(s[5] == two_digits(t.month as int)[1]);
    assert(s[6] == two_digits(t.day as int)[0]);
    assert(s[7] == two_digits(t.day as int)[1]);
}

/// Reading the time piece of a name back yields the timestamp's time.
pub proof fn lemma_time_text_roundtrip(t: Timestamp)
    requires
        t.wf(),
    ensures
        spec_parse_time(spec_time_text(t)) == Some((t.hour, t.minute, t.second)),
{
    let s = spec_time_text(t);
    crate::text::lemma_two_digits_val(t.hour as int);
    crate::text::lemma_two_digits_val(t.minute as int);
    crate::text::lemma_two_digits_val(t.second as int);
    assert(s[0] == two_digits(t.hour as int)[0]);
    assert(s[1] == two_digits(t.hour as int)[1]);
    assert(s[2] == ':');
    assert(s[3] == two_digits(t.minute as int)[0]);
    assert(s[4] == two_digits(t.minute as int)[1]);
    assert(s[5] == ':');
    assert(s[6] == two_digits(t.second as int)[0]);
    assert(s[7] == two_digits(t.second as int)[1]);
}

/// Round-trip law: parsing the canonical name of any well-formed record
/// yields the record back, so a file name doubles as a faithful key for the
/// record it stores.
#[verifier::rlimit(30)]
pub proof fn lemma_name_roundtrip(v: Record)
    requires
        v.wf(),
    ensures
        spec_parse_name(spec_name(v)) == Some(v),
{
    let name = spec_name(v);
    let date = spec_date_compact(v.time);
    let timep = spec_time_text(v.time);
    let m = v.method;
    let tailp = match v.path {
        Some(p) => seq!['-'] + swap_slash(p),
        None => Seq::<char>::empty(),
    };
    let e = ext_chars(v.is_yaml);
    crate::text::lemma_four_digits_val(v.time.year as int);
    crate::text::lemma_two_digits_val(v.time.month as int);
    crate::text::lemma_two_digits_val(v.time.day as int);
    crate::text::lemma_two_digits_val(v.time.hour as int);
    crate::text::lemma_two_digits_val(v.time.minute as int);
    crate::text::lemma_two_digits_val(v.time.second as int);
    assert(date.len() == 8);
    assert(timep.len() == 8);
    assert(name.len() == 8 + 1 + 8 + 1 + m.len() + tailp.len() + 1 + e.len());
    // The first separator stands right after the eight date digits.
    assert(forall|k: int| 0 <= k < 8 ==> is_digit(#[trigger] date[k]));
    assert(forall|k: int| 0 <= k < 8 ==> name[k] == date[k]);
    assert(name[8] == '-');
    crate::text::lemma_find_from_unique(name, '-', 0, 8);
    let rest1 = name.subrange(9, name.len() as int);
    assert(rest1 =~= timep + seq!['-'] + m + tailp + seq!['.'] + e);
    // The second separator stands right after the eight time characters.
    assert(forall|k: int| 0 <= k < 8 ==> rest1[k] == timep[k]);
    assert(timep[0] != '-' && timep[1] != '-' && timep[2] != '-' && timep[3] != '-' && timep[4]
        != '-' && timep[5] != '-' && timep[6] != '-' && timep[7] != '-');
    assert(rest1[8] == '-');
    crate::text::lemma_find_from_unique(rest1, '-', 0, 8);
    assert(name.subrange(0, 8) =~= date);
    assert(rest1.subrange(0, 8) =~= timep);
    lemma_date_compact_roundtrip(v.time);
    lemma_time_text_roundtrip(v.time);
    let rest2 = rest1.subrange(9, rest1.len() as int);
    assert(rest2 =~= m + tailp + seq!['.'] + e);
    assert(e[0] != '.' && e[e.len() - 1] != '.' && forall|k: int|
        0 <= k < e.len() ==> #[trigger] e[k] != '.' && e[k] != '-');
    lemma_parse_tail(rest2, v, m, tailp, e);
}

/// The tail of a well-formed record's name parses back to the record.
proof fn lemma_parse_tail(rest2: Seq<char>, v: Record, m: Seq<char>, tailp: Seq<char>, e: Seq<char>)
    requires
        v.wf(),
        m == v.method,
        tailp == (match v.path {
            Some(p) => seq!['-'] + swap_slash(p),
            None => Seq::<char>::empty(),
        }),
        e == ext_chars(v.is_yaml),
        rest2 =~= m + tailp + seq!['.'] + e,
    ensures
        spec_parse_tail(
            rest2,
            v.time,
        ) == Some(v),
{
    assert(forall|k: int| 0 <= k < e.len() ==> #[trigger] e[k] != '.' && e[k] != '-');
    match v.path {
        Some(p) => {
            let sp = swap_slash(p);
            assert(tailp.len() == 1 + sp.len());
            assert(forall|k: int| 0 <= k < m.len() ==> rest2[k] == m[k]);
            assert(rest2[m.len() as int] == '-');
            crate::text::lemma_find_from_unique(rest2, '-', 0, m.len() as int);
            let tail = rest2.subrange(m.len() + 1 as int, rest2.len() as int);
            assert(tail =~= sp + seq!['.'] + e);
            assert(forall|k: int| 0 <= k < sp.len() ==> sp[k] == #[trigger] swap_slash(p)[k]);
            assert(tail[sp.len() as int] == '.');
            assert(forall|k: int| sp.len() < k < tail.len() ==> #[trigger] tail[k] != '.');
            crate::text::lemma_find_last_unique(tail, '.', sp.len() as int);
            assert(rest2.subrange(0, m.len() as int) =~= m);
            assert(tail.subrange(0, sp.len() as int) =~= sp);
            assert(tail.subrange(sp.len() + 1 as int, tail.len() as int) =~= e);
            lemma_swap_roundtrip(p);
            assert(ext_chars(true) == e <==> v.is_yaml) by {
                if !v.is_yaml {
                    assert(ext_chars(true).len() == 4 && e.len() == 2);
                }
            }
        },
        None => {
            assert(tailp.len() == 0);
            assert(forall|k: int| 0 <= k < m.len() ==> rest2[k] == m[k]);
            assert(forall|k: int| 0 <= k < m.len() ==> #[trigger] rest2[k] != '-');
            assert(rest2[m.len() as int] == '.');
            assert(forall|k: int| m.len() < k < rest2.len() ==> #[trigger] rest2[k] != '-');
            crate::text::lemma_find_from_none(rest2, '-', 0);
            assert(forall|k: int| m.len() < k < rest2.len() ==> #[trigger] rest2[k] != '.');
            crate::text::lemma_find_last_unique(rest2, '.', m.len() as int);
            assert(rest2.subrange(0, m.len() as int) =~= m);
            assert(rest2.subrange(m.len() + 1 as int, rest2.len() as int) =~= e);
            assert(ext_chars(true) == e <==> v.is_yaml) by {
                if !v.is_yaml {
                    assert(ext_chars(true).len() == 4 && e.len() == 2);
                }
            }
        },
    }
}

/// Applies the slash swap, executably.
pub fn swap_path(p: &str) -> (r: String)
    ensures
        r@ == swap_slash(p@),
{
    let n = p.unicode_len();
    let mut out = String::new();
    let mut i: usize = 0;
    while i < n
        invariant
            0 <= i <= n,
            n == p@.len(),
            out@ =~= swap_slash(p@).take(i as int),
        decreases n - i,
    {
        let c = p.get_char(i);
        if c == '/' {
            push_char(&mut out, '|');
        } else {
            push_char(&mut out, c);
        }
        proof {
            assert(swap_slash(p@).take(i + 1 as int) =~= swap_slash(p@).take(i as int).push(
                swap_slash(p@)[i as int],
            ));
        }
        i = i + 1;
    }
    proof {
        assert(swap_slash(p@).take(n as int) =~= swap_slash(p@));
    }
    out
}

/// Applies the inverse substitution, executably.
pub fn unswap_path(p: &str) -> (r: String)
    ensures
        r@ == unswap_slash(p@),
{
    let n = p.unicode_len();
    let mut out = String::new();
    let mut i: usize = 0;
    while i < n
        invariant
            0 <= i <= n,
            n == p@.len(),
            out@ =~= unswap_slash(p@).take(i as int),
        decreases n - i,
    {
        let c = p.get_char(i);
        if c == '|' {
            push_char(&mut out, '/');
        } else {
            push_char(&mut out, c);
        }
        proof {
            assert(unswap_slash(p@).take(i + 1 as int) =~= unswap_slash(p@).take(i as int).push(
                unswap_slash(p@)[i as int],
            ));
        }
        i = i + 1;
    }
    proof {
        assert(unswap_slash(p@).take(n as int) =~= unswap_slash(p@));
    }
    out
}

fn parse_date_exec(s: &str) -> (r: Option<(u16, u8, u8)>)
    ensures
        r == spec_parse_date(s@),
{
    let n = s.unicode_len();
    if n != 8 {
        return None;
    }
    let d0 = match crate::text::char_digit_val(s.get_char(0)) {
        Some(d) => d,
        None => { return None },
    };
    let d1 = match crate::text::char_digit_val(s.get_char(1)) {
        Some(d) => d,
        None => { return None },
    };
    let d2 = match crate::text::char_digit_val(s.get_char(2)) {
        Some(d) => d,
        None => { return None },
    };
    let d3 = match crate::text::char_digit_val(s.get_char(3)) {
        Some(d) => d,
        None => { return None },
    };
    let d4 = match crate::text::char_digit_val(s.get_char(4)) {
        Some(d) => d,
        None => { return None },
    };
    let d5 = match crate::text::char_digit_val(s.get_char(5)) {
        Some(d) => d,
        None => { return None },
    };
    let d6 = match crate::text::char_digit_val(s.get_char(6)) {
        Some(d) => d,
        None => { return None },
    };
    let d7 = match crate::text::char_digit_val(s.get_char(7)) {
        Some(d) => d,
        None => { return None },
    };
    let y: u16 = d0 as u16 * 1000 + d1 as u16 * 100 + d2 as u16 * 10 + d3 as u16;
    let mo: u8 = d4 * 10 + d5;
    let d: u8 = d6 * 10 + d7;
    if 1 <= y && 1 <= mo && mo <= 12 && 1 <= d && d <= crate::timestamp::days_in_month_exec(y, mo) {
        Some((y, mo, d))
    } else {
        None
    }
}

fn parse_time_exec(s: &str) -> (r: Option<(u8, u8, u8)>)
    ensures
        r == spec_parse_time(s@),
{
    let n = s.unicode_len();
    if n != 8 {
        return None;
    }
    if s.get_char(2) != ':' || s.get_char(5) != ':' {
        return None;
    }
    let d0 = match crate::text::char_digit_val(s.get_char(0)) {
        Some(d) => d,
        None => { return None },
    };
    let d1 = match crate::text::char_digit_val(s.get_char(1)) {
        Some(d) => d,
        None => { return None },
    };
    let d3 = match crate::text::char_digit_val(s.get_char(3)) {
        Some(d) => d,
        None => { return None },
    };
    let d4 = match crate::text::char_digit_val(s.get_char(4)) {
        Some(d) => d,
        None => { return None },
    };
    let d6 = match crate::text::char_digit_val(s.get_char(6)) {
        Some(d) => d,
        None => { return None },
    };
    let d7 = match crate::text::char_digit_val(s.get_char(7)) {
        Some(d) => d,
        None => { return None },
    };
    let h: u8 = d0 * 10 + d1;
    let mi: u8 = d3 * 10 + d4;
    let sec: u8 = d6 * 10 + d7;
    if h <= 23 && mi <= 59 && sec <= 59 {
        Some((h, mi, sec))
    } else {
        None
    }
}

impl RequestFile {
    /// The canonical file name this record is stored under.
    pub fn file_name(&self) -> (r: String)
        requires
            self.time.wf(),
        ensures
            r@ == spec_name(self@),
    {
        let mut s = String::new();
        push_four_digits(&mut s, self.time.year);
        push_two_digits(&mut s, self.time.month);
        push_two_digits(&mut s, self.time.day);
        push_char(&mut s, '-');
        push_two_digits(&mut s, self.time.hour);
        push_char(&mut s, ':');
        push_two_digits(&mut s, self.time.minute);
        push_char(&mut s, ':');
        push_two_digits(&mut s, self.time.second);
        push_char(&mut s, '-');
        s.append(self.method.as_str());
        if let Some(p) = &self.path {
            push_char(&mut s, '-');
            let sp = swap_path(p.as_str());
            s.append(sp.as_str());
        }
        push_char(&mut s, '.');
        if self.is_yaml {
            s.append("yaml");
        } else {
            s.append("in");
        }
        proof {
            reveal_strlit("yaml");
            reveal_strlit("in");
            assert(s@ =~= spec_name(self@));
        }
        s
    }

    /// Parses a file name back into a record. Any name this parser accepts
    /// carries a well-formed timestamp and a valid method token.
    pub fn parse_name(s: &str) -> (r: Result<RequestFile, ParseRequestFileError>)
        ensures
            match r {
                Ok(f) => Some(f@) == spec_parse_name(s@) && f.time.wf(),
                Err(_) => spec_parse_name(s@) is None,
            },
    {
        let n = s.unicode_len();
        let i1 = match crate::text::find_char(s, '-') {
            Some(i) => i,
            None => { return Err(ParseRequestFileError) },
        };
        let date_s = s.substring_char(0, i1);
        let rest1 = s.substring_char(i1 + 1, n);
        let i2 = match crate::text::find_char(rest1, '-') {
            Some(i) => i,
            None => { return Err(ParseRequestFileError) },
        };
        let time_s = rest1.substring_char(0, i2);
        let rest2 = rest1.substring_char(i2 + 1, rest1.unicode_len());
        let (y, mo, d) = match parse_date_exec(date_s) {
            Some(v) => v,
            None => { return Err(ParseRequestFileError) },
        };
        let (h, mi, sec) = match parse_time_exec(time_s) {
            Some(v) => v,
            None => { return Err(ParseRequestFileError) },
        };
        let time = Timestamp { year: y, month: mo, day: d, hour: h, minute: mi, second: sec };
        match crate::text::find_char(rest2, '-') {
            Some(i3) => {
                let mtok = rest2.substring_char(0, i3);
                let tail = rest2.substring_char(i3 + 1, rest2.unicode_len());
                let j = match crate::text::rfind_char(tail, '.') {
                    Some(j) => j,
                    None => { return Err(ParseRequestFileError) },
                };
                let pathpart = tail.substring_char(0, j);
                let ext = tail.substring_char(j + 1, tail.unicode_len());
                let method = match Method::from_token(String::from_str(mtok)) {
                    Some(m) => m,
                    None => { return Err(ParseRequestFileError) },
                };
                let path = unswap_path(pathpart);
                let is_yaml = str_eq(ext, "yaml");
                proof {
                    reveal_strlit("yaml");
                    assert("yaml"@ =~= ext_chars(true));
                }
                Ok(RequestFile { time, method, path: Some(path), is_yaml })
            },
            None => {
                let j = match crate::text::rfind_char(rest2, '.') {
                    Some(j) => j,
                    None => { return Err(ParseRequestFileError) },
                };
                let mtok = rest2.substring_char(0, j);
                let ext = rest2.substring_char(j + 1, rest2.unicode_len());
                let method = match Method::from_token(String::from_str(mtok)) {
                    Some(m) => m,
                    None => { return Err(ParseRequestFileError) },
                };
                let is_yaml = str_eq(ext, "yaml");
                proof {
                    reveal_strlit("yaml");
                    assert("yaml"@ =~= ext_chars(true));
                }
                Ok(RequestFile { time, method, path: None, is_yaml })
            },
        }
    }

    /// Parses a file name into a record and confirms that its wall-clock
    /// time names exactly one instant in this machine's local zone: a name
    /// in a spring-forward gap or a fall-back overlap is refused like any
    /// other parse failure. The zone's answer depends on the machine, so
    /// only the grammar side is pinned: a name the grammar refuses is
    /// always an error, and whatever is accepted is the name's one parse.
    pub fn from_name(s: &str) -> (r: Result<RequestFile, ParseRequestFileError>)
        ensures
            match r {
                Ok(f) => Some(f@) == spec_parse_name(s@) && f.time.wf(),
                Err(_) => true,
            },
            spec_parse_name(s@) is None ==> r is Err,
    {
        match Self::parse_name(s) {
            Err(e) => Err(e),
            Ok(f) => {
                if crate::timestamp::local_zone_single(&f.time) {
                    Ok(f)
                } else {
                    Err(ParseRequestFileError)
                }
            },
        }
    }

    /// The opaque, URL-safe token under which the dashboard refers to this
    /// record: the base64 form of its canonical file name.
    pub fn encoded_name(&self) -> (r: String)
        requires
            self.time.wf(),
        ensures
            r@ == crate::keycodec::b64_of(spec_name(self@)),
    {
        let name = self.file_name();
        crate::keycodec::b64_encode(name.as_str())
    }

    /// Turns an opaque token back into the file name it encodes, refusing
    /// malformed tokens instead of failing. What comes back is the one
    /// text encoding to the token, so decoding the token of a record's
    /// name yields exactly that name.
    pub fn decode_name(name: &str) -> (r: Option<String>)
        ensures
            match r {
                Some(n) => crate::keycodec::b64_of(n@) == name@ && (forall|m: Seq<char>|
                    crate::keycodec::b64_of(m) == name@ ==> m == n@),
                None => forall|n: Seq<char>| name@ != crate::keycodec::b64_of(n),
            },
    {
        crate::keycodec::b64_decode(name)
    }

    /// The listing row for this record:
    /// `(date, time, method, display path, badge colour, opaque key)`.
    pub fn to_tuple(&self) -> (r: (String, String, String, String, String, String))
        requires
            self.time.wf(),
        ensures
            r.0@ == crate::timestamp::spec_date_text(self.time),
            r.1@ == spec_time_text(self.time),
            r.2@ == self.method@,
            r.3@ == (match self@.path {
                Some(p) => crate::text::spec_truncate_ellipse(p, 32),
                None => Seq::<char>::empty(),
            }),
            r.4@ == crate::method::spec_color_class(self.method@),
            r.5@ == crate::keycodec::b64_of(spec_name(self@)),
    {
        let shown = match &self.path {
            Some(p) => crate::text::truncate_ellipse(p.as_str(), 32),
            None => String::new(),
        };
        (
            self.time.date_text(),
            self.time.time_text(),
            self.method.token_string(),
            shown,
            self.method.color_class(),
            self.encoded_name(),
        )
    }
}

} // verus!
