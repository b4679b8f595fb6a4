//! The directory-backed store, in its pure parts: planning a record's file
//! (name and full content), folding a directory listing back into records,
//! ordering them newest-first, and turning an opaque dashboard key back
//! into a guarded file name. The surrounding I/O — creating the directory,
//! writing and reading files — stays with the caller.

use crate::info::{ev, pv, RequestInfo};
use crate::keycodec::b64_of;
use crate::request::{spec_name, spec_parse_name, Record, RequestFile};
use crate::text::push_char;
use crate::utils::is_valid_key;
use serde_yaml::{Mapping, Value};
use vstd::prelude::*;
use vstd::multiset::Multiset;
use vstd::string::StrSliceExecFns;
use vstd::string::StringExecFns;

verus! {

/// The directory-backed repository: one file per captured request.
#[derive(Clone, Debug)]
pub struct Db {
    pub folder: String,
}

/// What the structured serializer returns for a snapshot: a function of
/// the three mappings alone.
pub uninterp spec fn yaml_meta_of(
    headers: Seq<(Seq<char>, Seq<char>)>,
    cookies: Seq<(Seq<char>, Seq<char>)>,
    query_params: Seq<(Seq<char>, Seq<Seq<char>>)>,
) -> Seq<char>;

/// Whether the structured serializer succeeds on a snapshot: like its
/// text, a function of the three mappings alone.
pub uninterp spec fn yaml_meta_ok(
    headers: Seq<(Seq<char>, Seq<char>)>,
    cookies: Seq<(Seq<char>, Seq<char>)>,
    query_params: Seq<(Seq<char>, Seq<Seq<char>>)>,
) -> bool;

/// Relies on `serde_yaml::to_string` over a mapping assembled from the
/// snapshot's three mappings in order: the text and whether it comes at
/// all are functions of the snapshot alone (the emitter writes into a
/// buffer in memory). The output ends with a line break, and every line
/// but the final empty one sits under one of the three section keys, so
/// no line of it opens a section named `body`.
#[verifier::external_body]
fn serialize_info(info: &RequestInfo) -> (r: Option<String>)
    ensures
        r is Some <==> yaml_meta_ok(pv(info.headers@), pv(info.cookies@), ev(info.query_params@)),
        r matches Some(s) ==> s@ == yaml_meta_of(
            pv(info.headers@),
            pv(info.cookies@),
            ev(info.query_params@),
        ),
        r matches Some(s) ==> s@.len() > 0 && s@.last() == '\n',
        r matches Some(s) ==> forall|m: int|
            0 <= m < crate::sections::split_lines(s@).len()
                ==> !crate::sections::starts_with_key(
                #[trigger] crate::sections::split_lines(s@)[m],
                seq!['b', 'o', 'd', 'y'],
            ),
{
    let s = |x: &String| Value::from(x.as_str());
    let kv = |ps: &Vec<(String, String)>| Value::from(
        ps.iter().map(|p| (s(&p.0), s(&p.1))).collect::<Mapping>(),
    );
    let q: Mapping = info.query_params.iter().map(
        |p| (s(&p.0), Value::from(p.1.clone())),
    ).collect();
    let top = Mapping::from_iter([
        (Value::from("headers"), kv(&info.headers)),
        (Value::from("cookies"), kv(&info.cookies)),
        (Value::from("query_params"), Value::from(q)),
    ]);
    serde_yaml::to_string(&top).ok()
}

/// Relies on the derived `Debug` rendering of the snapshot, used only as
/// the fallback text when structured serialization fails; nothing is
/// needed of it beyond being non-empty text.
#[verifier::external_body]
fn debug_text(info: &RequestInfo) -> (r: String)
    ensures
        r@.len() > 0,
{
    format!("{:?}", info)
}

/// Picks the metadata block from the serializer's outcome: the structured
/// text when serialization succeeded, else the fallback, with the flag
/// saying which was taken.
pub fn choose_metadata(serialized: Option<String>, fallback: String) -> (r: (String, bool))
    ensures
        match serialized {
            Some(s) => r.0 == s && r.1 == true,
            None => r.0 == fallback && r.1 == false,
        },
{
    match serialized {
        Some(s) => (s, true),
        None => (fallback, false),
    }
}

/// Serializes a snapshot to its metadata block. The flag is owed: it is
/// set exactly when the structured serializer succeeds on this snapshot,
/// and then the block is the structured text; only otherwise does the
/// debug rendering stand in, marking the record non-structured. The write
/// never fails on this account.
pub fn metadata_block(info: &RequestInfo) -> (r: (String, bool))
    ensures
        r.1 == yaml_meta_ok(pv(info.headers@), pv(info.cookies@), ev(info.query_params@)),
        r.1 ==> r.0@ == yaml_meta_of(pv(info.headers@), pv(info.cookies@), ev(info.query_params@)),
        r.1 ==> r.0@.len() > 0 && r.0@.last() == '\n' && (forall|m: int|
            0 <= m < crate::sections::split_lines(r.0@).len()
                ==> !crate::sections::starts_with_key(
                #[trigger] crate::sections::split_lines(r.0@)[m],
                seq!['b', 'o', 'd', 'y'],
            )),
        !r.1 ==> r.0@.len() > 0,
{
    let fallback = debug_text(info);
    choose_metadata(serialize_info(info), fallback)
}

/// A body as embedded in the stored file: every line break gains the
/// two-space indent, so the body nests losslessly under its marker.
pub open spec fn indent_core(b: Seq<char>) -> Seq<char>
    decreases b.len(),
{
    if b.len() == 0 {
        Seq::empty()
    } else {
        indent_core(b.drop_last()) + (if b.last() == '\n' {
            seq!['\n', ' ', ' ']
        } else {
            seq![b.last()]
        })
    }
}

/// The `body: |` marker line and the indent of the body's first line.
pub open spec fn body_marker() -> Seq<char> {
    seq!['b', 'o', 'd', 'y', ':', ' ', '|', '\n', ' ', ' ']
}

/// The body section of a stored file: absent for an empty body.
pub open spec fn body_block(b: Seq<char>) -> Seq<char> {
    if b.len() == 0 {
        Seq::empty()
    } else {
        body_marker() + indent_core(b)
    }
}

/// The `uri:` line naming the captured request target, when one exists.
pub open spec fn uri_line(path: Option<Seq<char>>) -> Seq<char> {
    match path {
        Some(p) => seq!['u', 'r', 'i', ':', ' '] + p + seq!['\n'],
        None => Seq::<char>::empty(),
    }
}

/// The full content of a stored file: the request target, the metadata
/// block, and the indented body when there is one.
pub open spec fn spec_stored_file(
    path: Option<Seq<char>>,
    meta: Seq<char>,
    body: Seq<char>,
) -> Seq<char> {
    uri_line(path) + meta + body_block(body)
}

/// Records in newest-first order.
pub open spec fn sorted_desc(s: Seq<RequestFile>) -> bool {
    forall|i: int, j: int|
        0 <= i < j < s.len() ==> (#[trigger] s[i]).time.order_key() >= (#[trigger] s[j]).time.order_key()
}

/// The records among a directory's entry names: each name parsed by the
/// record codec, entries that are no records of this store skipped.
pub open spec fn records_of(names: Seq<Seq<char>>) -> Seq<Record> {
    names.filter_map(|n: Seq<char>| spec_parse_name(n))
}

/// `idx` places each element of `a` in `b` at strictly increasing
/// positions: `a` is `b` with zero or more elements dropped, order kept
/// and nothing duplicated.
pub open spec fn subsequence_witness<A>(a: Seq<A>, b: Seq<A>, idx: Seq<int>) -> bool {
    &&& idx.len() == a.len()
    &&& (forall|k: int| 0 <= k < idx.len() ==> 0 <= #[trigger] idx[k] < b.len())
    &&& (forall|k: int| 0 <= k < idx.len() - 1 ==> #[trigger] idx[k] < idx[k + 1])
    &&& (forall|k: int| 0 <= k < idx.len() ==> a[k] == b[#[trigger] idx[k]])
}

/// `a` occurs inside `b`, in order.
pub open spec fn subsequence_of<A>(a: Seq<A>, b: Seq<A>) -> bool {
    exists|idx: Seq<int>| #[trigger] subsequence_witness(a, b, idx)
}

impl Db {
    /// A store over the given directory. The caller creates the directory
    /// if it is absent.
    pub fn new(folder: String) -> (r: Db)
        ensures
            r.folder == folder,
    {
        Db { folder }
    }

    /// The path guard, applied to every externally supplied key before it
    /// is joined to the storage directory.
    pub fn path_is_valid(path: &str) -> (r: bool)
        ensures
            r == is_valid_key(path@),
    {
        crate::utils::path_is_valid(path)
    }

    /// The pure step of `add`: the file name and the full file content for
    /// one record, ready to be written as a single file.
    pub fn plan_add(file: &RequestFile, meta: &str, body: &str) -> (r: (String, String))
        requires
            file.time.wf(),
        ensures
            r.0@ == spec_name(file@),
            r.1@ == spec_stored_file(file@.path, meta@, body@),
    {
        let name = file.file_name();
        let mut content = String::new();
        if let Some(p) = &file.path {
            content.append("uri: ");
            content.append(p.as_str());
            push_char(&mut content, '\n');
            proof {
                reveal_strlit("uri: ");
                assert(content@ =~= uri_line(file@.path));
            }
        }
        content.append(meta);
        let n = body.unicode_len();
        if n > 0 {
            content.append("body: |\n  ");
            proof {
                reveal_strlit("body: |\n  ");
                assert("body: |\n  "@ =~= body_marker());
            }
            let ghost base = content@;
            let mut i: usize = 0;
            proof {
                assert(indent_core(body@.take(0)) =~= Seq::<char>::empty());
            }
            while i < n
                invariant
                    0 <= i <= n,
                    n == body@.len(),
                    content@ == base + indent_core(body@.take(i as int)),
                decreases n - i,
            {
                proof {
                    assert(body@.take(i + 1).drop_last() =~= body@.take(i as int));
                    assert(body@.take(i + 1).last() == body@[i as int]);
                }
                let c = body.get_char(i);
                if c == '\n' {
                    push_char(&mut content, '\n');
                    push_char(&mut content, ' ');
                    push_char(&mut content, ' ');
                } else {
                    push_char(&mut content, c);
                }
                i = i + 1;
            }
            proof {
                assert(body@.take(n as int) =~= body@);
            }
        }
        proof {
            assert(content@ =~= spec_stored_file(file@.path, meta@, body@));
        }
        (name, content)
    }

    /// The pure step of `all`: parses every directory entry name, keeping
    /// the ones this store's codec produced.
    pub fn collect_records(names: &Vec<String>) -> (r: Vec<RequestFile>)
        ensures
            r@.map_values(|f: RequestFile| f@) == records_of(crate::info::strs(names@)),
            forall|i: int| 0 <= i < r@.len() ==> (#[trigger] r@[i]).time.wf(),
    {
        let ghost ns = crate::info::strs(names@);
        let ghost f = |n: Seq<char>| spec_parse_name(n);
        let mut out: Vec<RequestFile> = Vec::new();
        let n = names.len();
        let mut i: usize = 0;
        proof {
            assert(ns.take(0).filter_map(f) =~= Seq::<Record>::empty());
            assert(out@.map_values(|x: RequestFile| x@) =~= Seq::<Record>::empty());
        }
        while i < n
            invariant
                0 <= i <= n,
                n == names@.len(),
                ns == crate::info::strs(names@),
                f == (|n2: Seq<char>| spec_parse_name(n2)),
                out@.map_values(|x: RequestFile| x@) == ns.take(i as int).filter_map(f),
                forall|k: int| 0 <= k < out@.len() ==> (#[trigger] out@[k]).time.wf(),
            decreases n - i,
        {
            proof {
                ns.lemma_filter_map_take_succ(f, i as int);
                assert(ns[i as int] == names@[i as int]@);
            }
            match RequestFile::parse_name(names[i].as_str()) {
                Ok(file) => {
                    let ghost prev = out@;
                    out.push(file);
                    proof {
                        assert(out@.map_values(|x: RequestFile| x@) =~= prev.map_values(
                            |x: RequestFile| x@,
                        ).push(file@));
                        assert(ns.take(i + 1).filter_map(f) =~= ns.take(i as int).filter_map(f)
                            + seq![file@]);
                    }
                },
                Err(_) => {
                    proof {
                        assert(ns.take(i + 1).filter_map(f) =~= ns.take(i as int).filter_map(f));
                    }
                },
            }
            i = i + 1;
        }
        proof {
            assert(ns.take(n as int) =~= ns);
        }
        out
    }

    /// Drops records whose wall-clock time does not name exactly one
    /// instant in this machine's local zone: the listing treats such an
    /// entry as it treats an unparseable name. The zone's answer depends
    /// on the machine, so what is pinned is that the result is the given
    /// records with zero or more dropped: a subsequence, in the order
    /// given, with nothing duplicated.
    pub fn keep_zone_valid(files: Vec<RequestFile>) -> (r: Vec<RequestFile>)
        requires
            forall|i: int| 0 <= i < files@.len() ==> (#[trigger] files@[i]).time.wf(),
        ensures
            r@.len() <= files@.len(),
            subsequence_of(r@, files@),
            forall|i: int| 0 <= i < r@.len() ==> (#[trigger] r@[i]).time.wf(),
    {
        let ghost orig = files@;
        let mut rem = files;
        let mut out: Vec<RequestFile> = Vec::new();
        let ghost gi: int = 0;
        let ghost idx: Seq<int> = Seq::empty();
        proof {
            assert(rem@ =~= orig.skip(0));
        }
        while rem.len() > 0
            invariant
                0 <= gi <= orig.len(),
                rem@ == orig.skip(gi),
                out@.len() <= gi,
                forall|i: int| 0 <= i < orig.len() ==> (#[trigger] orig[i]).time.wf(),
                subsequence_witness(out@, orig, idx),
                forall|k: int| 0 <= k < idx.len() ==> #[trigger] idx[k] < gi,
                forall|i: int| 0 <= i < out@.len() ==> (#[trigger] out@[i]).time.wf(),
            decreases rem@.len(),
        {
            let ghost rem_pre = rem@;
            let file = rem.remove(0);
            proof {
                assert(rem_pre[0] == orig[gi]);
                assert(rem@ =~= orig.skip(gi + 1));
            }
            if crate::timestamp::local_zone_single(&file.time) {
                let ghost out_pre = out@;
                out.push(file);
                proof {
                    let idx_pre = idx;
                    idx = idx.push(gi);
                    assert(out@.last() == orig[gi]);
                    assert forall|k: int| 0 <= k < idx.len() implies 0 <= #[trigger] idx[k]
                        < orig.len() by {
                        if k < idx_pre.len() {
                            assert(idx[k] == idx_pre[k]);
                        } else {
                            assert(idx[k] == gi);
                        }
                    }
                    assert forall|k: int| 0 <= k < idx.len() - 1 implies #[trigger] idx[k] < idx[k
                        + 1] by {
                        if k + 1 < idx_pre.len() {
                            assert(idx[k] == idx_pre[k] && idx[k + 1] == idx_pre[k + 1]);
                        } else {
                            assert(idx[k] == idx_pre[k] && idx[k + 1] == gi);
                            assert(idx_pre[k] < gi);
                        }
                    }
                    assert forall|k: int| 0 <= k < idx.len() implies out@[k] == orig[(
                    #[trigger] idx[k])] by {
                        if k < idx_pre.len() {
                            assert(idx[k] == idx_pre[k]);
                            assert(out@[k] == out_pre[k]);
                            assert(out_pre[k] == orig[idx_pre[k]]);
                        } else {
                            assert(idx[k] == gi);
                            assert(out@[k] == orig[gi]);
                        }
                    }
                    assert(subsequence_witness(out@, orig, idx));
                    assert forall|k: int| 0 <= k < idx.len() implies #[trigger] idx[k] <= gi by {
                        if k < idx_pre.len() {
                            assert(idx[k] == idx_pre[k]);
                        } else {
                            assert(idx[k] == gi);
                        }
                    }
                }
            }
            proof {
                gi = gi + 1;
            }
        }
        proof {
            assert(subsequence_witness(out@, orig, idx));
        }
        out
    }

    /// Orders records newest-first; the listing the dashboard shows. The
    /// result is a reordering of the input: nothing is added or dropped.
    pub fn sort_by_time_desc(files: Vec<RequestFile>) -> (r: Vec<RequestFile>)
        requires
            forall|i: int| 0 <= i < files@.len() ==> (#[trigger] files@[i]).time.wf(),
        ensures
            r@.to_multiset() == files@.to_multiset(),
            r@.len() == files@.len(),
            sorted_desc(r@),
            forall|i: int| 0 <= i < r@.len() ==> (#[trigger] r@[i]).time.wf(),
    {
        let ghost orig = files@;
        let mut rem = files;
        let mut out: Vec<RequestFile> = Vec::new();
        let ghost gi: int = 0;
        proof {
            assert(orig.take(0).to_multiset() =~= Multiset::empty()) by {
                orig.take(0).to_multiset_ensures();
                assert(orig.take(0) =~= Seq::<RequestFile>::empty());
                Seq::<RequestFile>::empty().to_multiset_ensures();
            }
            assert(out@.to_multiset() =~= Multiset::empty()) by {
                out@.to_multiset_ensures();
            }
            assert(rem@ =~= orig.skip(0));
        }
        while rem.len() > 0
            invariant
                0 <= gi <= orig.len(),
                rem@ == orig.skip(gi),
                out@.len() == gi,
                out@.to_multiset() == orig.take(gi).to_multiset(),
                sorted_desc(out@),
                forall|i: int| 0 <= i < orig.len() ==> (#[trigger] orig[i]).time.wf(),
                forall|i: int| 0 <= i < out@.len() ==> (#[trigger] out@[i]).time.wf(),
            decreases rem@.len(),
        {
            let ghost rem_pre = rem@;
            let file = rem.remove(0);
            proof {
                assert(rem_pre[0] == orig[gi]);
                assert(rem@ =~= orig.skip(gi + 1));
                assert(file.time.wf());
            }
            let fk = file.time.key();
            let m = out.len();
            let mut pos: usize = 0;
            while pos < m && out[pos].time.key() >= fk
                invariant
                    0 <= pos <= m,
                    m == out@.len(),
                    fk == file.time.order_key(),
                    file.time.wf(),
                    forall|k: int| 0 <= k < pos ==> (#[trigger] out@[k]).time.order_key() >= fk,
                    forall|i: int| 0 <= i < out@.len() ==> (#[trigger] out@[i]).time.wf(),
                    sorted_desc(out@),
                decreases m - pos,
            {
                pos = pos + 1;
            }
            let ghost out_pre = out@;
            out.insert(pos, file);
            proof {
                vstd::seq_lib::to_multiset_insert(out_pre, pos as int, file);
                assert forall|i: int, j: int| 0 <= i < j < out@.len() implies (
                #[trigger] out@[i]).time.order_key() >= (#[trigger] out@[j]).time.order_key() by {
                    if i < pos && j < pos {
                        assert(out@[i] == out_pre[i] && out@[j] == out_pre[j]);
                    } else if i < pos && j == pos {
                        assert(out@[i] == out_pre[i]);
                    } else if i < pos && j > pos {
                        assert(out@[i] == out_pre[i] && out@[j] == out_pre[j - 1]);
                        assert(out_pre[pos as int].time.order_key() < fk);
                    } else if i == pos {
                        assert(out@[j] == out_pre[j - 1]);
                        assert(out_pre[pos as int].time.order_key() < fk);
                        assert(j - 1 >= pos);
                        if j - 1 > pos {
                            assert(out_pre[pos as int].time.order_key() >= out_pre[j
                                - 1].time.order_key());
                        }
                    } else {
                        assert(out@[i] == out_pre[i - 1] && out@[j] == out_pre[j - 1]);
                    }
                }
                assert(out@.to_multiset() =~= orig.take(gi + 1).to_multiset()) by {
                    Seq::lemma_take_succ(orig, gi);
                    assert(orig.take(gi + 1) =~= orig.take(gi).push(orig[gi]));
                    orig.take(gi).to_multiset_ensures();
                }
            }
            proof {
                gi = gi + 1;
            }
        }
        proof {
            assert(orig.skip(gi).len() == 0);
            assert(gi == orig.len());
            assert(orig.take(gi) =~= orig);
        }
        out
    }

    /// Turns an opaque dashboard key back into a storage file name: the
    /// token must decode, and what it decodes to must pass the path guard.
    /// A forged or malformed key comes back as nothing, indistinguishable
    /// from a missing record.
    pub fn resolve_key(token: &str) -> (r: Option<String>)
        ensures
            match r {
                Some(name) => b64_of(name@) == token@ && is_valid_key(name@),
                None => (forall|n: Seq<char>| token@ != b64_of(n)) || (exists|n: Seq<char>|
                    b64_of(n) == token@ && !is_valid_key(n)),
            },
    {
        match RequestFile::decode_name(token) {
            None => None,
            Some(name) => {
                if crate::utils::path_is_valid(name.as_str()) {
                    Some(name)
                } else {
                    None
                }
            },
        }
    }
}

/// Indentation distributes over concatenation.
proof fn lemma_indent_concat(a: Seq<char>, b: Seq<char>)
    ensures
        indent_core(a + b) == indent_core(a) + indent_core(b),
    decreases b.len(),
{
    if b.len() == 0 {
        assert(a + b =~= a);
    } else {
        lemma_indent_concat(a, b.drop_last());
        assert((a + b).drop_last() =~= a + b.drop_last());
        assert((a + b).last() == b.last());
    }
}

/// A text without line breaks is indented unchanged.
proof fn lemma_indent_plain(s: Seq<char>)
    requires
        forall|k: int| 0 <= k < s.len() ==> s[k] != '\n',
    ensures
        indent_core(s) == s,
    decreases s.len(),
{
    if s.len() > 0 {
        lemma_indent_plain(s.drop_last());
        assert(indent_core(s) =~= s);
    }
}

/// The lines of an indented body are the body's lines, each behind the
/// two-space indent.
proof fn lemma_indent_lines(body: Seq<char>)
    ensures
        crate::sections::split_lines(seq![' ', ' '] + indent_core(body)) == crate::sections::split_lines(
            body,
        ).map_values(|l: Seq<char>| seq![' ', ' '] + l),
    decreases body.len(),
{
    let pad = seq![' ', ' '];
    let add2 = |l: Seq<char>| seq![' ', ' '] + l;
    match crate::text::find_first(body, '\n') {
        None => {
            crate::text::lemma_find_from(body, '\n', 0);
            lemma_indent_plain(body);
            assert(forall|k: int| 0 <= k < (pad + body).len() ==> (pad + body)[k] != '\n');
            crate::text::lemma_find_from_none(pad + body, '\n', 0);
            assert(crate::sections::split_lines(pad + indent_core(body)) == seq![pad + body]);
            assert(crate::sections::split_lines(body).map_values(add2) =~= seq![add2(body)]);
        },
        Some(i) => {
            crate::text::lemma_find_from(body, '\n', 0);
            let h = body.subrange(0, i);
            let t = body.subrange(i + 1, body.len() as int);
            lemma_indent_lines(t);
            assert(body =~= h + seq!['\n'] + t);
            assert(indent_core(body) == indent_core(h + seq!['\n']) + indent_core(t)) by {
                lemma_indent_concat(h + seq!['\n'], t);
            }
            lemma_indent_concat(h, seq!['\n']);
            lemma_indent_plain(h);
            assert(seq!['\n'].drop_last() =~= Seq::<char>::empty());
            assert(indent_core(Seq::<char>::empty()) == Seq::<char>::empty());
            assert(indent_core(seq!['\n']) == indent_core(seq!['\n'].drop_last()) + seq![
                '\n',
                ' ',
                ' ',
            ]);
            assert(indent_core(seq!['\n']) =~= seq!['\n', ' ', ' ']);
            assert(indent_core(h + seq!['\n']) =~= h + seq!['\n', ' ', ' ']);
            let whole = pad + indent_core(body);
            assert(whole =~= (pad + h) + seq!['\n'] + (pad + indent_core(t)));
            assert(forall|k: int| 0 <= k < 2 + i ==> whole[k] != '\n');
            assert(whole[2 + i] == '\n');
            crate::text::lemma_find_from_unique(whole, '\n', 0, 2 + i);
            assert(whole.subrange(0, 2 + i) =~= pad + h);
            assert(whole.subrange(2 + i + 1, whole.len() as int) =~= pad + indent_core(t));
            assert(crate::sections::split_lines(whole) == seq![pad + h]
                + crate::sections::split_lines(t).map_values(add2));
            assert(crate::sections::split_lines(body) == seq![h] + crate::sections::split_lines(t));
            assert(crate::sections::split_lines(body).map_values(add2) =~= seq![add2(h)]
                + crate::sections::split_lines(t).map_values(add2));
        },
    }
}

/// Lossless embedding: the indented body block written under the marker
/// reads back as exactly the body that was given, whatever it held, as no
/// earlier line of the file opens a section named `body` itself.
pub proof fn lemma_body_roundtrip(path: Option<Seq<char>>, meta: Seq<char>, body: Seq<char>)
    requires
        body.len() > 0,
        uri_line(path).len() + meta.len() > 0 ==> meta.len() > 0 && meta.last() == '\n',
        forall|m: int|
            0 <= m < crate::sections::split_lines(uri_line(path) + meta).len() - 1
                ==> !crate::sections::starts_with_key(
                #[trigger] crate::sections::split_lines(uri_line(path) + meta)[m],
                seq!['b', 'o', 'd', 'y'],
            ),
    ensures
        crate::sections::body_text(spec_stored_file(path, meta, body)) == Some(body),
{
    let pad = seq![' ', ' '];
    let add2 = |l: Seq<char>| seq![' ', ' '] + l;
    let key = seq!['b', 'o', 'd', 'y'];
    let prefix = uri_line(path) + meta;
    let marker_line = seq!['b', 'o', 'd', 'y', ':', ' ', '|'];
    let stored = spec_stored_file(path, meta, body);
    let blines = crate::sections::split_lines(body).map_values(add2);
    // The body block's own lines: the marker, then the indented body.
    assert(body_block(body) =~= marker_line + seq!['\n'] + (pad + indent_core(body)));
    let bb = body_block(body);
    assert(crate::sections::split_lines(bb) == seq![marker_line] + blines) by {
        assert(forall|k: int| 0 <= k < 7 ==> bb[k] != '\n');
        assert(bb[7] == '\n');
        crate::text::lemma_find_from_unique(bb, '\n', 0, 7);
        assert(bb.subrange(0, 7) =~= marker_line);
        assert(bb.subrange(8, bb.len() as int) =~= pad + indent_core(body));
        lemma_indent_lines(body);
    }
    let plines = crate::sections::split_lines(prefix);
    let lines = crate::sections::split_lines(stored);
    if prefix.len() == 0 {
        assert(stored =~= bb);
        assert(lines == seq![marker_line] + blines);
        assert(plines.len() - 1 == 0) by {
            crate::text::lemma_find_from_none(prefix, '\n', 0);
        }
        lemma_stored_sections(lines, Seq::<Seq<char>>::empty(), blines, body, marker_line);
    } else {
        assert(stored =~= prefix + bb);
        crate::sections::lemma_split_concat(prefix, bb);
        assert(lines == plines.drop_last() + (seq![marker_line] + blines));
        assert(lines =~= (plines.drop_last() + seq![marker_line]) + blines);
        assert(forall|m: int|
            0 <= m < plines.drop_last().len() ==> !crate::sections::starts_with_key(
                #[trigger] plines.drop_last()[m],
                key,
            )) by {
            assert(forall|m: int| 0 <= m < plines.len() - 1 ==> plines.drop_last()[m] == plines[m]);
        }
        lemma_stored_sections(lines, plines.drop_last(), blines, body, marker_line);
    }
}

/// The embedding law on an actual structured file: with metadata as the
/// serializer hands it back — newline-terminated, no line of it opening a
/// `body` section — and a request target free of line breaks, a non-empty
/// body reads back exactly from the planned file content.
pub proof fn lemma_structured_body_roundtrip(
    path: Option<Seq<char>>,
    meta: Seq<char>,
    body: Seq<char>,
)
    requires
        body.len() > 0,
        meta.len() > 0,
        meta.last() == '\n',
        forall|m: int|
            0 <= m < crate::sections::split_lines(meta).len()
                ==> !crate::sections::starts_with_key(
                #[trigger] crate::sections::split_lines(meta)[m],
                seq!['b', 'o', 'd', 'y'],
            ),
        match path {
            Some(p) => forall|k: int| 0 <= k < p.len() ==> p[k] != '\n',
            None => true,
        },
    ensures
        crate::sections::body_text(spec_stored_file(path, meta, body)) == Some(body),
{
    let key = seq!['b', 'o', 'd', 'y'];
    let prefix = uri_line(path) + meta;
    match path {
        None => {
            assert(prefix =~= meta);
            assert forall|m: int|
                0 <= m < crate::sections::split_lines(prefix).len() - 1 implies !crate::sections::starts_with_key(
                #[trigger] crate::sections::split_lines(prefix)[m],
                key,
            ) by {
                assert(crate::sections::split_lines(prefix)[m] == crate::sections::split_lines(
                    meta,
                )[m]);
            }
        },
        Some(p) => {
            let ul = uri_line(path);
            let head = seq!['u', 'r', 'i', ':', ' '] + p;
            assert(ul =~= head + seq!['\n']);
            assert(ul.len() > 0 && ul.last() == '\n');
            crate::sections::lemma_split_concat(ul, meta);
            let e: Seq<char> = Seq::empty();
            assert(forall|k: int| 0 <= k < ul.len() - 1 ==> ul[k] != '\n');
            assert(ul[ul.len() - 1] == '\n');
            crate::text::lemma_find_from_unique(ul, '\n', 0, ul.len() - 1);
            assert(crate::text::find_first(ul, '\n') == Some(ul.len() - 1));
            assert(ul.subrange(0, ul.len() - 1) =~= head);
            assert(ul.subrange(ul.len() - 1 + 1, ul.len() as int) =~= e);
            crate::text::lemma_find_from_none(e, '\n', 0);
            assert(crate::sections::split_lines(e) == seq![e]);
            assert(crate::sections::split_lines(ul) == seq![ul.subrange(0, ul.len() - 1)]
                + crate::sections::split_lines(ul.subrange(ul.len() - 1 + 1, ul.len() as int)));
            assert(crate::sections::split_lines(ul) =~= seq![head, e]);
            assert(crate::sections::split_lines(ul).drop_last() =~= seq![head]);
            assert(crate::sections::split_lines(prefix) == seq![head]
                + crate::sections::split_lines(meta));
            assert(!crate::sections::starts_with_key(head, key)) by {
                if crate::sections::starts_with_key(head, key) {
                    assert(head.subrange(0, 4)[0] == 'u');
                    assert(key[0] == 'b');
                }
            }
            assert forall|m: int|
                0 <= m < crate::sections::split_lines(prefix).len() - 1 implies !crate::sections::starts_with_key(
                #[trigger] crate::sections::split_lines(prefix)[m],
                key,
            ) by {
                if m >= 1 {
                    assert(crate::sections::split_lines(prefix)[m]
                        == crate::sections::split_lines(meta)[m - 1]);
                } else {
                    assert(crate::sections::split_lines(prefix)[0] == head);
                }
            }
        },
    }
    lemma_body_roundtrip(path, meta, body);
}

/// The common step: in `before + [marker] + indented lines`, the body
/// search lands on the marker and the de-indented join gives the body.
proof fn lemma_stored_sections(
    lines: Seq<Seq<char>>,
    before: Seq<Seq<char>>,
    blines: Seq<Seq<char>>,
    body: Seq<char>,
    marker_line: Seq<char>,
)
    requires
        marker_line == seq!['b', 'o', 'd', 'y', ':', ' ', '|'],
        lines =~= before + seq![marker_line] + blines,
        blines == crate::sections::split_lines(body).map_values(
            |l: Seq<char>| seq![' ', ' '] + l,
        ),
        forall|m: int|
            0 <= m < before.len() ==> !crate::sections::starts_with_key(
                #[trigger] before[m],
                seq!['b', 'o', 'd', 'y'],
            ),
    ensures
        crate::sections::find_section(lines, seq!['b', 'o', 'd', 'y'], 0) == Some(
            before.len() as int,
        ),
        crate::sections::section_end(lines, before.len() as int) == lines.len(),
        crate::sections::join_lines(
            lines.subrange(before.len() + 1 as int, lines.len() as int).map_values(
                |l: Seq<char>| crate::sections::strip_indent(l),
            ),
        ) == body,
{
    let key = seq!['b', 'o', 'd', 'y'];
    let j = before.len() as int;
    assert(lines[j] == marker_line);
    assert(crate::sections::is_top(marker_line));
    assert(crate::sections::starts_with_key(marker_line, key)) by {
        assert(marker_line.subrange(0, 4) =~= key);
    }
    assert(forall|m: int| 0 <= m < j ==> lines[m] == before[m]);
    crate::sections::lemma_find_section_unique(lines, key, 0, j);
    assert(forall|m: int| j < m < lines.len() ==> lines[m] == blines[m - j - 1]);
    assert(forall|m: int| j < m < lines.len() ==> !crate::sections::is_top(#[trigger] lines[m]))
        by {
        assert(forall|m: int|
            j < m < lines.len() ==> (#[trigger] lines[m])[0] == ' ' && lines[m].len() >= 2);
    }
    crate::sections::lemma_section_end_all(lines, j);
    assert(lines.subrange(j + 1, lines.len() as int) =~= blines);
    let stripped = blines.map_values(|l: Seq<char>| crate::sections::strip_indent(l));
    assert(stripped =~= crate::sections::split_lines(body)) by {
        assert(forall|m: int|
            0 <= m < blines.len() ==> crate::sections::strip_indent(#[trigger] blines[m])
                =~= crate::sections::split_lines(body)[m]);
    }
    crate::sections::lemma_join_split(body);
}

/// Fallback law: a record whose metadata fell back to the debug rendering
/// still has a name the codec round-trips — with the extension marking the
/// fallback — and its stored file is non-empty.
pub proof fn lemma_fallback_on_serialize_failure(v: Record, fallback: Seq<char>, body: Seq<char>)
    requires
        v.wf(),
        !v.is_yaml,
        fallback.len() > 0,
    ensures
        spec_parse_name(spec_name(v)) == Some(v),
        spec_stored_file(v.path, fallback, body).len() > 0,
{
    crate::request::lemma_name_roundtrip(v);
}

} // verus!
