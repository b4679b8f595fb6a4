//! The path guard. A client-supplied storage key is joined to the storage
//! directory only after this check: the key must decompose into exactly one
//! normal path component, which rules out absolute paths, `.` and `..`
//! traversal, and multi-segment paths.

use crate::text::{find_first, str_eq};
use vstd::prelude::*;
use vstd::string::StrSliceExecFns;

verus! {

/// The `/`-separated segments of a path, empty segments dropped (repeated
/// or trailing separators do not create components).
pub open spec fn split_slash(s: Seq<char>) -> Seq<Seq<char>>
    decreases s.len(),
{
    match find_first(s, '/') {
        None => if s.len() == 0 {
            Seq::empty()
        } else {
            seq![s]
        },
        Some(i) => if 0 <= i < s.len() {
            let head = s.subrange(0, i);
            let rest = split_slash(s.subrange(i + 1, s.len() as int));
            if head.len() == 0 {
                rest
            } else {
                seq![head] + rest
            }
        } else {
            Seq::empty()
        },
    }
}

/// A valid storage key: relative, its first segment a plain name (not `.`
/// or `..`), and nothing after it but redundant `.` segments, so that the
/// path holds exactly one normal component.
pub open spec fn is_valid_key(s: Seq<char>) -> bool {
    let segs = split_slash(s);
    &&& s.len() > 0
    &&& s[0] != '/'
    &&& segs.len() >= 1
    &&& segs[0] != seq!['.']
    &&& segs[0] != seq!['.', '.']
    &&& forall|i: int| 1 <= i < segs.len() ==> (#[trigger] segs[i]) == seq!['.']
}

/// Checks that every segment of `s` is the redundant `.` segment.
fn all_dot_segments(s: &str) -> (r: bool)
    ensures
        r == (forall|i: int|
            0 <= i < split_slash(s@).len() ==> (#[trigger] split_slash(s@)[i]) == seq!['.']),
    decreases s@.len(),
{
    let n = s.unicode_len();
    match crate::text::find_char(s, '/') {
        None => {
            if n == 0 {
                true
            } else {
                let ok = str_eq(s, ".");
                proof {
                    reveal_strlit(".");
                    assert("."@ =~= seq!['.']);
                    assert(split_slash(s@) == seq![s@]);
                    assert(split_slash(s@)[0] == s@);
                }
                ok
            }
        },
        Some(i) => {
            let head = s.substring_char(0, i);
            let rest = s.substring_char(i + 1, n);
            let head_ok = if head.unicode_len() == 0 {
                true
            } else {
                str_eq(head, ".")
            };
            proof {
                reveal_strlit(".");
                assert("."@ =~= seq!['.']);
            }
            if !head_ok {
                proof {
                    let segs = split_slash(s@);
                    if head@.len() > 0 {
                        assert(segs[0] == head@);
                    }
                }
                return false;
            }
            let rest_ok = all_dot_segments(rest);
            proof {
                let segs = split_slash(s@);
                let rsegs = split_slash(rest@);
                if head@.len() == 0 {
                    assert(segs == rsegs);
                } else {
                    assert(segs == seq![head@] + rsegs);
                    assert(head@ == seq!['.']);
                    assert(forall|j: int| 0 <= j < rsegs.len() ==> segs[j + 1] == (#[trigger] rsegs[j]));
                    assert(forall|j: int| 1 <= j < segs.len() ==> (#[trigger] segs[j]) == rsegs[j - 1]);
                }
                if !rest_ok {
                    let j = choose|j: int|
                        0 <= j < rsegs.len() && (#[trigger] rsegs[j]) != seq!['.'];
                    if head@.len() == 0 {
                        assert(segs[j] != seq!['.']);
                    } else {
                        assert(segs[j + 1] != seq!['.']);
                    }
                }
            }
            rest_ok
        },
    }
}

/// The path guard: a storage key is accepted exactly when it decomposes
/// into one normal component. Every externally supplied identifier passes
/// through this before it is joined to the storage directory.
pub fn path_is_valid(path: &str) -> (r: bool)
    ensures
        r == is_valid_key(path@),
{
    let n = path.unicode_len();
    if n == 0 {
        return false;
    }
    if path.get_char(0) == '/' {
        return false;
    }
    proof {
        reveal_strlit(".");
        reveal_strlit("..");
        assert("."@ =~= seq!['.']);
        assert(".."@ =~= seq!['.', '.']);
    }
    match crate::text::find_char(path, '/') {
        None => {
            proof {
                assert(split_slash(path@) == seq![path@]);
                assert(split_slash(path@)[0] == path@);
            }
            !(str_eq(path, ".") || str_eq(path, ".."))
        },
        Some(i) => {
            let head = path.substring_char(0, i);
            let rest = path.substring_char(i + 1, n);
            proof {
                assert(head@.len() > 0);
                assert(split_slash(path@) == seq![head@] + split_slash(rest@));
            }
            let head_ok = !(str_eq(head, ".") || str_eq(head, ".."));
            if !head_ok {
                return false;
            }
            let tail_ok = all_dot_segments(rest);
            proof {
                let segs = split_slash(path@);
                let rsegs = split_slash(rest@);
                assert(segs[0] == head@);
                assert(forall|j: int| 0 <= j < rsegs.len() ==> segs[j + 1] == (#[trigger] rsegs[j]));
                if tail_ok {
                    assert(forall|i2: int|
                        1 <= i2 < segs.len() ==> (#[trigger] segs[i2]) == rsegs[i2 - 1]);
                } else {
                    let j = choose|j: int|
                        0 <= j < rsegs.len() && (#[trigger] rsegs[j]) != seq!['.'];
                    assert(segs[j + 1] != seq!['.']);
                }
            }
            tail_ok
        },
    }
}

/// Key safety: a key holding a `..` segment, an absolute key, or a key
/// with a second real segment is rejected; a single plain segment is
/// accepted.
pub proof fn lemma_key_safety(s: Seq<char>)
    ensures
        (exists|i: int|
            0 <= i < split_slash(s).len() && (#[trigger] split_slash(s)[i]) == seq!['.', '.'])
            ==> !is_valid_key(s),
        s.len() > 0 && s[0] == '/' ==> !is_valid_key(s),
        s.len() == 0 ==> !is_valid_key(s),
        (exists|i: int, j: int|
            0 <= i < j < split_slash(s).len() && (#[trigger] split_slash(s)[i]) != seq!['.']
                && (#[trigger] split_slash(s)[j]) != seq!['.']) ==> !is_valid_key(s),
        (s.len() > 0 && (forall|i: int| 0 <= i < s.len() ==> s[i] != '/') && s != seq!['.'] && s
            != seq!['.', '.']) ==> is_valid_key(s),
{
    if exists|i: int|
        0 <= i < split_slash(s).len() && #[trigger] split_slash(s)[i] == seq!['.', '.'] {
        let i = choose|i: int|
            0 <= i < split_slash(s).len() && (#[trigger] split_slash(s)[i]) == seq!['.', '.'];
        if is_valid_key(s) {
            assert(i >= 1);
            assert(split_slash(s)[i] == seq!['.']);
            assert(seq!['.', '.'].len() != seq!['.'].len());
        }
    }
    if exists|i: int, j: int|
        0 <= i < j < split_slash(s).len() && (#[trigger] split_slash(s)[i]) != seq!['.']
            && (#[trigger] split_slash(s)[j]) != seq!['.'] {
        let (i, j) = choose|i: int, j: int|
            0 <= i < j < split_slash(s).len() && (#[trigger] split_slash(s)[i]) != seq!['.']
                && (#[trigger] split_slash(s)[j]) != seq!['.'];
        if is_valid_key(s) {
            assert(j >= 1);
            assert(split_slash(s)[j] == seq!['.']);
        }
    }
    if s.len() > 0 && (forall|i: int| 0 <= i < s.len() ==> s[i] != '/') && s != seq!['.'] && s
        != seq!['.', '.'] {
        crate::text::lemma_find_from_none(s, '/', 0);
        assert(split_slash(s) == seq![s]);
        assert(s[0] != '/');
    }
}

} // verus!
