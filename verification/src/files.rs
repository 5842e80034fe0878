//! The policy filter in front of loading: of a list of dropped paths only the
//! first is considered, and it is accepted only if its extension, compared
//! case-insensitively, is one of jpg, jpeg, png, gif, bmp.
//!
//! Paths are byte strings; a file name is what follows the last `/`, and its
//! extension is what follows the last `.`, absent when there is no dot or
//! when the only dot begins the file name.
use vstd::prelude::*;

verus! {

/// The byte after the last occurrence of `b` in `s`, as an index: -1 when
/// `b` does not occur.
pub open spec fn last_index(s: Seq<u8>, b: u8) -> int
    decreases s.len(),
{
    if s.len() == 0 {
        -1
    } else if s[s.len() - 1] == b {
        s.len() - 1
    } else {
        last_index(s.drop_last(), b)
    }
}

/// The file-name part of a path: everything after the last slash.
pub open spec fn file_name_of(p: Seq<u8>) -> Seq<u8> {
    p.subrange(last_index(p, 47u8) + 1, p.len() as int)
}

/// The extension of a file name: what follows its last dot, absent when
/// there is no dot or the only dot is the leading byte.
pub open spec fn ext_of_name(f: Seq<u8>) -> Option<Seq<u8>> {
    let d = last_index(f, 46u8);
    if d <= 0 {
        None
    } else {
        Some(f.subrange(d + 1, f.len() as int))
    }
}

/// The extension of a path.
pub open spec fn ext_of(p: Seq<u8>) -> Option<Seq<u8>> {
    ext_of_name(file_name_of(p))
}

/// ASCII lowercasing of one byte.
pub open spec fn ascii_lower(b: u8) -> u8 {
    if 65 <= b <= 90 {
        (b + 32) as u8
    } else {
        b
    }
}

/// ASCII lowercasing of a byte string.
pub open spec fn lower_seq(s: Seq<u8>) -> Seq<u8> {
    s.map_values(|b: u8| ascii_lower(b))
}

/// The fixed allow-list, compared after lowercasing: jpg, jpeg, png, gif, bmp.
pub open spec fn allowed_ext(e: Seq<u8>) -> bool {
    ||| e == seq![106u8, 112u8, 103u8]
    ||| e == seq![106u8, 112u8, 101u8, 103u8]
    ||| e == seq![112u8, 110u8, 103u8]
    ||| e == seq![103u8, 105u8, 102u8]
    ||| e == seq![98u8, 109u8, 112u8]
}

/// Whether a dropped path passes the filter: it has an extension and the
/// lowercased extension is on the allow-list.
pub open spec fn path_allowed(p: Seq<u8>) -> bool {
    match ext_of(p) {
        Some(e) => allowed_ext(lower_seq(e)),
        None => false,
    }
}

/// `last_index` is a valid index when not -1, marks `b`, and nothing after
/// it is `b`.
pub proof fn lemma_last_index(s: Seq<u8>, b: u8)
    ensures
        -1 <= last_index(s, b) < s.len(),
        last_index(s, b) >= 0 ==> s[last_index(s, b)] == b,
        forall|j: int| last_index(s, b) < j < s.len() ==> s[j] != b,
    decreases s.len(),
{
    if s.len() == 0 {
    } else if s[s.len() - 1] == b {
    } else {
        lemma_last_index(s.drop_last(), b);
        assert forall|j: int| last_index(s, b) < j < s.len() implies s[j] != b by {
            if j < s.len() - 1 {
                assert(s.drop_last()[j] == s[j]);
            }
        }
    }
}

/// The largest index holding `b`, found by a backward scan.
fn rfind(p: &Vec<u8>, b: u8) -> (r: i64)
    requires
        p@.len() < 0x1000_0000,
    ensures
        r == last_index(p@, b),
    decreases p@.len(),
{
    proof {
        lemma_last_index(p@, b);
        assert(p@.subrange(0, p@.len() as int) =~= p@);
    }
    let mut i: usize = p.len();
    while i > 0
        invariant
            0 <= i <= p@.len(),
            p@.len() < 0x1000_0000,
            last_index(p@, b) == last_index(p@.subrange(0, i as int), b),
        decreases i,
    {
        i = i - 1;
        if p[i] == b {
            proof {
                let pre = p@.subrange(0, i + 1);
                assert(pre[pre.len() - 1] == p@[i as int]);
                assert(last_index(pre, b) == i);
            }
            return i as i64;
        }
        proof {
            let pre = p@.subrange(0, i + 1);
            assert(pre[pre.len() - 1] != b);
            assert(pre.drop_last() =~= p@.subrange(0, i as int));
        }
    }
    proof {
        assert(p@.subrange(0, 0) =~= Seq::<u8>::empty());
    }
    -1
}

/// ASCII lowercasing of one byte.
fn lower_byte(b: u8) -> (r: u8)
    ensures
        r == ascii_lower(b),
{
    if 65 <= b && b <= 90 {
        b + 32
    } else {
        b
    }
}

/// Whether the path's extension, lowercased, is on the allow-list.
pub fn path_has_allowed_ext(p: &Vec<u8>) -> (r: bool)
    requires
        p@.len() < 0x1000_0000,
    ensures
        r == path_allowed(p@),
{
    proof {
        lemma_last_index(p@, 47u8);
    }
    let slash: i64 = rfind(p, 47u8);
    let ghost fname = file_name_of(p@);
    let dot: i64 = rfind(p, 46u8);
    proof {
        lemma_last_index(p@, 46u8);
        lemma_last_index(fname, 46u8);
        // The last dot of the file name sits at the same byte as the last dot
        // of the whole path, when the latter lies after the last slash.
        if dot > slash {
            assert(fname[dot - slash - 1] == p@[dot as int]);
            assert(forall|j: int| dot - slash - 1 < j < fname.len()
                ==> fname[j] == p@[j + slash + 1] && fname[j] != 46u8);
            assert(last_index(fname, 46u8) == dot - slash - 1) by {
                lemma_last_index_unique(fname, 46u8, dot - slash - 1);
            }
        } else {
            assert(forall|j: int| 0 <= j < fname.len() ==> fname[j] == p@[j + slash + 1]);
            assert(forall|j: int| 0 <= j < fname.len() ==> fname[j] != 46u8);
            assert(last_index(fname, 46u8) == -1) by {
                lemma_last_index_none(fname, 46u8);
            }
        }
    }
    if dot <= slash + 1 {
        return false;
    }
    // The extension starts after the last dot.
    let start: usize = (dot + 1) as usize;
    let n: usize = p.len() - start;
    let ghost ext = fname.subrange(last_index(fname, 46u8) + 1, fname.len() as int);
    proof {
        assert(ext =~= p@.subrange(dot + 1, p@.len() as int));
        assert(forall|j: int| 0 <= j < n ==> ext[j] == p@[start + j]);
        assert(lower_seq(ext).len() == n);
    }
    if n == 3 {
        let a: u8 = lower_byte(p[start]);
        let b: u8 = lower_byte(p[start + 1]);
        let c: u8 = lower_byte(p[start + 2]);
        let ok: bool = (a == 106 && b == 112 && c == 103) || (a == 112 && b == 110 && c == 103)
            || (a == 103 && b == 105 && c == 102) || (a == 98 && b == 109 && c == 112);
        proof {
            assert(lower_seq(ext)[0] == ascii_lower(ext[0]));
            assert(lower_seq(ext)[1] == ascii_lower(ext[1]));
            assert(lower_seq(ext)[2] == ascii_lower(ext[2]));
            if ok {
                assert(lower_seq(ext) =~= seq![a, b, c]);
            } else {
                assert(lower_seq(ext) != seq![106u8, 112u8, 103u8] && lower_seq(ext) != seq![
                    112u8,
                    110u8,
                    103u8,
                ] && lower_seq(ext) != seq![103u8, 105u8, 102u8] && lower_seq(ext) != seq![
                    98u8,
                    109u8,
                    112u8,
                ]) by {
                    assert(seq![a, b, c][0] == a && seq![a, b, c][1] == b && seq![a, b, c][2] == c);
                }
            }
        }
        ok
    } else if n == 4 {
        let a: u8 = lower_byte(p[start]);
        let b: u8 = lower_byte(p[start + 1]);
        let c: u8 = lower_byte(p[start + 2]);
        let d: u8 = lower_byte(p[start + 3]);
        let ok: bool = a == 106 && b == 112 && c == 101 && d == 103;
        proof {
            assert(lower_seq(ext)[0] == ascii_lower(ext[0]));
            assert(lower_seq(ext)[1] == ascii_lower(ext[1]));
            assert(lower_seq(ext)[2] == ascii_lower(ext[2]));
            assert(lower_seq(ext)[3] == ascii_lower(ext[3]));
            if ok {
                assert(lower_seq(ext) =~= seq![106u8, 112u8, 101u8, 103u8]);
            }
        }
        ok
    } else {
        proof {
            assert(lower_seq(ext).len() != 3 && lower_seq(ext).len() != 4);
        }
        false
    }
}

/// An index that holds `b` with nothing but non-`b` after it is the last one.
proof fn lemma_last_index_unique(s: Seq<u8>, b: u8, i: int)
    requires
        0 <= i < s.len(),
        s[i] == b,
        forall|j: int| i < j < s.len() ==> s[j] != b,
    ensures
        last_index(s, b) == i,
    decreases s.len(),
{
    if i == s.len() - 1 {
    } else {
        assert(s[s.len() - 1] != b);
        lemma_last_index_unique(s.drop_last(), b, i);
    }
}

/// A string without `b` has no last index of it.
proof fn lemma_last_index_none(s: Seq<u8>, b: u8)
    requires
        forall|j: int| 0 <= j < s.len() ==> s[j] != b,
    ensures
        last_index(s, b) == -1,
    decreases s.len(),
{
    if s.len() > 0 {
        lemma_last_index_none(s.drop_last(), b);
    }
}

/// The filter itself: of the dropped list only the first path is considered,
/// and it comes back only if it passes the extension check.
pub fn accept_drop(files: &Vec<Vec<u8>>) -> (r: Option<Vec<u8>>)
    requires
        files@.len() > 0 ==> files@[0]@.len() < 0x1000_0000,
    ensures
        match r {
            Some(p) => files@.len() > 0 && p@ == files@[0]@ && path_allowed(files@[0]@),
            None => files@.len() == 0 || !path_allowed(files@[0]@),
        },
{
    if files.len() == 0 {
        return None;
    }
    let first: &Vec<u8> = &files[0];
    if path_has_allowed_ext(first) {
        let copy: Vec<u8> = first.clone();
        proof {
            assert(copy@ =~= first@);
        }
        Some(copy)
    } else {
        None
    }
}

/// The file name of a path, for the diagnostics overlay: everything after
/// the last slash.
pub fn file_name(p: &Vec<u8>) -> (r: Vec<u8>)
    requires
        p@.len() < 0x1000_0000,
    ensures
        r@ == file_name_of(p@),
{
    proof {
        lemma_last_index(p@, 47u8);
    }
    let slash: i64 = rfind(p, 47u8);
    let start: usize = (slash + 1) as usize;
    let mut r: Vec<u8> = Vec::new();
    let mut i: usize = start;
    while i < p.len()
        invariant
            start <= i <= p@.len(),
            start == last_index(p@, 47u8) + 1,
            r@ =~= p@.subrange(start as int, i as int),
        decreases p@.len() - i,
    {
        r.push(p[i]);
        i = i + 1;
    }
    proof {
        assert(r@ =~= file_name_of(p@));
    }
    r
}

} // verus!
