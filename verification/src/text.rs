//! Small operations on strings, stated over their characters.

use vstd::prelude::*;

use vstd::utf8::encode_utf8;
use vstd::utf8::encode_utf8_decode_utf8;

verus! {

/// Tells whether two strings hold the same characters.
pub fn str_eq(a: &str, b: &str) -> (res: bool)
    ensures
        res == (a@ == b@),
{
    let x = a.as_bytes();
    let y = b.as_bytes();
    proof {
        encode_utf8_decode_utf8(a@);
        encode_utf8_decode_utf8(b@);
    }
    if x.len() != y.len() {
        return false;
    }
    let mut i: usize = 0;
    while i < x.len()
        invariant
            i <= x.len(),
            x.len() == y.len(),
            x@ == encode_utf8(a@),
            y@ == encode_utf8(b@),
            forall|k: int| 0 <= k < i ==> x@[k] == y@[k],
        decreases x.len() - i,
    {
        if x[i] != y[i] {
            return false;
        }
        i += 1;
    }
    assert(x@ =~= y@);
    true
}

/// Tells whether the character `c` occurs in `s`.
pub fn contains_char(s: &str, c: char) -> (res: bool)
    ensures
        res == s@.contains(c),
{
    let n = s.unicode_len();
    let mut i: usize = 0;
    while i < n
        invariant
            i <= n,
            n == s@.len(),
            forall|k: int| 0 <= k < i ==> s@[k] != c,
        decreases n - i,
    {
        if s.get_char(i) == c {
            return true;
        }
        i += 1;
    }
    false
}

/// Where the last segment of a dotted path starts: behind its last `.`, or
/// at 0 where it has none.
pub open spec fn segment_start(path: Seq<char>) -> int
    decreases path.len(),
{
    if path.len() == 0 {
        0
    } else if path.last() == '.' {
        path.len() as int
    } else {
        segment_start(path.drop_last())
    }
}

/// The last segment of a dotted path: what follows its last `.`, or all of it.
pub open spec fn last_segment(path: Seq<char>) -> Seq<char> {
    path.subrange(segment_start(path), path.len() as int)
}

/// The start of the last segment is a place in the path, no `.` lies behind
/// it, and a `.` stands just before it unless it is the start of the path.
pub proof fn lemma_segment_start(path: Seq<char>)
    ensures
        0 <= segment_start(path) <= path.len(),
        !last_segment(path).contains('.'),
        segment_start(path) > 0 ==> path[segment_start(path) - 1] == '.',
    decreases path.len(),
{
    if path.len() > 0 && path.last() != '.' {
        let front = path.drop_last();
        lemma_segment_start(front);
        let k = segment_start(front);
        assert forall|i: int| 0 <= i < last_segment(path).len() implies last_segment(path)[i]
            != '.' by {
            if i < last_segment(front).len() {
                assert(last_segment(front)[i] == front[k + i]);
            }
        }
    }
}

/// Returns the last segment of a dotted path: the part behind its last
/// `.`, which holds no `.` itself.
pub fn last_path_segment(path: &str) -> (res: String)
    ensures
        res@ == last_segment(path@),
        !res@.contains('.'),
        segment_start(path@) > 0 ==> path@[segment_start(path@) - 1] == '.',
{
    proof {
        lemma_segment_start(path@);
    }
    let n = path.unicode_len();
    let mut i: usize = n;
    assert(path@.subrange(0, n as int) =~= path@);
    while i > 0 && path.get_char(i - 1) != '.'
        invariant
            i <= n,
            n == path@.len(),
            segment_start(path@) == if i == 0 {
                0
            } else {
                segment_start(path@.subrange(0, i as int))
            },
        decreases i,
    {
        proof {
            let p = path@.subrange(0, i as int);
            assert(p.drop_last() =~= path@.subrange(0, i - 1));
            if i == 1 {
                assert(segment_start(p.drop_last()) == 0);
            }
        }
        i -= 1;
    }
    proof {
        if i > 0 {
            let p = path@.subrange(0, i as int);
        }
    }
    path.substring_char(i, n).to_owned()
}

} // verus!
