//! Request paths and the keys they normalize to.
//!
//! A request path is split on `/`. Empty and `.` segments are dropped, `..`
//! removes the segment before it, and a `..` with nothing before it is a
//! traversal out of the root: such a path has no key. The key of a path is
//! its remaining segments joined by `/`; the root `/` has the empty key.
use vstd::prelude::*;

use crate::text::{chars_of, string_of};

verus! {

pub open spec fn is_dot(seg: Seq<char>) -> bool {
    seg.len() == 1 && seg[0] == '.'
}

pub open spec fn is_dot_dot(seg: Seq<char>) -> bool {
    seg.len() == 2 && seg[0] == '.' && seg[1] == '.'
}

/// Adds one segment to the segments read so far; `None` once the path has
/// left the root.
pub open spec fn push_segment(stack: Option<Seq<Seq<char>>>, seg: Seq<char>) -> Option<
    Seq<Seq<char>>,
> {
    match stack {
        None => None,
        Some(s) => if seg.len() == 0 || is_dot(seg) {
            Some(s)
        } else if is_dot_dot(seg) {
            if s.len() == 0 {
                None
            } else {
                Some(s.drop_last())
            }
        } else {
            Some(s.push(seg))
        },
    }
}

/// Reads `p` left to right: the segments completed so far and the segment
/// still open after the last `/`.
pub open spec fn scan(p: Seq<char>) -> (Option<Seq<Seq<char>>>, Seq<char>)
    decreases p.len(),
{
    if p.len() == 0 {
        (Some(Seq::empty()), Seq::empty())
    } else {
        let (stack, cur) = scan(p.drop_last());
        if p.last() == '/' {
            (push_segment(stack, cur), Seq::empty())
        } else {
            (stack, cur.push(p.last()))
        }
    }
}

/// The normalized segments of a request path, or `None` where it climbs
/// above the root.
pub open spec fn path_segments(p: Seq<char>) -> Option<Seq<Seq<char>>> {
    push_segment(scan(p).0, scan(p).1)
}

/// Segments joined by `/`.
pub open spec fn join(segs: Seq<Seq<char>>) -> Seq<char>
    decreases segs.len(),
{
    if segs.len() == 0 {
        Seq::empty()
    } else if segs.len() == 1 {
        segs[0]
    } else {
        join(segs.drop_last()) + seq!['/'] + segs.last()
    }
}

/// The key that a request path is looked up under.
pub open spec fn request_key(p: Seq<char>) -> Option<Seq<char>> {
    match path_segments(p) {
        Some(segs) => Some(join(segs)),
        None => None,
    }
}

/// A segment that names an entry under its directory: not empty, not `.` or
/// `..`, and without a `/`.
pub open spec fn clean_segment(seg: Seq<char>) -> bool {
    &&& seg.len() > 0
    &&& !is_dot(seg)
    &&& !is_dot_dot(seg)
    &&& forall|i: int| 0 <= i < seg.len() ==> seg[i] != '/'
}

pub open spec fn clean_segments(segs: Seq<Seq<char>>) -> bool {
    forall|i: int| 0 <= i < segs.len() ==> clean_segment(#[trigger] segs[i])
}

proof fn lemma_push_segment_clean(stack: Option<Seq<Seq<char>>>, seg: Seq<char>)
    requires
        stack matches Some(s) ==> clean_segments(s),
        forall|i: int| 0 <= i < seg.len() ==> seg[i] != '/',
    ensures
        push_segment(stack, seg) matches Some(s) ==> clean_segments(s),
{
    if let Some(s) = stack {
        if !(seg.len() == 0 || is_dot(seg)) && !is_dot_dot(seg) {
            let t = s.push(seg);
            assert forall|i: int| 0 <= i < t.len() implies clean_segment(#[trigger] t[i]) by {
                if i < s.len() {
                    assert(t[i] == s[i]);
                }
            }
        } else if is_dot_dot(seg) && s.len() > 0 {
            let t = s.drop_last();
            assert forall|i: int| 0 <= i < t.len() implies clean_segment(#[trigger] t[i]) by {
                assert(t[i] == s[i]);
            }
        }
    }
}

proof fn lemma_scan_clean(p: Seq<char>)
    ensures
        scan(p).0 matches Some(s) ==> clean_segments(s),
        forall|i: int| 0 <= i < scan(p).1.len() ==> scan(p).1[i] != '/',
    decreases p.len(),
{
    if p.len() > 0 {
        lemma_scan_clean(p.drop_last());
        let (stack, cur) = scan(p.drop_last());
        if p.last() == '/' {
            lemma_push_segment_clean(stack, cur);
        } else {
            let c2 = cur.push(p.last());
            assert forall|i: int| 0 <= i < c2.len() implies c2[i] != '/' by {
                if i < cur.len() {
                    assert(c2[i] == cur[i]);
                }
            }
        }
    }
}

/// Normalizing never leaves the root: every segment of a normalized request
/// path names an entry inside its parent directory, so the key is a plain
/// relative path with no `.` or `..` in it.
pub proof fn lemma_segments_stay_under_root(p: Seq<char>)
    ensures
        path_segments(p) matches Some(s) ==> clean_segments(s),
{
    lemma_scan_clean(p);
    lemma_push_segment_clean(scan(p).0, scan(p).1);
}

/// A path that climbs above the root before descending has no key.
pub proof fn lemma_leading_parent_rejected(p: Seq<char>)
    requires
        p.len() >= 3,
        p[0] == '/',
        p[1] == '.',
        p[2] == '.',
        p.len() == 3 || p[3] == '/',
    ensures
        request_key(p) is None,
{
    lemma_scan_prefix_fails(p, if p.len() == 3 { 3 } else { 4 });
}

proof fn lemma_scan_prefix_fails(p: Seq<char>, n: int)
    requires
        n == 3 || n == 4,
        n <= p.len(),
        p[0] == '/',
        p[1] == '.',
        p[2] == '.',
        n == 4 ==> p[3] == '/',
        n == 3 ==> p.len() == 3,
    ensures
        path_segments(p) is None,
{
    let pre1 = p.take(1);
    let pre2 = p.take(2);
    let pre3 = p.take(3);
    assert(pre1.drop_last() =~= Seq::<char>::empty());
    assert(pre2.drop_last() =~= pre1);
    assert(pre3.drop_last() =~= pre2);
    assert(scan(pre1.drop_last()) == (Some(Seq::<Seq<char>>::empty()), Seq::<char>::empty()));
    assert(scan(pre1).0 == Some(Seq::<Seq<char>>::empty()));
    assert(scan(pre1).1 == Seq::<char>::empty());
    assert(scan(pre2).1 =~= seq!['.']);
    assert(scan(pre3).1 =~= seq!['.', '.']);
    if n == 4 {
        let pre4 = p.take(4);
        assert(pre4.drop_last() =~= pre3);
        assert(scan(pre4).0 is None);
        if p.len() == 4 {
            assert(pre4 =~= p);
        }
    } else if p.len() == 3 {
        assert(pre3 =~= p);
    }
    if n == 4 && p.len() > 4 {
        lemma_scan_stays_failed(p, 4);
    }
}

proof fn lemma_scan_stays_failed(p: Seq<char>, n: int)
    requires
        0 <= n <= p.len(),
        scan(p.take(n)).0 is None,
    ensures
        path_segments(p) is None,
    decreases p.len() - n,
{
    if n == p.len() {
        assert(p.take(n) =~= p);
    } else {
        assert(p.take(n + 1).drop_last() =~= p.take(n));
        lemma_scan_stays_failed(p, n + 1);
    }
}

fn is_dot_exec(seg: &Vec<char>) -> (r: bool)
    ensures
        r == is_dot(seg@),
{
    seg.len() == 1 && seg[0] == '.'
}

fn is_dot_dot_exec(seg: &Vec<char>) -> (r: bool)
    ensures
        r == is_dot_dot(seg@),
{
    seg.len() == 2 && seg[0] == '.' && seg[1] == '.'
}

/// Applies `push_segment` to a stack held as a vector, with `failed` for `None`.
fn push_segment_exec(stack: &mut Vec<Vec<char>>, failed: &mut bool, seg: Vec<char>)
    ensures
        push_segment(
            if *old(failed) { None } else { Some(old(stack).deep_view()) },
            seg@,
        ) == if *final(failed) { None::<Seq<Seq<char>>> } else { Some(final(stack).deep_view()) },
{
    if *failed {
        return ;
    }
    if seg.len() == 0 || is_dot_exec(&seg) {
    } else if is_dot_dot_exec(&seg) {
        if stack.len() == 0 {
            *failed = true;
        } else {
            let ghost before = stack.deep_view();
            stack.pop();
            assert(stack.deep_view() =~= before.drop_last());
        }
    } else {
        let ghost before = stack.deep_view();
        assert(seg.deep_view() =~= seg@);
        stack.push(seg);
        assert(stack.deep_view() =~= before.push(seg@));
    }
}

/// The normalized segments of `p`, or `None` where `p` climbs above the root.
pub fn split_request_path(p: &str) -> (r: Option<Vec<Vec<char>>>)
    ensures
        match r {
            Some(v) => path_segments(p@) == Some(v.deep_view()),
            None => path_segments(p@) is None,
        },
{
    let chars = chars_of(p);
    let mut stack: Vec<Vec<char>> = Vec::new();
    let mut failed = false;
    let mut cur: Vec<char> = Vec::new();
    let mut i: usize = 0;
    while i < chars.len()
        invariant
            0 <= i <= chars.len(),
            chars@ == p@,
            scan(chars@.take(i as int)) == (
                if failed { None::<Seq<Seq<char>>> } else { Some(stack.deep_view()) },
                cur@,
            ),
        decreases chars.len() - i,
    {
        let c = chars[i];
        assert(chars@.take(i + 1).drop_last() =~= chars@.take(i as int));
        if c == '/' {
            let seg = cur;
            cur = Vec::new();
            push_segment_exec(&mut stack, &mut failed, seg);
        } else {
            cur.push(c);
        }
        i = i + 1;
    }
    assert(chars@.take(i as int) =~= p@);
    push_segment_exec(&mut stack, &mut failed, cur);
    if failed {
        None
    } else {
        Some(stack)
    }
}

/// Segments joined by `/`.
pub fn join_segments(segs: &Vec<Vec<char>>) -> (r: Vec<char>)
    ensures
        r@ == join(segs.deep_view()),
{
    let mut out: Vec<char> = Vec::new();
    let mut j: usize = 0;
    while j < segs.len()
        invariant
            0 <= j <= segs.len(),
            out@ == join(segs.deep_view().take(j as int)),
        decreases segs.len() - j,
    {
        let ghost prev = out@;
        let ghost t = segs.deep_view().take(j + 1);
        assert(t.drop_last() =~= segs.deep_view().take(j as int));
        if j > 0 {
            out.push('/');
        }
        let seg = &segs[j];
        let mut k: usize = 0;
        let ghost mid = out@;
        while k < seg.len()
            invariant
                0 <= k <= seg.len(),
                out@ == mid + seg@.take(k as int),
            decreases seg.len() - k,
        {
            out.push(seg[k]);
            assert(seg@.take(k + 1) =~= seg@.take(k as int).push(seg[k as int]));
            k = k + 1;
        }
        assert(seg@.take(k as int) =~= seg@);
        if j == 0 {
            assert(out@ =~= t[0]);
        } else {
            assert(mid =~= prev + seq!['/']);
        }
        j = j + 1;
    }
    assert(segs.deep_view().take(j as int) =~= segs.deep_view());
    out
}

/// The lookup key of a request path, or `None` where it climbs above the root.
pub fn normalize_path(p: &str) -> (r: Option<String>)
    ensures
        match r {
            Some(k) => request_key(p@) == Some(k@),
            None => request_key(p@) is None,
        },
{
    match split_request_path(p) {
        Some(segs) => {
            let k = join_segments(&segs);
            Some(string_of(&k))
        },
        None => None,
    }
}

} // verus!
