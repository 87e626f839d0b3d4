//! Lexical path canonicalisation.
//!
//! A path is anchored to a base directory when it is relative, cut into
//! segments at each `/`, and resolved segment by segment: empty segments and
//! `.` are dropped, `..` removes the segment retained last (and does nothing
//! when none is retained), every other segment is retained. The canonical path
//! is `/` followed by the retained segments joined with `/`. Nothing here
//! touches the file system.

use vstd::prelude::*;
use crate::text::{chars_of, push_chars};

verus! {

/// Whether `p` starts at the root.
pub open spec fn is_rooted(p: Seq<char>) -> bool {
    p.len() > 0 && p[0] == '/'
}

/// `path` itself when it is rooted, else `path` placed under `base`.
pub open spec fn anchored(path: Seq<char>, base: Seq<char>) -> Seq<char> {
    if is_rooted(path) {
        path
    } else if base.len() == 0 || base.last() == '/' {
        base + path
    } else {
        base + seq!['/'] + path
    }
}

/// The pieces of `p` between its `/` characters, empty pieces included.
pub open spec fn segments(p: Seq<char>) -> Seq<Seq<char>>
    decreases p.len(),
{
    if p.len() == 0 {
        seq![Seq::<char>::empty()]
    } else {
        let init = segments(p.drop_last());
        if p.last() == '/' {
            init.push(Seq::<char>::empty())
        } else {
            init.drop_last().push(init.last().push(p.last()))
        }
    }
}

/// The segment `.`.
pub open spec fn dot() -> Seq<char> {
    seq!['.']
}

/// The segment `..`.
pub open spec fn dotdot() -> Seq<char> {
    seq!['.', '.']
}

/// The retained segments after one more segment is read.
pub open spec fn retain(stack: Seq<Seq<char>>, seg: Seq<char>) -> Seq<Seq<char>> {
    if seg.len() == 0 || seg == dot() {
        stack
    } else if seg == dotdot() {
        if stack.len() > 0 {
            stack.drop_last()
        } else {
            stack
        }
    } else {
        stack.push(seg)
    }
}

/// The segments retained after all of `segs` are read, first to last.
pub open spec fn resolve(segs: Seq<Seq<char>>) -> Seq<Seq<char>>
    decreases segs.len(),
{
    if segs.len() == 0 {
        Seq::<Seq<char>>::empty()
    } else {
        retain(resolve(segs.drop_last()), segs.last())
    }
}

/// Each segment of `stack` with a `/` in front of it.
pub open spec fn joined(stack: Seq<Seq<char>>) -> Seq<char>
    decreases stack.len(),
{
    if stack.len() == 0 {
        Seq::<char>::empty()
    } else {
        joined(stack.drop_last()) + seq!['/'] + stack.last()
    }
}

/// The path that the retained segments spell: the root alone when there are none.
pub open spec fn render(stack: Seq<Seq<char>>) -> Seq<char> {
    if stack.len() == 0 {
        seq!['/']
    } else {
        joined(stack)
    }
}

/// The canonical form of `path` under `base`.
pub open spec fn canonical(path: Seq<char>, base: Seq<char>) -> Seq<char> {
    render(resolve(segments(anchored(path, base))))
}

/// A segment that resolution retains as it is.
pub open spec fn is_plain(seg: Seq<char>) -> bool {
    seg.len() > 0 && !seg.contains('/') && seg != dot() && seg != dotdot()
}

/// Whether every segment of `stack` is plain.
pub open spec fn all_plain(stack: Seq<Seq<char>>) -> bool {
    forall|i: int| 0 <= i < stack.len() ==> is_plain(#[trigger] stack[i])
}

/// The views of the segments held in `v`.
pub open spec fn segment_views(v: Seq<Vec<char>>) -> Seq<Seq<char>> {
    Seq::new(v.len(), |i: int| v[i]@)
}

/// A path has at least one segment.
pub proof fn lemma_segments_nonempty(p: Seq<char>)
    ensures
        segments(p).len() > 0,
    decreases p.len(),
{
    if p.len() > 0 {
        lemma_segments_nonempty(p.drop_last());
    }
}

/// No segment of a path holds a `/`.
pub proof fn lemma_segments_hold_no_slash(p: Seq<char>)
    ensures
        forall|i: int| 0 <= i < segments(p).len() ==> !(#[trigger] segments(p)[i]).contains('/'),
    decreases p.len(),
{
    if p.len() > 0 {
        lemma_segments_hold_no_slash(p.drop_last());
        lemma_segments_nonempty(p.drop_last());
        let init = segments(p.drop_last());
        if p.last() != '/' {
            let grown = init.last().push(p.last());
            assert forall|j: int| 0 <= j < grown.len() implies grown[j] != '/' by {
                if j < init.last().len() {
                    assert(init.last().contains(init.last()[j]));
                }
            }
        }
    }
}

/// Resolution retains plain segments only.
pub proof fn lemma_resolve_is_plain(segs: Seq<Seq<char>>)
    requires
        forall|i: int| 0 <= i < segs.len() ==> !(#[trigger] segs[i]).contains('/'),
    ensures
        all_plain(resolve(segs)),
    decreases segs.len(),
{
    if segs.len() > 0 {
        lemma_resolve_is_plain(segs.drop_last());
    }
}

/// Appending characters other than `/` to a path lengthens its last segment.
pub proof fn lemma_segments_append(a: Seq<char>, seg: Seq<char>)
    requires
        !seg.contains('/'),
    ensures
        segments(a).len() > 0,
        segments(a + seg) == segments(a).drop_last().push(segments(a).last() + seg),
    decreases seg.len(),
{
    lemma_segments_nonempty(a);
    if seg.len() == 0 {
        assert(a + seg == a);
        assert(segments(a).last() + seg == segments(a).last());
        assert(segments(a).drop_last().push(segments(a).last()) == segments(a));
    } else {
        let shorter = seg.drop_last();
        assert(seg.contains(seg.last()));
        assert forall|j: int| 0 <= j < shorter.len() implies shorter[j] != '/' by {
            assert(seg.contains(seg[j]));
        }
        lemma_segments_append(a, shorter);
        assert((a + seg).drop_last() == a + shorter);
        assert((a + seg).last() == seg.last());
        let init = segments(a + shorter);
        assert(init.last().push(seg.last()) == segments(a).last() + seg);
        assert(init.drop_last() == segments(a).drop_last());
    }
}

/// Cutting a joined sequence of plain segments gives them back, behind one
/// empty segment for the leading `/`.
pub proof fn lemma_segments_of_joined(stack: Seq<Seq<char>>)
    requires
        all_plain(stack),
    ensures
        segments(joined(stack)) == seq![Seq::<char>::empty()] + stack,
    decreases stack.len(),
{
    let lead = seq![Seq::<char>::empty()];
    if stack.len() == 0 {
        assert(lead + stack == lead);
    } else {
        let init = stack.drop_last();
        lemma_segments_of_joined(init);
        let upto = joined(init) + seq!['/'];
        assert(upto.drop_last() == joined(init));
        assert(upto.last() == '/');
        assert(segments(upto) == (lead + init).push(Seq::<char>::empty()));
        assert(is_plain(stack.last()));
        lemma_segments_append(upto, stack.last());
        assert(Seq::<char>::empty() + stack.last() == stack.last());
        assert((lead + init).push(stack.last()) == lead + stack);
    }
}

/// Resolving plain segments behind one empty segment retains all of them.
pub proof fn lemma_resolve_plain(stack: Seq<Seq<char>>)
    requires
        all_plain(stack),
    ensures
        resolve(seq![Seq::<char>::empty()] + stack) == stack,
    decreases stack.len(),
{
    let lead = seq![Seq::<char>::empty()];
    if stack.len() == 0 {
        assert(lead + stack == lead);
        assert(lead.drop_last() == Seq::<Seq<char>>::empty());
        assert(resolve(lead.drop_last()) == Seq::<Seq<char>>::empty());
    } else {
        let init = stack.drop_last();
        lemma_resolve_plain(init);
        assert((lead + stack).drop_last() == lead + init);
        assert((lead + stack).last() == stack.last());
        assert(is_plain(stack.last()));
        assert(init.push(stack.last()) == stack);
    }
}

/// A joined sequence with at least one segment starts at the root.
pub proof fn lemma_joined_is_rooted(stack: Seq<Seq<char>>)
    requires
        stack.len() > 0,
    ensures
        is_rooted(joined(stack)),
    decreases stack.len(),
{
    if stack.len() > 1 {
        lemma_joined_is_rooted(stack.drop_last());
    } else {
        assert(joined(stack.drop_last()) == Seq::<char>::empty());
    }
}

/// A canonical path starts at the root.
pub proof fn lemma_canonical_is_rooted(path: Seq<char>, base: Seq<char>)
    ensures
        is_rooted(canonical(path, base)),
{
    let stack = resolve(segments(anchored(path, base)));
    if stack.len() > 0 {
        lemma_joined_is_rooted(stack);
    }
}

/// Canonicalisation is idempotent: a canonical path is its own canonical form,
/// under any base.
pub proof fn lemma_canonical_idempotent(path: Seq<char>, base: Seq<char>, other_base: Seq<char>)
    ensures
        canonical(canonical(path, base), other_base) == canonical(path, base),
{
    let full = anchored(path, base);
    let stack = resolve(segments(full));
    lemma_segments_hold_no_slash(full);
    lemma_resolve_is_plain(segments(full));
    lemma_canonical_is_rooted(path, base);
    let once = canonical(path, base);
    assert(anchored(once, other_base) == once);
    if stack.len() == 0 {
        let root = seq!['/'];
        assert(root.drop_last() == Seq::<char>::empty());
        assert(segments(root.drop_last()) == seq![Seq::<char>::empty()]);
        let cut = segments(root);
        assert(cut == seq![Seq::<char>::empty()].push(Seq::<char>::empty()));
        lemma_resolve_plain(Seq::<Seq<char>>::empty());
        assert(cut.drop_last() == seq![Seq::<char>::empty()] + Seq::<Seq<char>>::empty());
        assert(resolve(cut) == Seq::<Seq<char>>::empty());
    } else {
        lemma_segments_of_joined(stack);
        lemma_resolve_plain(stack);
    }
}

/// The canonical form of `path` under `base`, as a string.
pub fn canonicalize(path: &str, base: &str) -> (r: String)
    ensures
        r@ == canonical(path@, base@),
{
    let full = anchor(path, base);
    let mut stack: Vec<Vec<char>> = Vec::new();
    let mut cur: Vec<char> = Vec::new();
    let mut i: usize = 0;
    proof {
        assert(full@.take(0) == Seq::<char>::empty());
        assert(segments(full@.take(0)).drop_last() == Seq::<Seq<char>>::empty());
        assert(segment_views(stack@) == Seq::<Seq<char>>::empty());
    }
    while i < full.len()
        invariant
            i <= full.len(),
            segment_views(stack@) == resolve(segments(full@.take(i as int)).drop_last()),
            cur@ == segments(full@.take(i as int)).last(),
        decreases full.len() - i,
    {
        let c = full[i];
        proof {
            let before = full@.take(i as int);
            let after = full@.take(i + 1);
            lemma_segments_nonempty(before);
            assert(after.drop_last() == before);
            assert(after.last() == c);
            let init = segments(before);
            if c == '/' {
                assert(segments(after).drop_last() == init);
            } else {
                assert(segments(after).drop_last() == init.drop_last());
            }
        }
        if c == '/' {
            retain_segment(&mut stack, cur);
            cur = Vec::new();
        } else {
            cur.push(c);
        }
        i += 1;
    }
    proof {
        assert(full@.take(full.len() as int) == full@);
        lemma_segments_nonempty(full@);
    }
    retain_segment(&mut stack, cur);
    render_segments(&stack)
}

/// `path` itself when it is rooted, else `path` placed under `base`.
pub fn anchor(path: &str, base: &str) -> (r: Vec<char>)
    ensures
        r@ == anchored(path@, base@),
{
    let p = chars_of(path);
    if p.len() > 0 && p[0] == '/' {
        return p;
    }
    let mut out = chars_of(base);
    if out.len() > 0 && out[out.len() - 1] != '/' {
        out.push('/');
    }
    let mut i: usize = 0;
    let ghost head = out@;
    while i < p.len()
        invariant
            i <= p.len(),
            out@ == head + p@.take(i as int),
        decreases p.len() - i,
    {
        out.push(p[i]);
        i += 1;
        assert(p@.take(i as int) == p@.take(i - 1).push(p@[i - 1]));
    }
    assert(p@.take(p.len() as int) == p@);
    out
}

/// Reads one more segment into the retained ones.
fn retain_segment(stack: &mut Vec<Vec<char>>, seg: Vec<char>)
    ensures
        segment_views(final(stack)@) == retain(segment_views(old(stack)@), seg@),
{
    let n = seg.len();
    if n == 0 || (n == 1 && seg[0] == '.') {
        proof {
            if n == 1 {
                assert(seg@ == dot());
            }
        }
    } else if n == 2 && seg[0] == '.' && seg[1] == '.' {
        assert(seg@ == dotdot());
        assert(seg@ != dot());
        if stack.len() > 0 {
            stack.pop();
            assert(segment_views(stack@) == segment_views(old(stack)@).drop_last());
        }
    } else {
        proof {
            if seg@ == dot() {
                assert(seg@.len() == 1 && seg@[0] == '.');
            }
            if seg@ == dotdot() {
                assert(seg@.len() == 2 && seg@[0] == '.' && seg@[1] == '.');
            }
        }
        stack.push(seg);
        assert(segment_views(stack@) == segment_views(old(stack)@).push(seg@));
    }
}

/// Spells the retained segments as a path.
fn render_segments(stack: &Vec<Vec<char>>) -> (r: String)
    ensures
        r@ == render(segment_views(stack@)),
{
    let mut out = String::new();
    if stack.len() == 0 {
        out.push('/');
        assert(out@ == seq!['/']);
        return out;
    }
    let mut i: usize = 0;
    assert(segment_views(stack@).take(0) == Seq::<Seq<char>>::empty());
    while i < stack.len()
        invariant
            i <= stack.len(),
            out@ == joined(segment_views(stack@).take(i as int)),
        decreases stack.len() - i,
    {
        out.push('/');
        push_chars(&mut out, &stack[i]);
        proof {
            let upto = segment_views(stack@).take(i + 1);
            assert(upto.drop_last() == segment_views(stack@).take(i as int));
            assert(upto.last() == stack[i as int]@);
        }
        i += 1;
    }
    assert(segment_views(stack@).take(stack.len() as int) == segment_views(stack@));
    out
}

/// Paths that can be made absolute, and canonical, under a base directory.
pub trait AbsolutePath {
    /// The path as text.
    spec fn path_text(&self) -> Seq<char>;

    /// The path under `base`: canonical when `canonicalize` is set, else only anchored.
    fn absolute_path(&self, base: &str, canonicalize: bool) -> (r: String)
        ensures
            r@ == if canonicalize {
                canonical(self.path_text(), base@)
            } else {
                anchored(self.path_text(), base@)
            },
    ;

    /// The canonical form of the path under `base`.
    fn canonical_path(&self, base: &str) -> (r: String)
        ensures
            r@ == canonical(self.path_text(), base@),
    {
        self.absolute_path(base, true)
    }
}

impl AbsolutePath for str {
    open spec fn path_text(&self) -> Seq<char> {
        self@
    }

    fn absolute_path(&self, base: &str, canonicalize: bool) -> (r: String) {
        if canonicalize {
            self::canonicalize(self, base)
        } else {
            let full = anchor(self, base);
            let mut out = String::new();
            push_chars(&mut out, &full);
            out
        }
    }
}

} // verus!
