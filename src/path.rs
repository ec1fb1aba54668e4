use vstd::prelude::*;
use crate::segment::{Segment, SegmentView};

verus! {

/// The bytes that a segment stands for in a path: its name, then `/` if it is open.
pub open spec fn seg_text(s: SegmentView) -> Seq<u8> {
    if s.open {
        s.name.push(0x2Fu8)
    } else {
        s.name
    }
}

/// Segments joined, each followed by `/` where it is open.
pub open spec fn join(segs: Seq<SegmentView>) -> Seq<u8>
    decreases segs.len(),
{
    if segs.len() == 0 {
        Seq::empty()
    } else {
        join(segs.drop_last()) + seg_text(segs.last())
    }
}

/// The segments of `b` from `i` on, the current one having started at `start`.
pub open spec fn split_from(b: Seq<u8>, start: int, i: int) -> Seq<SegmentView>
    decreases b.len() - i,
{
    if i < 0 || i >= b.len() {
        if 0 <= start < b.len() {
            seq![SegmentView { name: b.subrange(start, b.len() as int), open: false }]
        } else {
            Seq::empty()
        }
    } else if b[i] == 0x2F {
        seq![SegmentView { name: b.subrange(start, i), open: true }] + split_from(b, i + 1, i + 1)
    } else {
        split_from(b, start, i + 1)
    }
}

/// A path is absolute when it starts with `/`.
pub open spec fn is_absolute_path(b: Seq<u8>) -> bool {
    b.len() > 0 && b[0] == 0x2F
}

/// Where the first segment of a path starts.
pub open spec fn body_start(b: Seq<u8>) -> int {
    if is_absolute_path(b) {
        1
    } else {
        0
    }
}

/// The segments of a path: the parts between its `/`s, after a leading one;
/// each but the last is open, and the last is open where the path ends in `/`.
pub open spec fn segments_of(b: Seq<u8>) -> Seq<SegmentView> {
    split_from(b, body_start(b), body_start(b))
}

/// The text of a path from whether it is absolute and its segments.
pub open spec fn path_text(absolute: bool, segs: Seq<SegmentView>) -> Seq<u8> {
    if absolute {
        seq![0x2Fu8] + join(segs)
    } else {
        join(segs)
    }
}

pub open spec fn views<'a>(s: Seq<Segment<'a>>) -> Seq<SegmentView> {
    s.map_values(|x: Segment<'a>| x@)
}

proof fn lemma_join_prepend(x: SegmentView, rest: Seq<SegmentView>)
    ensures
        join(seq![x] + rest) == seg_text(x) + join(rest),
    decreases rest.len(),
{
    let s = seq![x] + rest;
    if rest.len() == 0 {
        assert(s.drop_last() =~= Seq::<SegmentView>::empty());
        assert(join(s.drop_last()) == Seq::<u8>::empty());
        assert(join(s) == join(s.drop_last()) + seg_text(x));
        assert(join(rest) == Seq::<u8>::empty());
        assert(join(s) =~= seg_text(x) + join(rest));
    } else {
        assert(s.drop_last() =~= seq![x] + rest.drop_last());
        assert(s.last() == rest.last());
        lemma_join_prepend(x, rest.drop_last());
        assert(seg_text(x) + join(rest.drop_last()) + seg_text(rest.last()) =~= seg_text(x) + (
        join(rest.drop_last()) + seg_text(rest.last())));
    }
}

proof fn lemma_split_join(b: Seq<u8>, start: int, i: int)
    requires
        0 <= start <= i <= b.len(),
        forall|k: int| start <= k < i ==> b[k] != 0x2F,
    ensures
        join(split_from(b, start, i)) == b.subrange(start, b.len() as int),
    decreases b.len() - i,
{
    if i >= b.len() {
        if start < b.len() {
            let x = SegmentView { name: b.subrange(start, b.len() as int), open: false };
            lemma_join_prepend(x, Seq::empty());
            assert(seq![x] + Seq::<SegmentView>::empty() =~= seq![x]);
            assert(join(Seq::<SegmentView>::empty()) == Seq::<u8>::empty());
            assert(seg_text(x) + Seq::<u8>::empty() =~= seg_text(x));
        } else {
            assert(join(Seq::<SegmentView>::empty()) == Seq::<u8>::empty());
            assert(b.subrange(start, b.len() as int) =~= Seq::<u8>::empty());
        }
    } else if b[i] == 0x2F {
        lemma_split_join(b, i + 1, i + 1);
        let x = SegmentView { name: b.subrange(start, i), open: true };
        lemma_join_prepend(x, split_from(b, i + 1, i + 1));
        assert(b.subrange(start, i).push(0x2Fu8) + b.subrange(i + 1, b.len() as int)
            =~= b.subrange(start, b.len() as int));
    } else {
        lemma_split_join(b, start, i + 1);
    }
}

/// Joining the segments of a path, each followed by `/` where it is open,
/// after a `/` where the path is absolute, gives back the path's bytes.
pub proof fn lemma_path_round_trip(b: Seq<u8>)
    ensures
        path_text(is_absolute_path(b), segments_of(b)) == b,
{
    lemma_split_join(b, body_start(b), body_start(b));
    if is_absolute_path(b) {
        assert(seq![0x2Fu8] + b.subrange(1, b.len() as int) =~= b);
    } else {
        assert(b.subrange(0, b.len() as int) =~= b);
    }
}

/// `.`, the current directory.
pub open spec fn is_dot(n: Seq<u8>) -> bool {
    n == seq![0x2Eu8]
}

/// `..`, the parent directory.
pub open spec fn is_dot_dot(n: Seq<u8>) -> bool {
    n == seq![0x2Eu8, 0x2Eu8]
}

/// One step of dot-segment removal: `.` is dropped; `..` takes back the last
/// segment written, unless there is none or it is `..` itself, in which case
/// it is dropped from an absolute path and kept in a relative one; any other
/// segment is written as it is.
pub open spec fn dot_step(out: Seq<SegmentView>, s: SegmentView, absolute: bool) -> Seq<SegmentView> {
    if is_dot(s.name) {
        out
    } else if is_dot_dot(s.name) {
        if out.len() > 0 && !is_dot_dot(out.last().name) {
            out.drop_last()
        } else if absolute {
            out
        } else {
            out.push(s)
        }
    } else {
        out.push(s)
    }
}

/// Dot-segment removal over a sequence of segments, left to right.
pub open spec fn remove_dots(segs: Seq<SegmentView>, absolute: bool) -> Seq<SegmentView>
    decreases segs.len(),
{
    if segs.len() == 0 {
        Seq::empty()
    } else {
        dot_step(remove_dots(segs.drop_last(), absolute), segs.last(), absolute)
    }
}

/// Dot-segment removal on the text of a path.
pub open spec fn remove_dot_segments_of(b: Seq<u8>) -> Seq<u8> {
    path_text(is_absolute_path(b), remove_dots(segments_of(b), is_absolute_path(b)))
}

fn is_dot_exec(b: &[u8]) -> (r: bool)
    ensures
        r == is_dot(b@),
{
    if b.len() == 1 && b[0] == 0x2E {
        assert(b@ =~= seq![0x2Eu8]);
        true
    } else {
        false
    }
}

fn is_dot_dot_exec(b: &[u8]) -> (r: bool)
    ensures
        r == is_dot_dot(b@),
{
    if b.len() == 2 && b[0] == 0x2E && b[1] == 0x2E {
        assert(b@ =~= seq![0x2Eu8, 0x2Eu8]);
        true
    } else {
        false
    }
}

/// Dot-segment removal over a sequence of segments.
pub fn remove_dots_in<'a>(segs: &Vec<Segment<'a>>, absolute: bool) -> (r: Vec<Segment<'a>>)
    ensures
        views(r@) == remove_dots(views(segs@), absolute),
{
    let mut out: Vec<Segment<'a>> = Vec::new();
    let mut i: usize = 0;
    while i < segs.len()
        invariant
            i <= segs@.len(),
            views(out@) == remove_dots(views(segs@.take(i as int)), absolute),
        decreases segs@.len() - i,
    {
        let s = segs[i];
        proof {
            assert(views(segs@.take(i + 1)).drop_last() =~= views(segs@.take(i as int)));
            assert(views(segs@.take(i + 1)).last() == s@);
        }
        let ghost prev = views(out@);
        if is_dot_exec(s.data) {
        } else if is_dot_dot_exec(s.data) {
            let n = out.len();
            if n > 0 && !is_dot_dot_exec(out[n - 1].data) {
                out.pop();
                assert(views(out@) =~= prev.drop_last());
            } else if !absolute {
                out.push(s);
                assert(views(out@) =~= prev.push(s@));
            }
        } else {
            out.push(s);
            assert(views(out@) =~= prev.push(s@));
        }
        i = i + 1;
    }
    assert(segs@.take(i as int) =~= segs@);
    out
}

/// Append the bytes of `b` to `out`.
pub fn append_bytes(out: &mut Vec<u8>, b: &[u8])
    ensures
        final(out)@ == old(out)@ + b@,
{
    let mut i: usize = 0;
    while i < b.len()
        invariant
            i <= b@.len(),
            out@ == old(out)@ + b@.take(i as int),
        decreases b@.len() - i,
    {
        out.push(b[i]);
        assert(b@.take(i + 1) =~= b@.take(i as int).push(b@[i as int]));
        assert(old(out)@ + b@.take(i + 1) =~= old(out)@ + b@.take(i as int) + seq![b@[i as int]]);
        i = i + 1;
    }
    assert(b@.take(i as int) =~= b@);
}

/// Append the text of a path, made of `segs`, to `out`.
pub fn write_path<'a>(out: &mut Vec<u8>, absolute: bool, segs: &Vec<Segment<'a>>)
    ensures
        final(out)@ == old(out)@ + path_text(absolute, views(segs@)),
{
    let ghost lead: Seq<u8> = if absolute {
        seq![0x2Fu8]
    } else {
        Seq::empty()
    };
    if absolute {
        out.push(0x2F);
    }
    assert(out@ =~= old(out)@ + lead + join(views(segs@.take(0))));
    let mut i: usize = 0;
    while i < segs.len()
        invariant
            i <= segs@.len(),
            out@ == old(out)@ + lead + join(views(segs@.take(i as int))),
        decreases segs@.len() - i,
    {
        let s = segs[i];
        let ghost before = out@;
        append_bytes(out, s.data);
        if s.open {
            out.push(0x2F);
        }
        proof {
            assert(views(segs@.take(i + 1)).drop_last() =~= views(segs@.take(i as int)));
            assert(views(segs@.take(i + 1)).last() == s@);
            assert(out@ =~= before + seg_text(s@));
        }
        i = i + 1;
    }
    assert(segs@.take(i as int) =~= segs@);
    if absolute {
        assert(old(out)@ + lead + join(views(segs@)) =~= old(out)@ + path_text(absolute, views(segs@)));
    } else {
        assert(old(out)@ + lead + join(views(segs@)) =~= old(out)@ + path_text(absolute, views(segs@)));
    }
}

/// A path: segments separated by `/`.
#[derive(Clone, Copy, Debug)]
pub struct Path<'a> {
    /// The path slice.
    pub(crate) data: &'a [u8],
}

impl<'a> View for Path<'a> {
    type V = Seq<u8>;

    open(crate) spec fn view(&self) -> Seq<u8> {
        self.data@
    }
}

impl<'a> Path<'a> {
    /// Returns a reference to the byte representation of the path.
    pub fn as_bytes(&self) -> (r: &'a [u8])
        ensures
            r@ == self@,
    {
        self.data
    }

    /// Checks if the path is empty.
    pub fn is_empty(&self) -> (r: bool)
        ensures
            r == (self@.len() == 0),
    {
        self.data.len() == 0
    }

    /// Checks if the path starts with `/`.
    pub fn is_absolute(&self) -> (r: bool)
        ensures
            r == is_absolute_path(self@),
    {
        self.data.len() > 0 && self.data[0] == 0x2F
    }

    /// The segments of the path, in order.
    pub fn segments(&self) -> (r: Vec<Segment<'a>>)
        ensures
            views(r@) == segments_of(self@),
    {
        let b = self.data;
        let first: usize = if self.is_absolute() {
            1
        } else {
            0
        };
        let mut out: Vec<Segment<'a>> = Vec::new();
        let mut start = first;
        let mut i = first;
        while i < b.len()
            invariant
                first <= start <= i <= b@.len(),
                first == body_start(b@),
                views(out@) + split_from(b@, start as int, i as int) == split_from(
                    b@,
                    first as int,
                    first as int,
                ),
            decreases b@.len() - i,
        {
            if b[i] == 0x2F {
                let name = vstd::slice::slice_subrange(b, start, i);
                let seg = Segment { data: name, open: true };
                proof {
                    assert(views(out@.push(seg)) =~= views(out@) + seq![seg@]);
                    assert(views(out@) + seq![seg@] + split_from(b@, i + 1, i + 1) =~= views(out@)
                        + (seq![seg@] + split_from(b@, i + 1, i + 1)));
                }
                out.push(seg);
                start = i + 1;
            }
            i = i + 1;
        }
        if start < b.len() {
            let name = vstd::slice::slice_subrange(b, start, b.len());
            let seg = Segment { data: name, open: false };
            proof {
                assert(views(out@.push(seg)) =~= views(out@) + seq![seg@]);
            }
            out.push(seg);
        } else {
            assert(views(out@) + Seq::<SegmentView>::empty() =~= views(out@));
        }
        out
    }

    /// The path with its dot segments removed.
    pub fn remove_dot_segments(&self) -> (r: Vec<u8>)
        ensures
            r@ == remove_dot_segments_of(self@),
    {
        let absolute = self.is_absolute();
        let segs = self.segments();
        let kept = remove_dots_in(&segs, absolute);
        let mut out: Vec<u8> = Vec::new();
        write_path(&mut out, absolute, &kept);
        assert(out@ =~= remove_dot_segments_of(self@));
        out
    }
}

} // verus!
