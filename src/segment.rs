use vstd::prelude::*;
use crate::error::Error;
use crate::parsing::{scan, span, Production};
use crate::pct::{pct_cmp, pct_eq, pct_equiv, pct_order};
use std::cmp::Ordering;
use vstd::string::StringSliceAdditionalSpecFns;

verus! {

/// What a segment is: its bytes, and whether a `/` follows it.
pub struct SegmentView {
    pub name: Seq<u8>,
    pub open: bool,
}

/// What `b` makes as a segment: the whole of it, or all but a single final `/`,
/// which opens the segment.
pub open spec fn segment_of(b: Seq<u8>) -> Result<SegmentView, Error> {
    match span(Production::Segment, b, 0) {
        Err(e) => Err(e),
        Ok(n) => if n == b.len() {
            Ok(SegmentView { name: b, open: false })
        } else if n + 1 == b.len() && b[n] == 0x2F {
            Ok(SegmentView { name: b.take(n), open: true })
        } else {
            Err(Error::InvalidSegment)
        },
    }
}

/// The bytes of an ASCII literal.
fn ascii_bytes(s: &'static str) -> (r: &'static [u8])
    requires
        vstd::string::is_ascii(s),
    ensures
        r@ == s@.map_values(|c: char| c as u8),
{
    proof {
        vstd::string::is_ascii_spec_bytes(s);
    }
    let r = s.as_bytes();
    assert(r@ =~= s@.map_values(|c: char| c as u8));
    r
}

/// One `/`-delimited step of a path, without the delimiter.
#[derive(Clone, Copy, Debug)]
pub struct Segment<'a> {
    /// The path segment slice.
    pub(crate) data: &'a [u8],
    pub(crate) open: bool,
}

impl<'a> View for Segment<'a> {
    type V = SegmentView;

    open(crate) spec fn view(&self) -> SegmentView {
        SegmentView { name: self.data@, open: self.open }
    }
}

impl<'a> Segment<'a> {
    /// The special dot segment `.` indicating the current directory.
    pub fn current() -> (r: Segment<'static>)
        ensures
            r@.name == seq![0x2Eu8],
            !r@.open,
    {
        proof {
            reveal_strlit(".");
        }
        let r = Segment { data: ascii_bytes("."), open: false };
        assert(r@.name =~= seq![0x2Eu8]);
        r
    }

    /// The special dot segment `..` indicating the parent directory.
    pub fn parent() -> (r: Segment<'static>)
        ensures
            r@.name == seq![0x2Eu8, 0x2Eu8],
            !r@.open,
    {
        proof {
            reveal_strlit("..");
        }
        let r = Segment { data: ascii_bytes(".."), open: false };
        assert(r@.name =~= seq![0x2Eu8, 0x2Eu8]);
        r
    }

    /// Get the length of the path name.
    pub fn len(&self) -> (r: usize)
        ensures
            r == self@.name.len(),
    {
        self.data.len()
    }

    /// Returns a reference to the byte representation of the segment.
    pub fn as_bytes(&self) -> (r: &[u8])
        ensures
            r@ == self@.name,
    {
        self.data
    }

    /// Whether a `/` follows the segment.
    pub fn is_open(&self) -> (r: bool)
        ensures
            r == self@.open,
    {
        self.open
    }

    /// Checks if the segment is empty.
    pub fn is_empty(&self) -> (r: bool)
        ensures
            r == (self@.name.len() == 0),
    {
        self.data.len() == 0
    }

    /// The segment as it stands in a path: its name, then `/` if it is open.
    pub fn to_bytes(&self) -> (r: Vec<u8>)
        ensures
            r@ == (if self@.open {
                self@.name.push(0x2Fu8)
            } else {
                self@.name
            }),
    {
        let mut out: Vec<u8> = Vec::new();
        crate::path::append_bytes(&mut out, self.data);
        if self.open {
            out.push(0x2F);
        }
        assert(out@ =~= (if self@.open {
            self@.name.push(0x2Fu8)
        } else {
            self@.name
        }));
        out
    }

    /// Open that path.
    pub fn open(&mut self)
        ensures
            final(self)@ == (SegmentView { name: old(self)@.name, open: true }),
    {
        self.open = true
    }

    /// Parse a segment: the whole text, or all of it but one final `/`, which
    /// then opens the segment.
    pub fn try_from(s: &'a str) -> (r: Result<Segment<'a>, Error>)
        ensures
            match r {
                Ok(seg) => segment_of(s.spec_bytes()) == Ok::<SegmentView, Error>(seg@),
                Err(e) => segment_of(s.spec_bytes()) == Err::<SegmentView, Error>(e),
            },
    {
        let data = s.as_bytes();
        let n = match scan(Production::Segment, data, 0) {
            Ok(n) => n,
            Err(e) => {
                return Err(e);
            },
        };
        if n < data.len() {
            if n == data.len() - 1 && data[n] == 0x2F {
                let name = vstd::slice::slice_subrange(data, 0, n);
                assert(name@ =~= data@.take(n as int));
                Ok(Segment { data: name, open: true })
            } else {
                Err(Error::InvalidSegment)
            }
        } else {
            Ok(Segment { data, open: false })
        }
    }
}

impl<'a> PartialEq for Segment<'a> {
    fn eq(&self, other: &Segment<'a>) -> (r: bool) {
        self.open == other.open && pct_eq(self.data, other.data)
    }
}

impl<'a> vstd::std_specs::cmp::PartialEqSpecImpl for Segment<'a> {
    open spec fn obeys_eq_spec() -> bool {
        true
    }

    open spec fn eq_spec(&self, other: &Segment<'a>) -> bool {
        self@.open == other@.open && pct_equiv(self@.name, other@.name)
    }
}

impl<'a> PartialEq<&'a str> for Segment<'a> {
    fn eq(&self, other: &&'a str) -> (r: bool) {
        match crate::pct::pct_decode(self.data) {
            Some(d) => {
                let plain: &str = *other;
                let t = plain.to_owned();
                d.eq(&t)
            },
            None => false,
        }
    }
}

impl<'a> vstd::std_specs::cmp::PartialEqSpecImpl<&'a str> for Segment<'a> {
    open spec fn obeys_eq_spec() -> bool {
        true
    }

    /// A segment equals the plain string that its name decodes to.
    open spec fn eq_spec(&self, other: &&'a str) -> bool {
        crate::pct::decoding(self@.name) == Some(other@)
    }
}

/// Order of two segments: by their names, percent-decoded; between two
/// equivalent names, a closed segment comes before an open one.
pub open spec fn segment_order(a: SegmentView, b: SegmentView) -> Option<Ordering> {
    match pct_order(a.name, b.name) {
        Some(Ordering::Equal) => if a.open == b.open {
            Some(Ordering::Equal)
        } else if b.open {
            Some(Ordering::Less)
        } else {
            Some(Ordering::Greater)
        },
        o => o,
    }
}

impl<'a> PartialOrd for Segment<'a> {
    fn partial_cmp(&self, other: &Segment<'a>) -> (r: Option<Ordering>) {
        match pct_cmp(self.data, other.data) {
            Some(Ordering::Equal) => if self.open == other.open {
                Some(Ordering::Equal)
            } else if other.open {
                Some(Ordering::Less)
            } else {
                Some(Ordering::Greater)
            },
            o => o,
        }
    }
}

impl<'a> vstd::std_specs::cmp::PartialOrdSpecImpl for Segment<'a> {
    open spec fn obeys_partial_cmp_spec() -> bool {
        true
    }

    open spec fn partial_cmp_spec(&self, other: &Segment<'a>) -> Option<Ordering> {
        segment_order(self@, other@)
    }
}

} // verus!
