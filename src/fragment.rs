use vstd::prelude::*;
use crate::error::Error;
use crate::parsing::{scan, span, Production};
use crate::pct::{pct_cmp, pct_eq, pct_equiv, pct_order};
use std::cmp::Ordering;
use vstd::string::StringSliceAdditionalSpecFns;

verus! {

/// What `b` makes as a fragment: all of it, where all of it is an `ifragment`.
pub open spec fn fragment_of(b: Seq<u8>) -> Result<Seq<u8>, Error> {
    match span(Production::Fragment, b, 0) {
        Err(e) => Err(e),
        Ok(n) => if n == b.len() {
            Ok(b)
        } else {
            Err(Error::InvalidFragment)
        },
    }
}

/// The fragment of an IRI reference, after its `#`.
#[derive(Clone, Copy, Debug)]
pub struct Fragment<'a> {
    /// The fragment slice.
    pub(crate) data: &'a [u8],
}

impl<'a> View for Fragment<'a> {
    type V = Seq<u8>;

    open(crate) spec fn view(&self) -> Seq<u8> {
        self.data@
    }
}

impl<'a> Fragment<'a> {
    /// Returns a reference to the byte representation of the fragment.
    pub fn as_bytes(&self) -> (r: &[u8])
        ensures
            r@ == self@,
    {
        self.data
    }

    /// Checks if the fragment is empty.
    pub fn is_empty(&self) -> (r: bool)
        ensures
            r == (self@.len() == 0),
    {
        self.data.len() == 0
    }

    /// Parse a fragment: the whole text must be one.
    pub fn try_from(s: &'a str) -> (r: Result<Fragment<'a>, Error>)
        ensures
            match r {
                Ok(f) => fragment_of(s.spec_bytes()) == Ok::<Seq<u8>, Error>(f@),
                Err(e) => fragment_of(s.spec_bytes()) == Err::<Seq<u8>, Error>(e),
            },
    {
        let data = s.as_bytes();
        match scan(Production::Fragment, data, 0) {
            Ok(n) => if n < data.len() {
                Err(Error::InvalidFragment)
            } else {
                Ok(Fragment { data })
            },
            Err(e) => Err(e),
        }
    }
}

impl<'a> PartialEq for Fragment<'a> {
    fn eq(&self, other: &Fragment<'a>) -> (r: bool) {
        pct_eq(self.data, other.data)
    }
}

impl<'a> vstd::std_specs::cmp::PartialEqSpecImpl for Fragment<'a> {
    open spec fn obeys_eq_spec() -> bool {
        true
    }

    open spec fn eq_spec(&self, other: &Fragment<'a>) -> bool {
        pct_equiv(self@, other@)
    }
}

impl<'a> PartialEq<&'a str> for Fragment<'a> {
    fn eq(&self, other: &&'a str) -> (r: bool) {
        crate::pct::bytes_eq(self.data, other.as_bytes())
    }
}

impl<'a> vstd::std_specs::cmp::PartialEqSpecImpl<&'a str> for Fragment<'a> {
    open spec fn obeys_eq_spec() -> bool {
        true
    }

    /// A fragment equals a string holding its very bytes.
    open spec fn eq_spec(&self, other: &&'a str) -> bool {
        self@ == other.spec_bytes()
    }
}

impl<'a> PartialOrd for Fragment<'a> {
    fn partial_cmp(&self, other: &Fragment<'a>) -> (r: Option<Ordering>) {
        pct_cmp(self.data, other.data)
    }
}

impl<'a> vstd::std_specs::cmp::PartialOrdSpecImpl for Fragment<'a> {
    open spec fn obeys_partial_cmp_spec() -> bool {
        true
    }

    open spec fn partial_cmp_spec(&self, other: &Fragment<'a>) -> Option<Ordering> {
        pct_order(self@, other@)
    }
}

} // verus!
