//! Qualified names of elements.
use vstd::prelude::*;

verus! {

/// The qualified name of an element, as the bytes that stand in the tag.
#[derive(Clone, Copy, Debug)]
pub struct QName<'a>(pub &'a [u8]);

impl<'a> View for QName<'a> {
    type V = Seq<u8>;

    open spec fn view(&self) -> Seq<u8> {
        self.0@
    }
}

impl<'a> QName<'a> {
    /// The bytes of the name.
    pub fn into_inner(self) -> (r: &'a [u8])
        ensures
            r@ == self@,
    {
        self.0
    }
}

} // verus!
