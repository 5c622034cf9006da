//! Enums: the event at the cursor selects the variant.
use crate::bytes::to_vec;
use crate::de::model::{Cursor, EventView};
use crate::de::{DeEvent, Deserializer, XmlRead};
use crate::errors::{DeError, DeErrorView};
use vstd::prelude::*;

verus! {

/// The tag that selects a variant.
#[derive(Debug, PartialEq, Eq)]
pub struct VariantTag {
    /// The bytes that name the variant.
    pub name: Vec<u8>,
    /// Whether the bytes may hold references that are still escaped.
    pub escaped: bool,
}

impl Cursor {
    /// The tag of the variant at the cursor: the name of the element that
    /// starts there, or the text there, which may hold escaped references;
    /// character data holds none.  No other event selects a variant.
    pub open spec fn variant(self) -> Result<(Seq<u8>, bool), DeErrorView> {
        match self.head() {
            Err(e) => Err(e),
            Ok(EventView::Text(t)) => Ok((t, true)),
            Ok(EventView::CData(t)) => Ok((t, false)),
            Ok(EventView::Start(tag)) => Ok((tag.name, false)),
            Ok(_) => Err(DeErrorView::Unsupported),
        }
    }
}

/// The mathematical content of the result of reading a variant's tag.
pub open spec fn tagged(r: Result<VariantTag, DeError>) -> Result<(Seq<u8>, bool), DeErrorView> {
    match r {
        Ok(t) => Ok((t.name@, t.escaped)),
        Err(e) => Err(e@),
    }
}

impl<'de, R: XmlRead<'de>> Deserializer<'de, R> {
    /// Reads the tag that selects the variant of an enum.  No event is
    /// pulled: what the variant holds is read from the same event on.
    pub fn deserialize_enum(&mut self) -> (r: Result<VariantTag, DeError>)
        requires
            old(self).inv(),
        ensures
            final(self).inv(),
            tagged(r) == old(self)@.variant(),
            final(self)@ == old(self)@.filled(),
    {
        match self.peek()? {
            DeEvent::Text(t) => Ok(VariantTag { name: to_vec(t.escaped()), escaped: true }),
            DeEvent::CData(t) => Ok(VariantTag { name: to_vec(t.as_bytes()), escaped: false }),
            DeEvent::Start(e) => Ok(
                VariantTag { name: to_vec(e.name().into_inner()), escaped: false },
            ),
            _ => Err(DeError::Unsupported),
        }
    }
}

} // verus!
