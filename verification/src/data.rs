//! The bytes of a dictionary, embedded in the program or owned.

use vstd::prelude::*;

verus! {

/// A read-only block of bytes.
#[derive(Debug)]
pub enum Data {
    Static(&'static [u8]),
    Owned(Vec<u8>),
}

impl View for Data {
    type V = Seq<u8>;

    open spec fn view(&self) -> Seq<u8> {
        match self {
            Data::Static(bytes) => bytes@,
            Data::Owned(bytes) => bytes@,
        }
    }
}

impl Data {
    /// The bytes as a slice.
    pub fn as_slice(&self) -> (r: &[u8])
        ensures
            r@ == self@,
    {
        match self {
            Data::Static(bytes) => bytes,
            Data::Owned(bytes) => bytes.as_slice(),
        }
    }

    /// The number of bytes.
    pub fn len(&self) -> (r: usize)
        ensures
            r == self@.len(),
    {
        self.as_slice().len()
    }

    /// Whether there are no bytes.
    pub fn is_empty(&self) -> (r: bool)
        ensures
            r == (self@.len() == 0),
    {
        self.as_slice().is_empty()
    }
}

impl Clone for Data {
    fn clone(&self) -> (r: Self)
        ensures
            r@ == self@,
    {
        match self {
            Data::Static(bytes) => Data::Static(bytes),
            Data::Owned(bytes) => Data::Owned(bytes.clone()),
        }
    }
}

impl From<Vec<u8>> for Data {
    fn from(bytes: Vec<u8>) -> (r: Self) {
        Data::Owned(bytes)
    }
}

impl vstd::std_specs::convert::FromSpecImpl<Vec<u8>> for Data {
    open spec fn obeys_from_spec() -> bool {
        true
    }

    open spec fn from_spec(bytes: Vec<u8>) -> Self {
        Data::Owned(bytes)
    }
}

impl From<&'static [u8]> for Data {
    fn from(bytes: &'static [u8]) -> (r: Self) {
        Data::Static(bytes)
    }
}

impl vstd::std_specs::convert::FromSpecImpl<&'static [u8]> for Data {
    open spec fn obeys_from_spec() -> bool {
        true
    }

    open spec fn from_spec(bytes: &'static [u8]) -> Self {
        Data::Static(bytes)
    }
}

} // verus!
