//! Conversions of module buffers into validated representations. They validate like
//! [`EncodedBarcode::new`]; no specification of their own is claimed for them.

use crate::encoding::EncodedBarcode;
use crate::error::{Error, Result};
use vstd::prelude::*;

verus! {

impl TryFrom<Vec<u8>> for EncodedBarcode {
    type Error = Error;

    fn try_from(modules: Vec<u8>) -> Result<Self> {
        EncodedBarcode::new(modules.as_slice())
    }
}

impl<'a> TryFrom<&'a [u8]> for EncodedBarcode {
    type Error = Error;

    fn try_from(modules: &'a [u8]) -> Result<Self> {
        EncodedBarcode::new(modules)
    }
}

impl vstd::std_specs::convert::TryFromSpecImpl<Vec<u8>> for EncodedBarcode {
    open spec fn obeys_try_from_spec() -> bool {
        false
    }

    open spec fn try_from_spec(v: Vec<u8>) -> Result<Self> {
        vstd::pervasive::arbitrary()
    }
}

impl<'a> vstd::std_specs::convert::TryFromSpecImpl<&'a [u8]> for EncodedBarcode {
    open spec fn obeys_try_from_spec() -> bool {
        false
    }

    open spec fn try_from_spec(v: &'a [u8]) -> Result<Self> {
        vstd::pervasive::arbitrary()
    }
}

} // verus!
