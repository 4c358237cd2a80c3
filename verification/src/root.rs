//! A value together with the name of its root tag.

use crate::data::Data;
use vstd::prelude::*;

verus! {

/// The name of the root tag and the value under it.
pub struct Root<'k, 'v> {
    pub root_name: &'k str,
    pub value: &'v Data,
}

impl<'k, 'v> From<&'v Data> for Root<'k, 'v> {
    /// A bare value stands under the empty name.
    fn from(value: &'v Data) -> (r: Self) {
        Root { root_name: "", value }
    }
}

impl<'k, 'v> vstd::std_specs::convert::FromSpecImpl<&'v Data> for Root<'k, 'v> {
    open spec fn obeys_from_spec() -> bool {
        true
    }

    open spec fn from_spec(value: &'v Data) -> Self {
        Root { root_name: "", value }
    }
}

impl<'k, 'v> From<(&'k str, &'v Data)> for Root<'k, 'v> {
    fn from(pair: (&'k str, &'v Data)) -> (r: Self) {
        Root { root_name: pair.0, value: pair.1 }
    }
}

impl<'k, 'v> vstd::std_specs::convert::FromSpecImpl<(&'k str, &'v Data)> for Root<'k, 'v> {
    open spec fn obeys_from_spec() -> bool {
        true
    }

    open spec fn from_spec(pair: (&'k str, &'v Data)) -> Self {
        Root { root_name: pair.0, value: pair.1 }
    }
}

} // verus!
