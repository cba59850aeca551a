use vstd::prelude::*;

use crate::resource::Resource;

verus! {

/// A junction modifier granting a better bank trade rate: for any
/// resource, or for one specific resource only.
#[derive(Clone, Copy, Debug, PartialEq, Eq, Hash, Structural)]
pub enum Port {
    Any,
    Only(Resource),
}

} // verus!
