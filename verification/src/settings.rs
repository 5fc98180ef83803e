//! The settings of the operator.

use vstd::prelude::*;

verus! {

/// The settings: the hardware address of the chosen interface, as twelve
/// hexadecimal digits without separators.
#[derive(Clone, Debug, PartialEq, Eq)]
pub struct Settings {
    pub mac: String,
}

impl Default for Settings {
    /// The settings before an interface is chosen: no hardware address.
    fn default() -> (r: Settings)
        ensures
            r.mac@ == Seq::<char>::empty(),
    {
        Settings { mac: String::new() }
    }
}

} // verus!
