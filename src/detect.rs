//! Choosing between the two layouts from the first header-sized window.

use vstd::prelude::*;
use crate::header::{fvb_window_valid, FvbHeader};
use crate::varmap::{pairs_map, VarMap};
use crate::walker::{deserialize_v1, deserialize_v2, v1_records, v2_records, Variable};

verus! {

/// The two store layouts.
#[derive(Clone, Copy, Debug, PartialEq, Eq, Structural)]
pub enum Format {
    /// Length-prefixed key/value records with no outer header.
    V1,
    /// A firmware volume block followed by authenticated variable records.
    V2,
}

/// The firmware-volume-block layout is chosen exactly when the first
/// header-sized window holds a valid header; anything else, a buffer too
/// short for the header included, is taken as the compact layout.
pub fn detect_format(data: &[u8]) -> (r: Format)
    ensures
        r == Format::V2 <==> fvb_window_valid(data@),
{
    match FvbHeader::parse(data) {
        Ok(h) => {
            if h.is_valid() {
                Format::V2
            } else {
                Format::V1
            }
        },
        Err(_) => Format::V1,
    }
}

/// A decoded store in either layout.
pub enum Store {
    V1(VarMap<Vec<u8>>),
    V2(VarMap<Variable>),
}

/// Detects the layout of `data` and decodes its records.
pub fn decode(data: &[u8]) -> (r: Store)
    ensures
        match r {
            Store::V1(m) => !fvb_window_valid(data@) && m.wf() && m@ == pairs_map(v1_records(data@)),
            Store::V2(m) => fvb_window_valid(data@) && m.wf() && m@ == pairs_map(v2_records(data@)),
        },
{
    match detect_format(data) {
        Format::V1 => Store::V1(deserialize_v1(data)),
        Format::V2 => Store::V2(deserialize_v2(data)),
    }
}

} // verus!
