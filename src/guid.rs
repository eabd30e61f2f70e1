//! Globally unique identifiers as the 16 bytes they occupy on flash.

use vstd::prelude::*;

verus! {

/// A GUID, kept as its 16 on-flash bytes (the first three groups little-endian).
#[derive(Clone, Copy, Debug)]
pub struct Guid {
    pub bytes: [u8; 16],
}

impl View for Guid {
    type V = Seq<u8>;

    open spec fn view(&self) -> Seq<u8> {
        self.bytes@
    }
}

/// The bytes of `fff12b8d-7696-4c8b-a985-2747075b4f50`, the type of a
/// firmware volume that holds non-volatile data.
pub open spec fn system_nv_data_fv_bytes() -> Seq<u8> {
    seq![
        0x8du8, 0x2b, 0xf1, 0xff, 0x96, 0x76, 0x8b, 0x4c,
        0xa9, 0x85, 0x27, 0x47, 0x07, 0x5b, 0x4f, 0x50,
    ]
}

/// The bytes of `aaf32c78-947b-439a-a180-2e144ec37792`, the signature of an
/// authenticated variable store.
pub open spec fn authenticated_variable_bytes() -> Seq<u8> {
    seq![
        0x78u8, 0x2c, 0xf3, 0xaa, 0x7b, 0x94, 0x9a, 0x43,
        0xa1, 0x80, 0x2e, 0x14, 0x4e, 0xc3, 0x77, 0x92,
    ]
}

impl Guid {
    /// The GUID with the given on-flash bytes.
    pub fn from_bytes(bytes: [u8; 16]) -> (r: Guid)
        ensures
            r@ == bytes@,
    {
        Guid { bytes }
    }

    /// The type GUID of a firmware volume that holds non-volatile data.
    pub fn system_nv_data_fv() -> (r: Guid)
        ensures
            r@ == system_nv_data_fv_bytes(),
    {
        let r = Guid {
            bytes: [
                0x8d, 0x2b, 0xf1, 0xff, 0x96, 0x76, 0x8b, 0x4c,
                0xa9, 0x85, 0x27, 0x47, 0x07, 0x5b, 0x4f, 0x50,
            ],
        };
        assert(r@ =~= system_nv_data_fv_bytes());
        r
    }

    /// The signature GUID of an authenticated variable store.
    pub fn authenticated_variable() -> (r: Guid)
        ensures
            r@ == authenticated_variable_bytes(),
    {
        let r = Guid {
            bytes: [
                0x78, 0x2c, 0xf3, 0xaa, 0x7b, 0x94, 0x9a, 0x43,
                0xa1, 0x80, 0x2e, 0x14, 0x4e, 0xc3, 0x77, 0x92,
            ],
        };
        assert(r@ =~= authenticated_variable_bytes());
        r
    }
}

impl PartialEq for Guid {
    fn eq(&self, other: &Guid) -> (r: bool) {
        let mut k: usize = 0;
        while k < 16
            invariant
                k <= 16,
                forall|m: int| 0 <= m < k ==> self@[m] == other@[m],
            decreases 16 - k,
        {
            if self.bytes[k] != other.bytes[k] {
                return false;
            }
            k = k + 1;
        }
        assert(self@ =~= other@);
        true
    }
}

impl vstd::std_specs::cmp::PartialEqSpecImpl for Guid {
    open spec fn obeys_eq_spec() -> bool {
        true
    }

    open spec fn eq_spec(&self, other: &Guid) -> bool {
        self@ == other@
    }
}

impl Eq for Guid {
}

} // verus!
