//! The fixed-layout headers of the firmware-volume-block store, decoded
//! field by field from little-endian bytes.

use vstd::prelude::*;
use crate::bytes::{le16, le32, le64, read_array, read_u16, read_u32, read_u64, read_u8};
use crate::guid::{authenticated_variable_bytes, system_nv_data_fv_bytes, Guid};

verus! {

/// Bytes taken by a firmware volume block header, block map included.
pub const FVB_HEADER_SIZE: usize = 72;

/// Bytes taken by a variable store header.
pub const VARIABLE_STORE_HEADER_SIZE: usize = 28;

/// Bytes taken by an authenticated variable header (packed, no padding).
pub const AUTHENTICATED_VARIABLE_HEADER_SIZE: usize = 60;

/// The revision a firmware volume block header must carry.
pub const FVH_REVISION: u8 = 2;

/// The marker that opens every authenticated variable record.
pub const VARIABLE_START_ID: u16 = 0x55AA;

/// The signature `"_FVH"` of a firmware volume block header.
pub open spec fn fvh_signature() -> Seq<u8> {
    seq![0x5fu8, 0x46, 0x56, 0x48]
}

/// Sixteen zero bytes.
pub open spec fn zero16() -> Seq<u8> {
    Seq::new(16, |i: int| 0u8)
}

/// Whether the first header-sized window of `b` carries the four checked
/// fields of a valid firmware volume block header.
pub open spec fn fvb_window_valid(b: Seq<u8>) -> bool {
    &&& b.len() >= FVB_HEADER_SIZE
    &&& b.subrange(0, 16) == zero16()
    &&& b.subrange(16, 32) == system_nv_data_fv_bytes()
    &&& b.subrange(40, 44) == fvh_signature()
    &&& b[55] == FVH_REVISION
}

/// Why a header could not be decoded.
#[derive(Clone, Copy, Debug, PartialEq, Eq, Structural)]
pub enum DecodeError {
    /// Fewer bytes are available than the header occupies.
    Truncated,
}

/// The header of a firmware volume block, as it opens the store.
#[derive(Clone, Copy, Debug)]
pub struct FvbHeader {
    pub zero_vector: [u8; 16],
    pub guid: Guid,
    pub volume_length: u64,
    pub signature: [u8; 4],
    pub attributes: u32,
    pub header_length: u16,
    pub checksum: u16,
    pub ext_header_offset: u16,
    pub reserved: u8,
    pub revision: u8,
    pub block_map: [(u32, u32); 2],
}

impl FvbHeader {
    /// Every field of `self` is the one stored in the first bytes of `b`.
    pub open spec fn decoded_from(self, b: Seq<u8>) -> bool {
        &&& self.zero_vector@ == b.subrange(0, 16)
        &&& self.guid@ == b.subrange(16, 32)
        &&& self.volume_length == le64(b, 32)
        &&& self.signature@ == b.subrange(40, 44)
        &&& self.attributes == le32(b, 44)
        &&& self.header_length == le16(b, 48)
        &&& self.checksum == le16(b, 50)
        &&& self.ext_header_offset == le16(b, 52)
        &&& self.reserved == b[54]
        &&& self.revision == b[55]
        &&& self.block_map@[0] == (le32(b, 56) as u32, le32(b, 60) as u32)
        &&& self.block_map@[1] == (le32(b, 64) as u32, le32(b, 68) as u32)
    }

    /// All four checked fields hold their required values.
    pub open spec fn valid(self) -> bool {
        &&& self.zero_vector@ == zero16()
        &&& self.guid@ == system_nv_data_fv_bytes()
        &&& self.signature@ == fvh_signature()
        &&& self.revision == FVH_REVISION
    }

    /// Decodes the header from the first bytes of `b`.
    pub fn parse(b: &[u8]) -> (r: Result<FvbHeader, DecodeError>)
        ensures
            b@.len() < FVB_HEADER_SIZE <==> r is Err,
            r matches Err(e) ==> e == DecodeError::Truncated,
            r matches Ok(h) ==> h.decoded_from(b@),
    {
        if b.len() < FVB_HEADER_SIZE {
            return Err(DecodeError::Truncated);
        }
        let h = FvbHeader {
            zero_vector: read_array(b, 0),
            guid: Guid::from_bytes(read_array(b, 16)),
            volume_length: read_u64(b, 32),
            signature: read_array(b, 40),
            attributes: read_u32(b, 44),
            header_length: read_u16(b, 48),
            checksum: read_u16(b, 50),
            ext_header_offset: read_u16(b, 52),
            reserved: read_u8(b, 54),
            revision: read_u8(b, 55),
            block_map: [(read_u32(b, 56), read_u32(b, 60)), (read_u32(b, 64), read_u32(b, 68))],
        };
        Ok(h)
    }

    /// Whether the zero vector, type GUID, signature and revision all hold
    /// their required values; the other fields are not looked at.
    pub fn is_valid(&self) -> (r: bool)
        ensures
            r == self.valid(),
    {
        let mut k: usize = 0;
        while k < 16
            invariant
                k <= 16,
                forall|m: int| 0 <= m < k ==> self.zero_vector@[m] == 0,
            decreases 16 - k,
        {
            if self.zero_vector[k] != 0 {
                return false;
            }
            k = k + 1;
        }
        assert(self.zero_vector@ =~= zero16());
        let sig = self.signature;
        let sig_ok = sig[0] == 0x5f && sig[1] == 0x46 && sig[2] == 0x56 && sig[3] == 0x48;
        assert(sig_ok == (self.signature@ =~= fvh_signature()));
        self.guid == Guid::system_nv_data_fv() && sig_ok && self.revision == FVH_REVISION
    }
}

/// The header of the variable store that follows the firmware volume block
/// header.
#[derive(Clone, Copy, Debug)]
pub struct VariableStoreHeader {
    pub signature: Guid,
    pub size: u32,
    pub format: u8,
    pub state: u8,
    pub reserved: u16,
    pub reserved1: u32,
}

impl VariableStoreHeader {
    /// Every field of `self` is the one stored at `b[i..i + 28]`.
    pub open spec fn decoded_from(self, b: Seq<u8>, i: int) -> bool {
        &&& self.signature@ == b.subrange(i, i + 16)
        &&& self.size == le32(b, i + 16)
        &&& self.format == b[i + 20]
        &&& self.state == b[i + 21]
        &&& self.reserved == le16(b, i + 22)
        &&& self.reserved1 == le32(b, i + 24)
    }

    /// Decodes the header stored at `b[i]`.
    pub fn parse(b: &[u8], i: usize) -> (r: Result<VariableStoreHeader, DecodeError>)
        ensures
            i + VARIABLE_STORE_HEADER_SIZE > b@.len() <==> r is Err,
            r matches Err(e) ==> e == DecodeError::Truncated,
            r matches Ok(h) ==> h.decoded_from(b@, i as int),
    {
        if i > b.len() || b.len() - i < VARIABLE_STORE_HEADER_SIZE {
            return Err(DecodeError::Truncated);
        }
        Ok(VariableStoreHeader {
            signature: Guid::from_bytes(read_array(b, i)),
            size: read_u32(b, i + 16),
            format: read_u8(b, i + 20),
            state: read_u8(b, i + 21),
            reserved: read_u16(b, i + 22),
            reserved1: read_u32(b, i + 24),
        })
    }

    /// Whether the signature is the authenticated variable GUID.
    pub fn is_valid(&self) -> (r: bool)
        ensures
            r == (self.signature@ == authenticated_variable_bytes()),
    {
        self.signature == Guid::authenticated_variable()
    }
}

/// The header that opens each variable record of the firmware-volume-block
/// layout.
#[derive(Clone, Copy, Debug)]
pub struct AuthenticatedVariableHeader {
    pub start_id: u16,
    pub state: u8,
    pub reserved: u8,
    pub attributes: u32,
    pub monotonic_count: u64,
    pub timestamp: [u8; 16],
    pub pubkey_index: u32,
    pub name_size: u32,
    pub data_size: u32,
    pub vendor_guid: Guid,
}

impl AuthenticatedVariableHeader {
    /// Every field of `self` is the one stored at `b[i..i + 60]`.
    pub open spec fn decoded_from(self, b: Seq<u8>, i: int) -> bool {
        &&& self.start_id == le16(b, i)
        &&& self.state == b[i + 2]
        &&& self.reserved == b[i + 3]
        &&& self.attributes == le32(b, i + 4)
        &&& self.monotonic_count == le64(b, i + 8)
        &&& self.timestamp@ == b.subrange(i + 16, i + 32)
        &&& self.pubkey_index == le32(b, i + 32)
        &&& self.name_size == le32(b, i + 36)
        &&& self.data_size == le32(b, i + 40)
        &&& self.vendor_guid@ == b.subrange(i + 44, i + 60)
    }

    /// Decodes the header stored at `b[i]`.
    pub fn parse(b: &[u8], i: usize) -> (r: Result<AuthenticatedVariableHeader, DecodeError>)
        ensures
            i + AUTHENTICATED_VARIABLE_HEADER_SIZE > b@.len() <==> r is Err,
            r matches Err(e) ==> e == DecodeError::Truncated,
            r matches Ok(h) ==> h.decoded_from(b@, i as int),
    {
        if i > b.len() || b.len() - i < AUTHENTICATED_VARIABLE_HEADER_SIZE {
            return Err(DecodeError::Truncated);
        }
        Ok(AuthenticatedVariableHeader {
            start_id: read_u16(b, i),
            state: read_u8(b, i + 2),
            reserved: read_u8(b, i + 3),
            attributes: read_u32(b, i + 4),
            monotonic_count: read_u64(b, i + 8),
            timestamp: read_array(b, i + 16),
            pubkey_index: read_u32(b, i + 32),
            name_size: read_u32(b, i + 36),
            data_size: read_u32(b, i + 40),
            vendor_guid: Guid::from_bytes(read_array(b, i + 44)),
        })
    }

    /// Whether the record opens with the start marker.
    pub fn is_valid(&self) -> (r: bool)
        ensures
            r == (self.start_id == VARIABLE_START_ID),
    {
        self.start_id == VARIABLE_START_ID
    }
}

} // verus!
