//! The record walkers: the legacy compact layout and the layout that follows
//! the firmware-volume-block and variable-store headers.

use vstd::prelude::*;
use crate::bytes::{align4, align_up4, le16, le32, read_u32};
use crate::header::{
    AuthenticatedVariableHeader, AUTHENTICATED_VARIABLE_HEADER_SIZE, FVB_HEADER_SIZE,
    VARIABLE_STORE_HEADER_SIZE, VARIABLE_START_ID,
};
use crate::varmap::{pairs_map, VarMap};

verus! {

/// A keysize that marks the end of the entries in the compact layout.
pub open spec fn is_sentinel(keysize: int) -> bool {
    keysize == 0 || keysize == 0xFFFF_FFFF
}

/// The compact records read from offset `i` on: at each step an 8-byte
/// header of key and value sizes, the key, the value, one delimiter byte and
/// padding to a multiple of four.
pub open spec fn v1_walk(d: Seq<u8>, i: int) -> Seq<(Seq<u8>, Seq<u8>)>
    decreases d.len() + 4 - i,
{
    if i < 0 || i + 8 > d.len() {
        seq![]
    } else {
        let ks = le32(d, i);
        let vs = le32(d, i + 4);
        let j = i + 8;
        if is_sentinel(ks) || j + ks + vs >= d.len() {
            seq![]
        } else {
            seq![(d.subrange(j, j + ks), d.subrange(j + ks, j + ks + vs))] + v1_walk(
                d,
                align4(j + ks + vs + 1),
            )
        }
    }
}

/// The (key, value) records of a compact store, in the order they are stored.
pub open spec fn v1_records(d: Seq<u8>) -> Seq<(Seq<u8>, Seq<u8>)> {
    v1_walk(d, 0)
}

/// Where the variable records of a firmware-volume-block store begin.
pub open spec fn v2_start() -> int {
    FVB_HEADER_SIZE + VARIABLE_STORE_HEADER_SIZE
}

/// The authenticated-variable records read from offset `i` on, each as
/// (name, (vendor GUID, data)).
pub open spec fn v2_walk(d: Seq<u8>, i: int) -> Seq<(Seq<u8>, (Seq<u8>, Seq<u8>))>
    decreases d.len() + 4 - i,
{
    if i < 0 || i + AUTHENTICATED_VARIABLE_HEADER_SIZE > d.len() {
        seq![]
    } else {
        let ns = le32(d, i + 36);
        let ds = le32(d, i + 40);
        let j = i + AUTHENTICATED_VARIABLE_HEADER_SIZE;
        if le16(d, i) != VARIABLE_START_ID || ns == 0 || j + ns + ds >= d.len() {
            seq![]
        } else {
            seq![
                (d.subrange(j, j + ns), (d.subrange(i + 44, i + 60), d.subrange(j + ns, j + ns + ds))),
            ] + v2_walk(d, align4(j + ns + ds))
        }
    }
}

/// The records of a firmware-volume-block store, in the order they are stored.
pub open spec fn v2_records(d: Seq<u8>) -> Seq<(Seq<u8>, (Seq<u8>, Seq<u8>))> {
    v2_walk(d, v2_start())
}

/// A variable of the firmware-volume-block layout: its vendor GUID and data.
pub struct Variable {
    pub guid: crate::guid::Guid,
    pub data: Vec<u8>,
}

impl View for Variable {
    type V = (Seq<u8>, Seq<u8>);

    open spec fn view(&self) -> (Seq<u8>, Seq<u8>) {
        (self.guid@, self.data@)
    }
}

/// Decodes a compact store into a map from raw key bytes to value bytes; a
/// later record replaces an earlier one with the same key.
pub fn deserialize_v1(data: &[u8]) -> (r: VarMap<Vec<u8>>)
    ensures
        r.wf(),
        r@ == pairs_map(v1_records(data@)),
{
    let ghost d = data@;
    let n = data.len();
    let mut map: VarMap<Vec<u8>> = VarMap::new();
    let ghost mut seen: Seq<(Seq<u8>, Seq<u8>)> = seq![];
    let mut i: usize = 0;
    loop
        invariant_except_break
            seen + v1_walk(d, i as int) == v1_records(d),
        invariant
            n == d.len(),
            d == data@,
            map.wf(),
            map@ == pairs_map(seen),
            i <= n + 3,
        ensures
            seen == v1_records(d),
        decreases n + 4 - i,
    {
        if i > n || n - i < 8 {
            assert(v1_walk(d, i as int) =~= seq![]);
            assert(seen + seq![] =~= seen);
            break;
        }
        let ks = read_u32(data, i) as usize;
        let vs = read_u32(data, i + 4) as usize;
        let j = i + 8;
        if ks == 0 || ks == 0xFFFF_FFFF || ks >= n - j || vs >= n - j - ks {
            assert(v1_walk(d, i as int) =~= seq![]);
            assert(seen + seq![] =~= seen);
            break;
        }
        let e = j + ks + vs;
        let ghost rec = (d.subrange(j as int, j + ks), d.subrange(j + ks, e as int));
        assert(v1_walk(d, i as int) == seq![rec] + v1_walk(d, align4(e + 1)));
        map.insert(vstd::slice::slice_to_vec(&data[j..j + ks]), vstd::slice::slice_to_vec(&data[j + ks..e]));
        proof {
            assert(seen.push(rec).drop_last() =~= seen);
            assert(seen.push(rec) + v1_walk(d, align4(e + 1)) =~= seen + v1_walk(d, i as int));
            seen = seen.push(rec);
        }
        if e + 1 > usize::MAX - 3 {
            assert(v1_walk(d, align4(e + 1)) =~= seq![]);
            assert(seen + seq![] =~= seen);
            break;
        }
        i = align_up4(e + 1);
    }
    map
}

/// Decodes the variable records of a firmware-volume-block store into a map
/// from name bytes to vendor GUID and data; a later record replaces an
/// earlier one with the same name.
pub fn deserialize_v2(data: &[u8]) -> (r: VarMap<Variable>)
    ensures
        r.wf(),
        r@ == pairs_map(v2_records(data@)),
{
    let ghost d = data@;
    let n = data.len();
    let mut map: VarMap<Variable> = VarMap::new();
    let ghost mut seen: Seq<(Seq<u8>, (Seq<u8>, Seq<u8>))> = seq![];
    let mut i: usize = FVB_HEADER_SIZE + VARIABLE_STORE_HEADER_SIZE;
    loop
        invariant_except_break
            seen + v2_walk(d, i as int) == v2_records(d),
        invariant
            n == d.len(),
            d == data@,
            map.wf(),
            map@ == pairs_map(seen),
            i <= n + 100,
        ensures
            seen == v2_records(d),
        decreases n + 104 - i,
    {
        let h = match AuthenticatedVariableHeader::parse(data, i) {
            Ok(h) => h,
            Err(_) => {
                assert(v2_walk(d, i as int) =~= seq![]);
                assert(seen + seq![] =~= seen);
                break;
            },
        };
        let j = i + AUTHENTICATED_VARIABLE_HEADER_SIZE;
        let ns = h.name_size as usize;
        let ds = h.data_size as usize;
        if !h.is_valid() || ns == 0 || ns >= n - j || ds >= n - j - ns {
            assert(v2_walk(d, i as int) =~= seq![]);
            assert(seen + seq![] =~= seen);
            break;
        }
        let e = j + ns + ds;
        let ghost rec = (d.subrange(j as int, j + ns), (h.vendor_guid@, d.subrange(j + ns, e as int)));
        assert(h.vendor_guid@ == d.subrange(i + 44, i + 60));
        assert(v2_walk(d, i as int) == seq![rec] + v2_walk(d, align4(e as int)));
        let var = Variable { guid: h.vendor_guid, data: vstd::slice::slice_to_vec(&data[j + ns..e]) };
        map.insert(vstd::slice::slice_to_vec(&data[j..j + ns]), var);
        proof {
            assert(seen.push(rec).drop_last() =~= seen);
            assert(seen.push(rec) + v2_walk(d, align4(e as int)) =~= seen + v2_walk(d, i as int));
            seen = seen.push(rec);
        }
        if e > usize::MAX - 3 {
            assert(v2_walk(d, align4(e as int)) =~= seq![]);
            assert(seen + seq![] =~= seen);
            break;
        }
        i = align_up4(e);
    }
    map
}

} // verus!
