//! Splitting a compact key into its vendor GUID and UTF-16LE name.

use vstd::prelude::*;
use crate::bytes::{le16, read_array, read_u16};
use crate::guid::Guid;

verus! {

/// Bytes taken by a GUID at the start of a compact key.
pub const GUID_SIZE: usize = 16;

/// The UTF-16 code units of `b` from offset `j` on, read in little-endian
/// pairs until a zero unit or until fewer than two bytes remain.
pub open spec fn utf16_units(b: Seq<u8>, j: int) -> Seq<u16>
    decreases b.len() - j,
{
    if j < 0 || j + 1 >= b.len() || le16(b, j) == 0 {
        seq![]
    } else {
        seq![le16(b, j) as u16] + utf16_units(b, j + 2)
    }
}

/// Decodes the name that starts at `b[start]`.
pub fn decode_name(b: &[u8], start: usize) -> (r: Vec<u16>)
    ensures
        r@ == utf16_units(b@, start as int),
{
    let n = b.len();
    let mut r: Vec<u16> = Vec::new();
    let mut j: usize = start;
    loop
        invariant_except_break
            r@ + utf16_units(b@, j as int) == utf16_units(b@, start as int),
        invariant
            n == b@.len(),
            j >= start,
        ensures
            r@ == utf16_units(b@, start as int),
        decreases n - j + 1,
    {
        if j >= n || n - j < 2 {
            assert(r@ + seq![] =~= r@);
            break;
        }
        let w = read_u16(b, j);
        if w == 0 {
            assert(r@ + seq![] =~= r@);
            break;
        }
        proof {
            assert(r@.push(w) + utf16_units(b@, j + 2) =~= r@ + utf16_units(b@, j as int));
        }
        r.push(w);
        j = j + 2;
    }
    r
}

/// A compact key taken apart.
pub struct SplitKey {
    pub guid: Guid,
    pub name: Vec<u16>,
}

/// Splits a compact key into its leading GUID and the name after it; a key
/// no longer than a GUID is malformed and gives `None`.
pub fn split_key(key: &[u8]) -> (r: Option<SplitKey>)
    ensures
        r is None <==> key@.len() <= GUID_SIZE,
        r matches Some(s) ==> s.guid@ == key@.subrange(0, 16) && s.name@ == utf16_units(
            key@,
            16,
        ),
{
    if key.len() <= GUID_SIZE {
        return None;
    }
    let guid = Guid::from_bytes(read_array(key, 0));
    Some(SplitKey { guid, name: decode_name(key, GUID_SIZE) })
}

/// Whether a compact record is listed: its key holds a GUID and a name, and
/// its value is not empty.
pub fn v1_entry_shown(key: &[u8], value: &[u8]) -> (r: bool)
    ensures
        r == (key@.len() > GUID_SIZE && value@.len() > 0),
{
    key.len() > GUID_SIZE && !value.is_empty()
}

/// Code units that stand for a character on their own (not surrogates).
pub open spec fn is_scalar_unit(u: u16) -> bool {
    u < 0xD800 || u > 0xDFFF
}

/// The characters of `units`, surrogate units left out.
pub open spec fn scalar_units(units: Seq<u16>) -> Seq<u16> {
    units.filter(|u: u16| is_scalar_unit(u))
}

/// Relies on `char::from_u32`: it gives the character whose scalar value is
/// `u` when `u` is a Unicode scalar value, and `None` for surrogates and
/// values above `0x10FFFF`.
#[verifier::external_body]
fn char_from_u32(u: u32) -> (r: Option<char>)
    ensures
        r is Some <==> (u < 0xD800 || (0xDFFF < u && u <= 0x10FFFF)),
        r matches Some(c) ==> c as u32 == u,
{
    char::from_u32(u)
}

/// The characters a name spells, each surrogate unit left out.
pub fn name_chars(units: &[u16]) -> (r: Vec<char>)
    ensures
        r@.len() == scalar_units(units@).len(),
        forall|i: int| 0 <= i < r@.len() ==> r@[i] as u32 == scalar_units(units@)[i],
{
    let mut r: Vec<char> = Vec::new();
    let mut k: usize = 0;
    while k < units.len()
        invariant
            k <= units@.len(),
            r@.len() == scalar_units(units@.subrange(0, k as int)).len(),
            forall|i: int|
                0 <= i < r@.len() ==> r@[i] as u32 == scalar_units(units@.subrange(0, k as int))[i],
        decreases units@.len() - k,
    {
        let u = units[k];
        proof {
            let pre = units@.subrange(0, k as int);
            assert(units@.subrange(0, k + 1) =~= pre.push(u));
            pre.lemma_filter_push(u, |u: u16| is_scalar_unit(u));
        }
        match char_from_u32(u as u32) {
            Some(c) => {
                r.push(c);
            },
            None => {},
        }
        k = k + 1;
    }
    assert(units@.subrange(0, units@.len() as int) =~= units@);
    r
}

} // verus!
