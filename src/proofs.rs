//! Properties of the record walkers: encoding and decoding round trip, the
//! end-of-entries sentinel, and decoding of truncated buffers.

use vstd::prelude::*;
use crate::bytes::{align4, le16, le32};
use crate::varmap::pairs_map;
use crate::walker::{is_sentinel, v1_records, v1_walk, v2_records, v2_walk};

verus! {

/// The four little-endian bytes of `x`.
pub open spec fn u32_le(x: int) -> Seq<u8> {
    seq![
        (x % 256) as u8,
        ((x / 256) % 256) as u8,
        ((x / 65536) % 256) as u8,
        ((x / 16777216) % 256) as u8,
    ]
}

/// `n` zero bytes.
pub open spec fn zeros(n: int) -> Seq<u8> {
    Seq::new(n as nat, |i: int| 0u8)
}

/// One compact record as it is written: key size, value size, key, value,
/// a zero delimiter, and zero padding up to a multiple of four bytes.
#[verifier::opaque]
pub open spec fn v1_record_bytes(k: Seq<u8>, v: Seq<u8>) -> Seq<u8> {
    let body = 8 + k.len() + v.len() + 1int;
    u32_le(k.len() as int) + u32_le(v.len() as int) + k + v + seq![0u8] + zeros(align4(body) - body)
}

/// A sequence of compact records written one after another.
pub open spec fn v1_encode(recs: Seq<(Seq<u8>, Seq<u8>)>) -> Seq<u8>
    decreases recs.len(),
{
    if recs.len() == 0 {
        seq![]
    } else {
        v1_record_bytes(recs[0].0, recs[0].1) + v1_encode(recs.drop_first())
    }
}

/// Records that the compact layout can hold: keys neither empty nor of the
/// erased-flash size, sizes that fit in 32 bits.
pub open spec fn v1_encodable(recs: Seq<(Seq<u8>, Seq<u8>)>) -> bool {
    forall|i: int|
        0 <= i < recs.len() ==> 0 < (#[trigger] recs[i]).0.len() < 0xFFFF_FFFF && recs[i].1.len()
            <= 0xFFFF_FFFF
}

proof fn lemma_u32_le(p: Seq<u8>, x: int, t: Seq<u8>)
    requires
        0 <= x < 0x1_0000_0000,
    ensures
        le32(p + u32_le(x) + t, p.len() as int) == x,
{
    let d = p + u32_le(x) + t;
    let o = p.len() as int;
    assert(d[o] == (x % 256) as u8);
    assert(d[o + 1] == ((x / 256) % 256) as u8);
    assert(d[o + 2] == ((x / 65536) % 256) as u8);
    assert(d[o + 3] == ((x / 16777216) % 256) as u8);
    assert(x % 256 + ((x / 256) % 256) * 256 + ((x / 65536) % 256) * 65536 + ((x / 16777216) % 256)
        * 16777216 == x) by (nonlinear_arith)
        requires
            0 <= x < 0x1_0000_0000,
    ;
}

proof fn lemma_v1_shift(p: Seq<u8>, t: Seq<u8>, i: int)
    requires
        p.len() % 4 == 0,
        0 <= i,
    ensures
        v1_walk(p + t, p.len() + i) == v1_walk(t, i),
    decreases t.len() + 4 - i,
{
    let d = p + t;
    let o = p.len() as int;
    if i + 8 <= t.len() {
        assert(le32(d, o + i) == le32(t, i));
        assert(le32(d, o + i + 4) == le32(t, i + 4));
        let ks = le32(t, i);
        let vs = le32(t, i + 4);
        let j = i + 8;
        if !is_sentinel(ks) && j + ks + vs < t.len() {
            assert(d.subrange(o + j, o + j + ks) =~= t.subrange(j, j + ks));
            assert(d.subrange(o + j + ks, o + j + ks + vs) =~= t.subrange(j + ks, j + ks + vs));
            assert(align4(o + j + ks + vs + 1) == o + align4(j + ks + vs + 1));
            lemma_v1_shift(p, t, align4(j + ks + vs + 1));
        }
    }
}

proof fn lemma_v1_one(k: Seq<u8>, v: Seq<u8>, t: Seq<u8>)
    requires
        0 < k.len() < 0xFFFF_FFFF,
        v.len() <= 0xFFFF_FFFF,
    ensures
        v1_walk(v1_record_bytes(k, v) + t, 0) == seq![(k, v)] + v1_walk(t, 0),
{
    reveal(v1_record_bytes);
    let r = v1_record_bytes(k, v);
    let d = r + t;
    let ks = k.len() as int;
    let vs = v.len() as int;
    let tail = k + v + seq![0u8] + zeros(align4(9 + ks + vs) - (9 + ks + vs));
    assert(r =~= u32_le(ks) + u32_le(vs) + tail);
    assert(d =~= seq![] + u32_le(ks) + (u32_le(vs) + tail + t));
    lemma_u32_le(seq![], ks, u32_le(vs) + tail + t);
    assert(d =~= u32_le(ks) + u32_le(vs) + (tail + t));
    lemma_u32_le(u32_le(ks), vs, tail + t);
    assert(d.subrange(8, 8 + ks) =~= k);
    assert(d.subrange(8 + ks, 8 + ks + vs) =~= v);
    assert(r.len() == align4(8 + ks + vs + 1));
    assert(v1_walk(d, 0) == seq![(k, v)] + v1_walk(d, align4(8 + ks + vs + 1)));
    lemma_v1_shift(r, t, 0);
}

proof fn lemma_v1_encode_walk(recs: Seq<(Seq<u8>, Seq<u8>)>, t: Seq<u8>)
    requires
        v1_encodable(recs),
    ensures
        v1_records(v1_encode(recs) + t) == recs + v1_records(t),
    decreases recs.len(),
{
    if recs.len() == 0 {
        assert(v1_encode(recs) + t =~= t);
        assert(recs + v1_records(t) =~= v1_records(t));
    } else {
        let r0 = recs[0];
        let rest = recs.drop_first();
        assert(v1_encodable(rest)) by {
            assert forall|i: int| 0 <= i < rest.len() implies 0 < (#[trigger] rest[i]).0.len()
                < 0xFFFF_FFFF && rest[i].1.len() <= 0xFFFF_FFFF by {
                assert(rest[i] == recs[i + 1]);
            }
        }
        lemma_v1_encode_walk(rest, t);
        assert(v1_encode(recs) + t =~= v1_record_bytes(r0.0, r0.1) + (v1_encode(rest) + t));
        lemma_v1_one(r0.0, r0.1, v1_encode(rest) + t);
        assert(recs + v1_records(t) =~= seq![(r0.0, r0.1)] + (rest + v1_records(t)));
    }
}

/// Writing compact records and decoding the result gives back the same
/// records in the same order, so the decoded map is the one where a later
/// record replaces an earlier one with the same key.
pub proof fn v1_round_trip(recs: Seq<(Seq<u8>, Seq<u8>)>)
    requires
        v1_encodable(recs),
    ensures
        v1_records(v1_encode(recs)) == recs,
        pairs_map(v1_records(v1_encode(recs))) == pairs_map(recs),
{
    lemma_v1_encode_walk(recs, seq![]);
    assert(v1_encode(recs) + seq![] =~= v1_encode(recs));
    assert(recs + v1_records(seq![]) =~= recs);
}

/// Decoding stops at a key size of zero or of all ones: whatever follows
/// such a field, only the records before it are decoded.
pub proof fn v1_sentinel_stops(recs: Seq<(Seq<u8>, Seq<u8>)>, t: Seq<u8>)
    requires
        v1_encodable(recs),
        t.len() >= 4,
        is_sentinel(le32(t, 0)),
    ensures
        v1_records(v1_encode(recs) + t) == recs,
{
    lemma_v1_encode_walk(recs, t);
    assert(v1_records(t) =~= seq![]);
    assert(recs + seq![] =~= recs);
}

proof fn lemma_v1_take_prefix(d: Seq<u8>, n: int, i: int)
    requires
        0 <= n <= d.len(),
    ensures
        v1_walk(d.take(n), i).is_prefix_of(v1_walk(d, i)),
    decreases d.len() + 4 - i,
{
    let s = d.take(n);
    if i >= 0 && i + 8 <= n {
        assert(le32(s, i) == le32(d, i));
        assert(le32(s, i + 4) == le32(d, i + 4));
        let ks = le32(d, i);
        let vs = le32(d, i + 4);
        let j = i + 8;
        if !is_sentinel(ks) && j + ks + vs < n {
            assert(s.subrange(j, j + ks) =~= d.subrange(j, j + ks));
            assert(s.subrange(j + ks, j + ks + vs) =~= d.subrange(j + ks, j + ks + vs));
            let nx = align4(j + ks + vs + 1);
            lemma_v1_take_prefix(d, n, nx);
            let a = v1_walk(s, nx);
            let b = v1_walk(d, nx);
            let r = (d.subrange(j, j + ks), d.subrange(j + ks, j + ks + vs));
            assert((seq![r] + b).subrange(0, 1 + a.len() as int) =~= seq![r] + b.subrange(0, a.len() as int));
        }
    }
    if !(i >= 0 && i + 8 <= n) || v1_walk(s, i).len() == 0 {
        assert(v1_walk(s, i).len() == 0 ==> v1_walk(s, i) =~= v1_walk(d, i).subrange(0, 0));
    }
}

/// Decoding a compact store cut short at any length gives a prefix of the
/// records of the whole store.
pub proof fn v1_truncation_prefix(d: Seq<u8>, n: int)
    requires
        0 <= n <= d.len(),
    ensures
        v1_records(d.take(n)).is_prefix_of(v1_records(d)),
{
    lemma_v1_take_prefix(d, n, 0);
}

proof fn lemma_v2_take_prefix(d: Seq<u8>, n: int, i: int)
    requires
        0 <= n <= d.len(),
    ensures
        v2_walk(d.take(n), i).is_prefix_of(v2_walk(d, i)),
    decreases d.len() + 4 - i,
{
    let s = d.take(n);
    if i >= 0 && i + 60 <= n {
        assert(le16(s, i) == le16(d, i));
        assert(le32(s, i + 36) == le32(d, i + 36));
        assert(le32(s, i + 40) == le32(d, i + 40));
        let ns = le32(d, i + 36);
        let ds = le32(d, i + 40);
        let j = i + 60;
        if le16(d, i) == 0x55AA && ns != 0 && j + ns + ds < n {
            assert(s.subrange(j, j + ns) =~= d.subrange(j, j + ns));
            assert(s.subrange(i + 44, i + 60) =~= d.subrange(i + 44, i + 60));
            assert(s.subrange(j + ns, j + ns + ds) =~= d.subrange(j + ns, j + ns + ds));
            let nx = align4(j + ns + ds);
            lemma_v2_take_prefix(d, n, nx);
            let a = v2_walk(s, nx);
            let b = v2_walk(d, nx);
            let r = (
                d.subrange(j, j + ns),
                (d.subrange(i + 44, i + 60), d.subrange(j + ns, j + ns + ds)),
            );
            assert((seq![r] + b).subrange(0, 1 + a.len() as int) =~= seq![r] + b.subrange(0, a.len() as int));
        }
    }
    if !(i >= 0 && i + 60 <= n) || v2_walk(s, i).len() == 0 {
        assert(v2_walk(s, i).len() == 0 ==> v2_walk(s, i) =~= v2_walk(d, i).subrange(0, 0));
    }
}

/// Decoding a firmware-volume-block store cut short at any length gives a
/// prefix of the records of the whole store.
pub proof fn v2_truncation_prefix(d: Seq<u8>, n: int)
    requires
        0 <= n <= d.len(),
    ensures
        v2_records(d.take(n)).is_prefix_of(v2_records(d)),
{
    lemma_v2_take_prefix(d, n, crate::walker::v2_start());
}

} // verus!
