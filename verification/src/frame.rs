//! Byte layouts: the counter that numbers problems of unknown contests, and
//! the frame that carries clipboard text between machines.

use vstd::prelude::*;

verus! {

/// `256^k`.
pub open spec fn pow256(k: nat) -> nat
    decreases k,
{
    if k == 0 {
        1
    } else {
        256 * pow256((k - 1) as nat)
    }
}

/// The number that big-endian bytes stand for.
pub open spec fn be_value(b: Seq<u8>) -> nat
    decreases b.len(),
{
    if b.len() == 0 {
        0
    } else {
        be_value(b.drop_last()) * 256 + b.last() as nat
    }
}

/// The `k` big-endian bytes of `v` (of `v mod 256^k`).
pub open spec fn be_bytes(v: nat, k: nat) -> Seq<u8>
    decreases k,
{
    if k == 0 {
        Seq::empty()
    } else {
        be_bytes(v / 256, (k - 1) as nat).push((v % 256) as u8)
    }
}

proof fn lemma_pow256_values()
    ensures
        pow256(4) == 4294967296,
        pow256(8) == 18446744073709551616,
{
    assert(pow256(0) == 1);
    assert(pow256(1) == 256);
    assert(pow256(2) == 65536);
    assert(pow256(3) == 16777216);
    assert(pow256(4) == 4294967296);
    assert(pow256(5) == 1099511627776);
    assert(pow256(6) == 281474976710656);
    assert(pow256(7) == 72057594037927936);
    assert(pow256(8) == 18446744073709551616);
}

proof fn lemma_pow256_pos(k: nat)
    ensures
        pow256(k) >= 1,
    decreases k,
{
    if k > 0 {
        lemma_pow256_pos((k - 1) as nat);
    }
}

/// Writing `v` in `k` big-endian bytes and reading them back gives `v`, when
/// it fits.
pub proof fn lemma_be_roundtrip(v: nat, k: nat)
    requires
        v < pow256(k),
    ensures
        be_bytes(v, k).len() == k,
        be_value(be_bytes(v, k)) == v,
    decreases k,
{
    if k == 0 {
    } else {
        let q = v / 256;
        let p = pow256((k - 1) as nat);
        assert(q < p) by (nonlinear_arith)
            requires
                v < 256 * p,
                q == v / 256,
        ;
        lemma_be_roundtrip(q, (k - 1) as nat);
        let b = be_bytes(v, k);
        assert(b.drop_last() =~= be_bytes(q, (k - 1) as nat));
        assert(q * 256 + v % 256 == v);
    }
}

/// The value of big-endian bytes is below `256^len`.
proof fn lemma_be_value_bound(b: Seq<u8>)
    ensures
        be_value(b) < pow256(b.len()),
    decreases b.len(),
{
    if b.len() > 0 {
        lemma_be_value_bound(b.drop_last());
        let x = be_value(b.drop_last());
        let p = pow256((b.len() - 1) as nat);
        let l = b.last() as nat;
        assert(x * 256 + l < 256 * p) by (nonlinear_arith)
            requires
                x < p,
                l < 256,
        ;
    }
}

fn be_bytes_exec(v: u64, k: usize) -> (r: Vec<u8>)
    requires
        k <= 8,
    ensures
        r@ == be_bytes(v as nat, k as nat),
    decreases k,
{
    if k == 0 {
        Vec::new()
    } else {
        let mut r = be_bytes_exec(v / 256, k - 1);
        r.push((v % 256) as u8);
        r
    }
}

fn be_value_exec(b: &[u8]) -> (r: u64)
    requires
        b.len() <= 8,
    ensures
        r == be_value(b@),
{
    let mut v: u64 = 0;
    let mut i: usize = 0;
    proof {
        lemma_pow256_values();
    }
    while i < b.len()
        invariant
            i <= b.len() <= 8,
            pow256(8) == 18446744073709551616,
            v == be_value(b@.take(i as int)),
        decreases b.len() - i,
    {
        proof {
            let t = b@.take(i + 1);
            assert(t.drop_last() =~= b@.take(i as int));
            lemma_be_value_bound(t);
            lemma_pow_mono(t.len(), 8);
        }
        v = v * 256 + b[i] as u64;
        i = i + 1;
    }
    assert(b@.take(i as int) =~= b@);
    v
}

proof fn lemma_pow_mono(a: nat, b: nat)
    requires
        a <= b,
    ensures
        pow256(a) <= pow256(b),
    decreases b,
{
    if a < b {
        lemma_pow_mono(a, (b - 1) as nat);
        lemma_pow256_pos((b - 1) as nat);
    }
}

/// The counter file's bytes for a problem number: four big-endian bytes.
pub fn encode_problem_id(id: u32) -> (r: Vec<u8>)
    ensures
        r@ == be_bytes(id as nat, 4),
        r@.len() == 4,
        be_value(r@) == id,
{
    proof {
        lemma_pow256_values();
        lemma_be_roundtrip(id as nat, 4);
    }
    be_bytes_exec(id as u64, 4)
}

/// The next problem number, from what was read of the counter file: the
/// stored number plus one when exactly four bytes were read, else none (the
/// file is damaged).
pub fn next_unknown_problem_id(read: &[u8]) -> (r: Option<u32>)
    requires
        read@.len() == 4 ==> be_value(read@) < u32::MAX,
    ensures
        read@.len() != 4 ==> r is None,
        read@.len() == 4 ==> r == Some((be_value(read@) + 1) as u32),
{
    if read.len() != 4 {
        return None;
    }
    let v = be_value_exec(read);
    Some((v + 1) as u32)
}

/// The number the counter file holds, when it holds four bytes.
pub fn stored_problem_id(read: &[u8]) -> (r: Option<u32>)
    ensures
        read@.len() != 4 ==> r is None,
        read@.len() == 4 ==> r == Some(be_value(read@) as u32) && be_value(read@) <= u32::MAX,
{
    if read.len() != 4 {
        return None;
    }
    proof {
        lemma_be_value_bound(read@);
        lemma_pow256_values();
    }
    let v = be_value_exec(read);
    Some(v as u32)
}

/// What stepping the counter reads back: after the number `id` is stored,
/// the next problem gets `id + 1`.
pub proof fn lemma_counter_step(id: u32)
    requires
        id < u32::MAX,
    ensures
        be_value(be_bytes(id as nat, 4)) == id,
        be_bytes(id as nat, 4).len() == 4,
{
    lemma_pow256_values();
    lemma_be_roundtrip(id as nat, 4);
}

/// The CRC-32 checksum of some bytes.
pub uninterp spec fn crc32_of(data: Seq<u8>) -> u32;

/// `crc32fast::hash`: the CRC-32 (IEEE) checksum of the bytes, named here.
#[verifier::external_body]
fn crc32(data: &[u8]) -> (r: u32)
    ensures
        r == crc32_of(data@),
{
    crc32fast::hash(data)
}

/// A clipboard frame: the text's length in eight big-endian bytes, its
/// checksum in four, then the text.
pub open spec fn frame_spec(msg: Seq<u8>) -> Seq<u8> {
    be_bytes(msg.len(), 8) + be_bytes(crc32_of(msg) as nat, 4) + msg
}

/// Frames clipboard text for sending.
pub fn encode_clipboard_frame(msg: &[u8]) -> (r: Vec<u8>)
    ensures
        r@ == frame_spec(msg@),
{
    let mut r = be_bytes_exec(msg.len() as u64, 8);
    let c = crc32(msg);
    let cb = be_bytes_exec(c as u64, 4);
    let mut k: usize = 0;
    let ghost r0 = r@;
    while k < cb.len()
        invariant
            k <= cb.len(),
            r@ == r0 + cb@.take(k as int),
        decreases cb.len() - k,
    {
        r.push(cb[k]);
        k = k + 1;
        assert(r@ =~= r0 + cb@.take(k as int));
    }
    assert(cb@.take(cb.len() as int) =~= cb@);
    let ghost r1 = r@;
    let mut j: usize = 0;
    while j < msg.len()
        invariant
            j <= msg.len(),
            r@ == r1 + msg@.take(j as int),
        decreases msg.len() - j,
    {
        r.push(msg[j]);
        j = j + 1;
        assert(r@ =~= r1 + msg@.take(j as int));
    }
    assert(msg@.take(msg.len() as int) =~= msg@);
    r
}

/// The text length and checksum that a frame's twelve header bytes carry.
pub fn decode_frame_header(header: &[u8]) -> (r: Option<(u64, u32)>)
    ensures
        header@.len() != 12 ==> r is None,
        header@.len() == 12 ==> r == Some(
            (be_value(header@.take(8)) as u64, be_value(header@.subrange(8, 12)) as u32),
        ),
{
    if header.len() != 12 {
        return None;
    }
    let mut a: Vec<u8> = Vec::new();
    let mut b: Vec<u8> = Vec::new();
    let mut i: usize = 0;
    while i < 12
        invariant
            i <= 12,
            header@.len() == 12,
            i <= 8 ==> a@ == header@.take(i as int) && b@.len() == 0,
            i > 8 ==> a@ == header@.take(8) && b@ == header@.subrange(8, i as int),
        decreases 12 - i,
    {
        if i < 8 {
            a.push(header[i]);
            assert(a@ =~= header@.take(i + 1));
        } else {
            b.push(header[i]);
            assert(b@ =~= header@.subrange(8, i + 1));
        }
        i = i + 1;
    }
    proof {
        lemma_be_value_bound(a@);
        lemma_be_value_bound(b@);
        lemma_pow256_values();
    }
    Some((be_value_exec(&a), be_value_exec(&b) as u32))
}

/// Whether received text matches the checksum its frame carried.
pub fn checksum_matches(msg: &[u8], checksum: u32) -> (r: bool)
    ensures
        r == (crc32_of(msg@) == checksum),
{
    crc32(msg) == checksum
}

/// A frame's header reads back the length and checksum of the text it
/// carries, and the text follows it unchanged.
pub proof fn lemma_frame_roundtrip(msg: Seq<u8>)
    requires
        msg.len() <= u64::MAX,
    ensures
        frame_spec(msg).len() == 12 + msg.len(),
        be_value(frame_spec(msg).take(8)) == msg.len(),
        be_value(frame_spec(msg).subrange(8, 12)) == crc32_of(msg),
        frame_spec(msg).skip(12) == msg,
{
    lemma_pow256_values();
    lemma_be_roundtrip(msg.len(), 8);
    lemma_be_roundtrip(crc32_of(msg) as nat, 4);
    let f = frame_spec(msg);
    assert(f.take(8) =~= be_bytes(msg.len(), 8));
    assert(f.subrange(8, 12) =~= be_bytes(crc32_of(msg) as nat, 4));
    assert(f.skip(12) =~= msg);
}

} // verus!
