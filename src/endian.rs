//! Big-endian unsigned integers of one to eight bytes, as they appear in a
//! frame header.
use byteorder::ByteOrder;
use vstd::prelude::*;

verus! {

/// `256` raised to the power `k`: the number of values that `k` bytes can hold.
pub open spec fn byte_span(k: nat) -> nat
    decreases k,
{
    if k == 0 {
        1
    } else {
        256 * byte_span((k - 1) as nat)
    }
}

/// The value of a byte sequence read most significant byte first.
pub open spec fn be_value(s: Seq<u8>) -> nat
    decreases s.len(),
{
    if s.len() == 0 {
        0
    } else {
        be_value(s.drop_last()) * 256 + s.last() as nat
    }
}

/// The `k` low bytes of `n`, most significant byte first.
pub open spec fn be_bytes(n: nat, k: nat) -> Seq<u8>
    decreases k,
{
    if k == 0 {
        Seq::empty()
    } else {
        be_bytes(n / 256, (k - 1) as nat).push((n % 256) as u8)
    }
}

pub proof fn lemma_byte_span_values()
    ensures
        byte_span(1) == 0x100,
        byte_span(2) == 0x1_0000,
        byte_span(3) == 0x100_0000,
        byte_span(8) == 0x1_0000_0000_0000_0000,
{
    reveal_with_fuel(byte_span, 9);
}

pub proof fn lemma_be_bytes_len(n: nat, k: nat)
    ensures
        be_bytes(n, k).len() == k,
    decreases k,
{
    if k > 0 {
        lemma_be_bytes_len(n / 256, (k - 1) as nat);
    }
}

pub proof fn lemma_be_value_bound(s: Seq<u8>)
    ensures
        be_value(s) < byte_span(s.len()),
    decreases s.len(),
{
    if s.len() > 0 {
        lemma_be_value_bound(s.drop_last());
        let v = be_value(s.drop_last());
        let b = byte_span((s.len() - 1) as nat);
        assert(v * 256 + (s.last() as nat) < 256 * b) by (nonlinear_arith)
            requires
                v < b,
                (s.last() as nat) < 256,
        ;
    }
}

/// Reading back the bytes of a value that fits gives the value.
pub proof fn lemma_be_value_of_bytes(n: nat, k: nat)
    requires
        n < byte_span(k),
    ensures
        be_value(be_bytes(n, k)) == n,
    decreases k,
{
    if k > 0 {
        let b = byte_span((k - 1) as nat);
        assert(n / 256 < b) by (nonlinear_arith)
            requires
                n < 256 * b,
        ;
        lemma_be_value_of_bytes(n / 256, (k - 1) as nat);
        let s = be_bytes(n, k);
        assert(s.drop_last() =~= be_bytes(n / 256, (k - 1) as nat));
    }
}

/// Writing out the value of a byte sequence gives the sequence.
pub proof fn lemma_be_bytes_of_value(s: Seq<u8>)
    ensures
        be_bytes(be_value(s), s.len()) == s,
    decreases s.len(),
{
    if s.len() > 0 {
        let v = be_value(s.drop_last());
        let n = v * 256 + s.last() as nat;
        assert(n / 256 == v && n % 256 == s.last() as nat) by (nonlinear_arith)
            requires
                n == v * 256 + s.last() as nat,
                (s.last() as nat) < 256,
        ;
        lemma_be_bytes_of_value(s.drop_last());
        assert(be_bytes(n, s.len()) =~= s);
    }
}

/// Relies on byteorder's `BigEndian::read_uint`: the first `nbytes` bytes of
/// `buf` as an unsigned integer, most significant byte first.
#[verifier::external_body]
pub(crate) fn read_be(buf: &[u8], nbytes: usize) -> (r: u64)
    requires
        1 <= nbytes <= 8,
        nbytes <= buf@.len(),
    ensures
        r as nat == be_value(buf@.take(nbytes as int)),
{
    byteorder::BigEndian::read_uint(buf, nbytes)
}

/// Relies on byteorder's `BigEndian::write_uint`: `n` written into `nbytes`
/// bytes, most significant byte first.
#[verifier::external_body]
pub(crate) fn write_be(n: u64, nbytes: usize) -> (r: Vec<u8>)
    requires
        1 <= nbytes <= 8,
        (n as nat) < byte_span(nbytes as nat),
    ensures
        r@ == be_bytes(n as nat, nbytes as nat),
{
    let mut buf = vec![0u8; nbytes];
    byteorder::BigEndian::write_uint(&mut buf, n, nbytes);
    buf
}

} // verus!
