//! Laws of vectors: how they are written, and what their numbers are worth.

use crate::number::signed_decimal;
use crate::proxy::pg_binary::{
    doublings, halfvec_value, join_pieces, plain, power_of_two, sparsevec_value, vector_value, widened_half,
    FloatBits, Piece,
};
use crate::proxy::wire::{be_int, be_uint, field};
use vstd::prelude::*;

verus! {

proof fn lemma_doublings(m: nat)
    requires
        0 < m < 2048,
    ensures
        1024 <= m * power_of_two(doublings(m) as int) < 2048,
        m >= 1024 ==> doublings(m) == 0,
        doublings(m) <= 10,
    decreases 2048 - m,
{
    lemma_doublings_bound(m, 0);
    if m >= 1024 {
        assert(power_of_two(0) == 1);
        let one = power_of_two(0);
        assert(m * one == m) by (nonlinear_arith)
            requires
                one == 1,
        ;
    } else {
        lemma_doublings(2 * m);
        let k = doublings(2 * m) as int;
        let p = power_of_two(k);
        let q = power_of_two(k + 1);
        assert(q == 2 * p);
        assert(m * q == 2 * m * p) by (nonlinear_arith)
            requires
                q == 2 * p,
        ;
        assert(doublings(m) == k + 1);
    }
}

proof fn lemma_doublings_bound(m: nat, k: nat)
    requires
        0 < m < 2048,
        k <= 10,
        m >= power_of_two(k as int),
    ensures
        doublings(m) + k <= 10,
    decreases 2048 - m,
{
    assert(power_of_two(10) == 1024) by {
        reveal_with_fuel(power_of_two, 11);
    }
    if m < 1024 {
        assert(k < 10);
        assert(power_of_two(k as int + 1) == 2 * power_of_two(k as int));
        lemma_doublings_bound(2 * m, k + 1);
    } else {
    }
}

/// A half-precision number keeps its sign and its value in single precision.
/// A normal one of exponent `e` and mantissa `m`, worth `(1024 + m) * 2^(e - 25)`,
/// has the exponent `e + 112` and the mantissa `8192 * m`, worth
/// `(2^23 + 8192 * m) * 2^(e - 38)`. A small one of mantissa `m`, worth
/// `m * 2^-24`, has an exponent `x` and a mantissa `y`, worth
/// `(2^23 + y) * 2^(x - 150)`, with `2^23 + y` equal to `m * 2^(126 - x)`. Zero
/// stays zero, and what is no number stays none.
pub proof fn law_half_precision_keeps_its_value(bits: u16)
    ensures
        ({
            let w = widened_half(bits) as int;
            let e = (bits as int / 1024) % 32;
            let m = bits as int % 1024;
            let x = (w / 8388608) % 256;
            let y = w % 8388608;
            &&& 0 <= w < 4294967296
            &&& w / 2147483648 == bits as int / 32768
            &&& 0 < e < 31 ==> x == e + 112 && y == 8192 * m
            &&& e == 31 ==> x == 255 && y == 8192 * m
            &&& e == 0 && m == 0 ==> x == 0 && y == 0
            &&& e == 0 && m > 0 ==> 0 < x < 113 && 8388608 + y == m * power_of_two(126 - x)
        }),
{
    let sign = bits as int / 32768;
    let e = (bits as int / 1024) % 32;
    let m = bits as int % 1024;
    assert(sign == 0 || sign == 1);
    if e == 0 && m > 0 {
        lemma_doublings(m as nat);
        let k = doublings(m as nat) as int;
        let p = power_of_two(k) as int;
        let low = (113 - k) * 8388608 + (m * p - 1024) * 8192;
        assert(k >= 1) by {
            if k == 0 {
                assert(doublings(m as nat) == 1 + doublings(2 * m as nat));
            }
        }
        assert(0 <= m * p - 1024 < 1024);
        assert(widened_half(bits) == sign * 2147483648 + low);
        let w = widened_half(bits) as int;
        assert(low / 8388608 == 113 - k && low % 8388608 == (m * p - 1024) * 8192);
        assert((w / 8388608) % 256 == 113 - k);
        assert(w % 8388608 == (m * p - 1024) * 8192);
        lemma_power_adds(k, 13);
        assert(power_of_two(13) == 8192) by {
            reveal_with_fuel(power_of_two, 14);
        }
        let big = power_of_two(k + 13) as int;
        assert(m * p * 8192 == m * big) by (nonlinear_arith)
            requires
                big == p * 8192,
        ;
    }
}

proof fn lemma_power_adds(a: int, b: int)
    requires
        0 <= a,
        0 <= b,
    ensures
        power_of_two(a + b) == power_of_two(a) * power_of_two(b),
    decreases b,
{
    if b > 0 {
        lemma_power_adds(a, b - 1);
        let x = power_of_two(a);
        let y = power_of_two(b - 1);
        assert(x * (2 * y) == 2 * (x * y)) by (nonlinear_arith);
    } else {
        let x = power_of_two(a);
        let one = power_of_two(0);
        assert(one == 1);
        assert(x * one == x) by (nonlinear_arith)
            requires
                one == 1,
        ;
    }
}

/// The numbers of a vector in brackets, with commas.
pub open spec fn in_brackets(parts: Seq<Seq<Piece>>) -> Seq<Piece> {
    plain("["@) + join_pieces(parts, plain(","@)) + plain("]"@)
}

/// A vector is its numbers, as many as it says, in their order in brackets; one
/// whose length is not that of its numbers is not decoded.
pub proof fn law_vector_is_read(b: Seq<u8>, parts: Seq<Seq<Piece>>)
    requires
        b.len() >= 4,
    ensures
        ({
            let n = be_int(b.subrange(0, 2));
            &&& n < 0 || b.len() != 4 + 4 * n ==> vector_value(b) is None
            &&& n >= 0 && b.len() == 4 + 4 * n && parts.len() == n && (forall|i: int|
                0 <= i < n ==> #[trigger] parts[i] == seq![
                    Piece::Float(FloatBits::Single(be_uint(b.subrange(4 + 4 * i, 8 + 4 * i)) as u32)),
                ]) ==> vector_value(b) == Some(in_brackets(parts))
            &&& n < 0 || b.len() != 4 + 2 * n ==> halfvec_value(b) is None
            &&& n >= 0 && b.len() == 4 + 2 * n && parts.len() == n && (forall|i: int|
                0 <= i < n ==> #[trigger] parts[i] == seq![
                    Piece::Float(
                        FloatBits::Single(widened_half(be_uint(b.subrange(4 + 2 * i, 6 + 2 * i)) as u16) as u32),
                    ),
                ]) ==> halfvec_value(b) == Some(in_brackets(parts))
        }),
{
    let n = be_int(b.subrange(0, 2));
    assert(field(b, 0, 2) =~= b.subrange(0, 2));
    if n >= 0 && b.len() == 4 + 4 * n && parts.len() == n && (forall|i: int|
        0 <= i < n ==> #[trigger] parts[i] == seq![
            Piece::Float(FloatBits::Single(be_uint(b.subrange(4 + 4 * i, 8 + 4 * i)) as u32)),
        ]) {
        let own = crate::proxy::pg_binary::vector_parts(b, n as nat);
        assert forall|i: int| 0 <= i < n implies #[trigger] own[i] == parts[i] by {
            assert(field(b, 4 + 4 * i, 4) =~= b.subrange(4 + 4 * i, 8 + 4 * i));
        }
        assert(own =~= parts);
    }
    if n >= 0 && b.len() == 4 + 2 * n && parts.len() == n && (forall|i: int|
        0 <= i < n ==> #[trigger] parts[i] == seq![
            Piece::Float(FloatBits::Single(widened_half(be_uint(b.subrange(4 + 2 * i, 6 + 2 * i)) as u16) as u32)),
        ]) {
        let own = crate::proxy::pg_binary::halfvec_parts(b, n as nat);
        assert forall|i: int| 0 <= i < n implies #[trigger] own[i] == parts[i] by {
            assert(field(b, 4 + 2 * i, 2) =~= b.subrange(4 + 2 * i, 6 + 2 * i));
        }
        assert(own =~= parts);
    }
}

/// A sparse vector is its pairs of place and number in braces, and its dimension
/// behind them.
pub proof fn law_sparse_vector_is_read(b: Seq<u8>, parts: Seq<Seq<Piece>>)
    requires
        b.len() >= 12,
    ensures
        ({
            let dim = be_int(b.subrange(0, 4));
            let n = be_int(b.subrange(4, 8));
            &&& dim < 0 || n < 0 || b.len() != 12 + 8 * n ==> sparsevec_value(b) is None
            &&& dim >= 0 && n >= 0 && b.len() == 12 + 8 * n && parts.len() == n && (forall|i: int|
                0 <= i < n ==> #[trigger] parts[i] == plain(
                    signed_decimal(be_int(b.subrange(12 + 4 * i, 16 + 4 * i))).push(':'),
                ) + seq![
                    Piece::Float(
                        FloatBits::Single(be_uint(b.subrange(12 + 4 * n + 4 * i, 16 + 4 * n + 4 * i)) as u32),
                    ),
                ]) ==> sparsevec_value(b) == Some(
                plain("{"@) + join_pieces(parts, plain(","@)) + plain("}/"@) + plain(signed_decimal(dim)),
            )
        }),
{
    let dim = be_int(b.subrange(0, 4));
    let n = be_int(b.subrange(4, 8));
    assert(field(b, 0, 4) =~= b.subrange(0, 4));
    assert(field(b, 4, 4) =~= b.subrange(4, 8));
    if dim >= 0 && n >= 0 && b.len() == 12 + 8 * n && parts.len() == n && (forall|i: int|
        0 <= i < n ==> #[trigger] parts[i] == plain(
            signed_decimal(be_int(b.subrange(12 + 4 * i, 16 + 4 * i))).push(':'),
        ) + seq![
            Piece::Float(FloatBits::Single(be_uint(b.subrange(12 + 4 * n + 4 * i, 16 + 4 * n + 4 * i)) as u32)),
        ]) {
        let own = crate::proxy::pg_binary::sparsevec_parts(b, n as nat);
        assert forall|i: int| 0 <= i < n implies #[trigger] own[i] == parts[i] by {
            assert(field(b, 12 + 4 * i, 4) =~= b.subrange(12 + 4 * i, 16 + 4 * i));
            assert(field(b, 12 + 4 * n + 4 * i, 4) =~= b.subrange(12 + 4 * n + 4 * i, 16 + 4 * n + 4 * i));
        }
        assert(own =~= parts);
    }
}

} // verus!
