//! Big-endian integers in byte strings.

use vstd::prelude::*;

verus! {

/// The unsigned number that the bytes hold, most significant byte first.
pub open spec fn be_uint(b: Seq<u8>) -> nat
    decreases b.len(),
{
    if b.len() == 0 {
        0
    } else {
        be_uint(b.drop_last()) * 256 + b.last() as nat
    }
}

/// The number of values that `n` bytes can hold.
pub open spec fn byte_range(n: nat) -> nat
    decreases n,
{
    if n == 0 {
        1
    } else {
        256 * byte_range((n - 1) as nat)
    }
}

/// The signed number that the bytes hold in two's complement, most significant
/// byte first.
pub open spec fn be_int(b: Seq<u8>) -> int {
    if b.len() > 0 && b[0] >= 128 {
        be_uint(b) - byte_range(b.len())
    } else {
        be_uint(b) as int
    }
}

/// The `n` bytes of `b` from `at` on.
pub open spec fn field(b: Seq<u8>, at: int, n: int) -> Seq<u8> {
    b.subrange(at, at + n)
}

pub proof fn lemma_be_uint_2(b: Seq<u8>)
    requires
        b.len() == 2,
    ensures
        be_uint(b) == b[0] * 256 + b[1],
        byte_range(2) == 65536,
{
    reveal_with_fuel(be_uint, 3);
    reveal_with_fuel(byte_range, 3);
}

pub proof fn lemma_be_uint_4(b: Seq<u8>)
    requires
        b.len() == 4,
    ensures
        be_uint(b) == b[0] * 16777216 + b[1] * 65536 + b[2] * 256 + b[3],
        byte_range(4) == 4294967296,
{
    reveal_with_fuel(be_uint, 5);
    reveal_with_fuel(byte_range, 5);
}

pub proof fn lemma_be_uint_8(b: Seq<u8>)
    requires
        b.len() == 8,
    ensures
        be_uint(b) == be_uint(b.take(4)) * 4294967296 + be_uint(b.skip(4)),
        byte_range(8) == 18446744073709551616,
        be_uint(b.take(4)) < 4294967296,
        be_uint(b.skip(4)) < 4294967296,
        b.take(4)[0] == b[0],
{
    lemma_be_uint_4(b.take(4));
    lemma_be_uint_4(b.skip(4));
    reveal_with_fuel(be_uint, 5);
    reveal_with_fuel(byte_range, 9);
    let b7 = b.drop_last();
    let b6 = b7.drop_last();
    let b5 = b6.drop_last();
    let b4 = b5.drop_last();
    assert(b4 =~= b.take(4));
    assert(be_uint(b) == (((be_uint(b4) * 256 + b[4]) * 256 + b[5]) * 256 + b[6]) * 256 + b[7]);
}

/// Reads two bytes as an unsigned number.
pub fn read_u16(b: &[u8], at: usize) -> (r: u16)
    requires
        at + 2 <= b@.len(),
    ensures
        r == be_uint(field(b@, at as int, 2)),
{
    proof {
        lemma_be_uint_2(field(b@, at as int, 2));
    }
    (b[at] as u16) * 256 + (b[at + 1] as u16)
}

/// Reads two bytes as a signed number.
pub fn read_i16(b: &[u8], at: usize) -> (r: i16)
    requires
        at + 2 <= b@.len(),
    ensures
        r == be_int(field(b@, at as int, 2)),
{
    proof {
        lemma_be_uint_2(field(b@, at as int, 2));
    }
    let u = read_u16(b, at);
    if u >= 32768 {
        ((u as i32) - 65536) as i16
    } else {
        u as i16
    }
}

/// Reads four bytes as an unsigned number.
pub fn read_u32(b: &[u8], at: usize) -> (r: u32)
    requires
        at + 4 <= b@.len(),
    ensures
        r == be_uint(field(b@, at as int, 4)),
{
    proof {
        lemma_be_uint_4(field(b@, at as int, 4));
    }
    (b[at] as u32) * 16777216 + (b[at + 1] as u32) * 65536 + (b[at + 2] as u32) * 256 + (b[at + 3] as u32)
}

/// Reads four bytes as a signed number.
pub fn read_i32(b: &[u8], at: usize) -> (r: i32)
    requires
        at + 4 <= b@.len(),
    ensures
        r == be_int(field(b@, at as int, 4)),
{
    proof {
        lemma_be_uint_4(field(b@, at as int, 4));
    }
    let u = read_u32(b, at);
    if u >= 2147483648 {
        ((u as i64) - 4294967296) as i32
    } else {
        u as i32
    }
}

/// Reads eight bytes as an unsigned number.
pub fn read_u64(b: &[u8], at: usize) -> (r: u64)
    requires
        at + 8 <= b@.len(),
    ensures
        r == be_uint(field(b@, at as int, 8)),
{
    proof {
        let f = field(b@, at as int, 8);
        lemma_be_uint_8(f);
        assert(f.take(4) =~= field(b@, at as int, 4));
        assert(f.skip(4) =~= field(b@, at + 4, 4));
        assert(b.len() == b@.len());
    }
    (read_u32(b, at) as u64) * 4294967296 + (read_u32(b, at + 4) as u64)
}

/// Reads eight bytes as a signed number.
pub fn read_i64(b: &[u8], at: usize) -> (r: i64)
    requires
        at + 8 <= b@.len(),
    ensures
        r == be_int(field(b@, at as int, 8)),
{
    proof {
        let f = field(b@, at as int, 8);
        lemma_be_uint_8(f);
        lemma_be_uint_4(f.take(4));
    }
    let u = read_u64(b, at);
    if u >= 9223372036854775808 {
        ((u - 9223372036854775808) as i64) + i64::MIN
    } else {
        u as i64
    }
}

/// The four bytes of a number, most significant first.
pub open spec fn be_bytes4(n: nat) -> Seq<u8> {
    seq![
        (n / 16777216 % 256) as u8,
        (n / 65536 % 256) as u8,
        (n / 256 % 256) as u8,
        (n % 256) as u8,
    ]
}

/// The four bytes of a number are those of its low 32 bits.
pub proof fn lemma_be_bytes4_low(n: nat)
    ensures
        be_bytes4(n) == be_bytes4(n % 4294967296),
{
    let q = n / 4294967296;
    let low = n % 4294967296;
    assert(n == q * 4294967296 + low);
    assert(n / 16777216 == q * 256 + low / 16777216);
    assert(n / 65536 == q * 65536 + low / 65536);
    assert(n / 256 == q * 16777216 + low / 256);
    assert((q * 256 + low / 16777216) % 256 == (low / 16777216) % 256);
    assert((q * 65536 + low / 65536) % 256 == (low / 65536) % 256);
    assert((q * 16777216 + low / 256) % 256 == (low / 256) % 256);
    assert(be_bytes4(n) =~= be_bytes4(low));
}

/// Appends the four bytes of a number, most significant first.
pub fn push_u32(out: &mut Vec<u8>, n: u32)
    ensures
        final(out)@ == old(out)@ + be_bytes4(n as nat),
{
    let ghost before = out@;
    out.push((n / 16777216 % 256) as u8);
    out.push((n / 65536 % 256) as u8);
    out.push((n / 256 % 256) as u8);
    out.push((n % 256) as u8);
    proof {
        assert(out@ =~= before + be_bytes4(n as nat));
    }
}

/// Reading the four bytes of a number gives the number back.
pub proof fn law_be_bytes4_round_trip(n: nat)
    requires
        n < 4294967296,
    ensures
        be_uint(be_bytes4(n)) == n,
        n < 2147483648 ==> be_int(be_bytes4(n)) == n,
{
    let b = be_bytes4(n);
    lemma_be_uint_4(b);
    assert(n / 16777216 % 256 == n / 16777216);
    assert(n == n / 16777216 * 16777216 + n / 65536 % 256 * 65536 + n / 256 % 256 * 256 + n % 256);
}

/// A copy of a slice of bytes.
pub fn copy_bytes(b: &[u8]) -> (r: Vec<u8>)
    ensures
        r@ == b@,
{
    let mut out: Vec<u8> = Vec::new();
    append_bytes(&mut out, b);
    proof {
        assert(out@ =~= b@);
    }
    out
}

/// Appends a slice of bytes.
pub fn append_bytes(out: &mut Vec<u8>, b: &[u8])
    ensures
        final(out)@ == old(out)@ + b@,
{
    let ghost before = out@;
    for i in 0..b.len()
        invariant
            out@ == before + b@.take(i as int),
    {
        out.push(b[i]);
        proof {
            assert(before + b@.take(i + 1) =~= (before + b@.take(i as int)).push(b@[i as int]));
        }
    }
    proof {
        assert(b@.take(b@.len() as int) =~= b@);
    }
}

/// Where the first zero byte from `from` on stands.
pub open spec fn zero_from(b: Seq<u8>, from: int) -> Option<int>
    decreases b.len() - from,
{
    if from < 0 || from >= b.len() {
        None
    } else if b[from] == 0 {
        Some(from)
    } else {
        zero_from(b, from + 1)
    }
}

/// Finds the first zero byte from `from` on.
pub fn find_zero(b: &[u8], from: usize) -> (r: Option<usize>)
    ensures
        r is Some <==> zero_from(b@, from as int) is Some,
        r matches Some(i) ==> zero_from(b@, from as int) == Some(i as int) && from <= i < b@.len() && i < usize::MAX,
{
    let mut i: usize = from;
    while i < b.len()
        invariant
            from <= i,
            i <= b@.len() || i == from,
            zero_from(b@, i as int) == zero_from(b@, from as int),
        decreases b@.len() - i,
    {
        if b[i] == 0 {
            return Some(i);
        }
        i = i + 1;
    }
    None
}

/// What `zero_from` finds is the first zero byte, and it finds one if there
/// is one.
pub proof fn lemma_zero_from(b: Seq<u8>, from: int)
    requires
        0 <= from,
    ensures
        zero_from(b, from) matches Some(i) ==> from <= i < b.len() && b[i] == 0 && forall|k: int|
            from <= k < i ==> b[k] != 0,
        zero_from(b, from) is None ==> forall|k: int| from <= k < b.len() ==> b[k] != 0,
    decreases b.len() - from,
{
    if from < b.len() && b[from] != 0 {
        lemma_zero_from(b, from + 1);
    }
}

} // verus!
