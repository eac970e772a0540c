//! Binary primitives of the NCD format: fixed-width little-endian
//! integers, raw byte runs, the `lesqlite2` variable-length integer,
//! bounds checking, and the key hash.
//!
//! Read functions take a byte slice and a cursor; write functions take a
//! byte vector and a cursor. Every operation either consumes or produces
//! exactly the encoded bytes and advances the cursor by their number, or
//! fails with `CorruptNCDFile` leaving the cursor (and, for writes, the
//! buffer) unchanged.

use vstd::prelude::*;
use vstd::slice::slice_subrange;

use crate::util::NCDError;

verus! {

/// Longest possible `lesqlite2` encoding: one tag byte and eight payload bytes.
pub const MAX_LESQLITE2_BYTES: usize = 9;

/// 256 raised to `n`: the number of values a run of `n` bytes can hold.
pub open spec fn pow256(n: nat) -> int
    decreases n,
{
    if n == 0 {
        1
    } else {
        256 * pow256((n - 1) as nat)
    }
}

/// The value of a byte sequence read as a little-endian integer.
pub open spec fn le_value(s: Seq<u8>) -> int
    decreases s.len(),
{
    if s.len() == 0 {
        0
    } else {
        s[0] + 256 * le_value(s.drop_first())
    }
}

/// The `n` little-endian bytes of `v` (modulo `pow256(n)`).
pub open spec fn le_bytes(v: int, n: nat) -> Seq<u8>
    decreases n,
{
    if n == 0 {
        Seq::empty()
    } else {
        seq![(v % 256) as u8] + le_bytes(v / 256, (n - 1) as nat)
    }
}

/// `s` with the bytes of `sub` written at position `off`; positions
/// outside `s` are lost, matching a write into a fixed-size buffer.
pub open spec fn seq_splice(s: Seq<u8>, off: int, sub: Seq<u8>) -> Seq<u8> {
    Seq::new(s.len(), |i: int| if off <= i < off + sub.len() { sub[i - off] } else { s[i] })
}

pub proof fn lemma_pow256_pos(n: nat)
    ensures
        pow256(n) >= 1,
    decreases n,
{
    if n > 0 {
        lemma_pow256_pos((n - 1) as nat);
    }
}

pub proof fn lemma_pow256_increases(a: nat, b: nat)
    requires
        a <= b,
    ensures
        pow256(a) <= pow256(b),
    decreases b,
{
    if a < b {
        lemma_pow256_increases(a, (b - 1) as nat);
        lemma_pow256_pos((b - 1) as nat);
    }
}

pub proof fn lemma_le_bytes_len(v: int, n: nat)
    ensures
        le_bytes(v, n).len() == n,
    decreases n,
{
    if n > 0 {
        lemma_le_bytes_len(v / 256, (n - 1) as nat);
    }
}

/// A little-endian value is nonnegative and below `pow256` of its width.
pub proof fn lemma_le_value_bound(s: Seq<u8>)
    ensures
        0 <= le_value(s) < pow256(s.len()),
    decreases s.len(),
{
    if s.len() > 0 {
        lemma_le_value_bound(s.drop_first());
    }
}

/// Decoding inverts encoding: the little-endian bytes of any value in
/// range read back as that value.
pub proof fn lemma_le_round_trip(v: int, n: nat)
    requires
        0 <= v < pow256(n),
    ensures
        le_value(le_bytes(v, n)) == v,
    decreases n,
{
    if n > 0 {
        let rest = le_bytes(v / 256, (n - 1) as nat);
        assert(le_bytes(v, n).drop_first() =~= rest);
        assert(v / 256 < pow256((n - 1) as nat)) by (nonlinear_arith)
            requires
                0 <= v,
                v < 256 * pow256((n - 1) as nat),
        {
        }
        lemma_le_round_trip(v / 256, (n - 1) as nat);
    }
}

/// Decoding the encoding of any nonnegative value yields the value
/// reduced modulo the width's range (the truncation a fixed-width write
/// performs).
pub proof fn lemma_le_value_bytes_mod(v: int, n: nat)
    requires
        0 <= v,
    ensures
        le_value(le_bytes(v, n)) == v % pow256(n),
    decreases n,
{
    if n == 0 {
        assert(v % 1 == 0) by (nonlinear_arith)
            requires
                v >= 0,
        {
        }
    } else {
        lemma_pow256_pos((n - 1) as nat);
        let rest = le_bytes(v / 256, (n - 1) as nat);
        assert(le_bytes(v, n).drop_first() =~= rest);
        lemma_le_value_bytes_mod(v / 256, (n - 1) as nat);
        vstd::arithmetic::div_mod::lemma_mod_breakdown(v, 256, pow256((n - 1) as nat));
    }
}

/// A run of all-ones bytes reads as the largest value of its width: the
/// unused-slot sentinel.
pub proof fn lemma_le_value_all_ones(s: Seq<u8>)
    requires
        forall|i: int| 0 <= i < s.len() ==> s[i] == 0xFFu8,
    ensures
        le_value(s) == pow256(s.len()) - 1,
    decreases s.len(),
{
    if s.len() > 0 {
        lemma_le_value_all_ones(s.drop_first());
    }
}

/// Each encoded byte is the matching base-256 digit of the value.
pub proof fn lemma_le_bytes_index(v: int, n: nat, i: int)
    requires
        0 <= v,
        0 <= i < n,
    ensures
        le_bytes(v, n)[i] == ((v / pow256(i as nat)) % 256) as u8,
    decreases n,
{
    lemma_le_bytes_len(v, n);
    if i == 0 {
    } else {
        lemma_le_bytes_index(v / 256, (n - 1) as nat, i - 1);
        lemma_pow256_pos((i - 1) as nat);
        assert((v / 256) / pow256((i - 1) as nat) == v / (256 * pow256((i - 1) as nat))) by {
            vstd::arithmetic::div_mod::lemma_div_denominator(v, 256, pow256((i - 1) as nat));
        }
    }
}

/// A vector of `n` zero bytes.
pub(crate) fn zero_vec(n: usize) -> (r: Vec<u8>)
    ensures
        r@.len() == n,
        forall|i: int| 0 <= i < n ==> r@[i] == 0,
{
    let mut out: Vec<u8> = Vec::new();
    let mut i: usize = 0;
    while i < n
        invariant
            i <= n,
            out@.len() == i,
            forall|j: int| 0 <= j < i ==> out@[j] == 0,
        decreases n - i,
    {
        out.push(0);
        i = i + 1;
    }
    out
}

/// Fail with `CorruptNCDFile` unless `[offset, offset+length)` lies inside
/// the buffer.
pub fn bounds_check(heap: &[u8], offset: usize, length: usize) -> (r: Result<(), NCDError>)
    ensures
        r is Ok <==> offset + length <= heap@.len(),
        r is Err ==> r->Err_0 is CorruptNCDFile,
{
    if length > heap.len() || offset > heap.len() - length {
        Err(NCDError::CorruptNCDFile("bad heap reference".to_owned()))
    } else {
        Ok(())
    }
}

/// Read an `n`-byte little-endian integer at the cursor.
fn read_le(bytes: &[u8], offset: &mut usize, n: usize) -> (r: Result<u64, NCDError>)
    requires
        n <= 8,
    ensures
        r is Ok <==> *old(offset) + n <= bytes@.len(),
        r is Ok ==> *final(offset) == *old(offset) + n && r->Ok_0 == le_value(
            bytes@.subrange(*old(offset) as int, *old(offset) + n),
        ),
        r is Err ==> *final(offset) == *old(offset) && r->Err_0 is CorruptNCDFile,
{
    if n > bytes.len() || *offset > bytes.len() - n {
        return Err(NCDError::CorruptNCDFile("premature EOF".to_owned()));
    }
    let start: usize = *offset;
    let blen: usize = bytes.len();
    let mut v: u64 = 0;
    let mut i: usize = n;
    while i > 0
        invariant
            i <= n <= 8,
            blen == bytes@.len(),
            start + n <= blen,
            v == le_value(bytes@.subrange(start + i, start + n)),
            v < pow256((n - i) as nat),
        decreases i,
    {
        i = i - 1;
        let b: u8 = bytes[start + i];
        proof {
            let cur = bytes@.subrange(start + i, start + n);
            assert(cur.drop_first() =~= bytes@.subrange(start + i + 1, start + n));
            assert(cur[0] == bytes@[start + i]);
            lemma_pow256_increases((n - i) as nat, 8nat);
            reveal_with_fuel(pow256, 9);
        }
        v = v * 256 + (b as u64);
    }
    *offset = start + n;
    Ok(v)
}

/// Write the `n` little-endian bytes of `value` at the cursor.
fn write_le(data: &mut Vec<u8>, offset: &mut usize, value: u64, n: usize) -> (r: Result<
    (),
    NCDError,
>)
    requires
        n <= 8,
    ensures
        r is Ok <==> *old(offset) + n <= old(data)@.len(),
        r is Ok ==> final(data)@ == seq_splice(old(data)@, *old(offset) as int, le_bytes(value as int, n as nat))
            && *final(offset) == *old(offset) + n,
        r is Err ==> final(data)@ == old(data)@ && *final(offset) == *old(offset) && r->Err_0
            is CorruptNCDFile,
{
    proof {
        lemma_le_bytes_len(value as int, n as nat);
    }
    if n > data.len() || *offset > data.len() - n {
        return Err(NCDError::CorruptNCDFile("premature EOF".to_owned()));
    }
    let start: usize = *offset;
    let dlen: usize = data.len();
    let mut v: u64 = value;
    let mut i: usize = 0;
    while i < n
        invariant
            i <= n <= 8,
            dlen == old(data)@.len(),
            start + n <= dlen,
            data@.len() == old(data)@.len(),
            v == value as int / pow256(i as nat),
            forall|j: int|
                0 <= j < data@.len() ==> data@[j] == (if start <= j < start + i {
                    le_bytes(value as int, n as nat)[j - start]
                } else {
                    old(data)@[j]
                }),
        decreases n - i,
    {
        proof {
            lemma_le_bytes_index(value as int, n as nat, i as int);
            lemma_pow256_pos(i as nat);
            assert((value as int / pow256(i as nat)) / 256 == value as int / (pow256(i as nat)
                * 256)) by {
                vstd::arithmetic::div_mod::lemma_div_denominator(
                    value as int,
                    pow256(i as nat),
                    256,
                );
            }
            assert(pow256(i as nat) * 256 == pow256((i + 1) as nat)) by {
                assert(pow256((i + 1) as nat) == 256 * pow256(i as nat));
            }
        }
        data.set(start + i, (v % 256) as u8);
        v = v / 256;
        i = i + 1;
    }
    *offset = start + n;
    proof {
        assert(data@ =~= seq_splice(old(data)@, start as int, le_bytes(value as int, n as nat)));
    }
    Ok(())
}

/// Read a little-endian `u32` at the cursor.
pub fn read_u32(bytes: &[u8], offset: &mut usize) -> (r: Result<u32, NCDError>)
    ensures
        r is Ok <==> *old(offset) + 4 <= bytes@.len(),
        r is Ok ==> *final(offset) == *old(offset) + 4 && r->Ok_0 == le_value(
            bytes@.subrange(*old(offset) as int, *old(offset) + 4),
        ),
        r is Err ==> *final(offset) == *old(offset) && r->Err_0 is CorruptNCDFile,
{
    match read_le(bytes, offset, 4) {
        Ok(v) => {
            proof {
                lemma_le_value_bound(bytes@.subrange(*old(offset) as int, *old(offset) + 4));
                reveal_with_fuel(pow256, 5);
            }
            Ok(v as u32)
        },
        Err(e) => Err(e),
    }
}

/// Read a little-endian `u16` at the cursor.
pub fn read_u16(bytes: &[u8], offset: &mut usize) -> (r: Result<u16, NCDError>)
    ensures
        r is Ok <==> *old(offset) + 2 <= bytes@.len(),
        r is Ok ==> *final(offset) == *old(offset) + 2 && r->Ok_0 == le_value(
            bytes@.subrange(*old(offset) as int, *old(offset) + 2),
        ),
        r is Err ==> *final(offset) == *old(offset) && r->Err_0 is CorruptNCDFile,
{
    match read_le(bytes, offset, 2) {
        Ok(v) => {
            proof {
                lemma_le_value_bound(bytes@.subrange(*old(offset) as int, *old(offset) + 2));
                reveal_with_fuel(pow256, 3);
            }
            Ok(v as u16)
        },
        Err(e) => Err(e),
    }
}

/// Read a little-endian `u64` at the cursor.
pub fn read_u64(bytes: &[u8], offset: &mut usize) -> (r: Result<u64, NCDError>)
    ensures
        r is Ok <==> *old(offset) + 8 <= bytes@.len(),
        r is Ok ==> *final(offset) == *old(offset) + 8 && r->Ok_0 == le_value(
            bytes@.subrange(*old(offset) as int, *old(offset) + 8),
        ),
        r is Err ==> *final(offset) == *old(offset) && r->Err_0 is CorruptNCDFile,
{
    read_le(bytes, offset, 8)
}

/// Write a little-endian `u32` at the cursor.
pub fn write_u32(bytes: &mut Vec<u8>, offset: &mut usize, value: u32) -> (r: Result<(), NCDError>)
    ensures
        r is Ok <==> *old(offset) + 4 <= old(bytes)@.len(),
        r is Ok ==> final(bytes)@ == seq_splice(old(bytes)@, *old(offset) as int, le_bytes(value as int, 4))
            && *final(offset) == *old(offset) + 4,
        r is Err ==> final(bytes)@ == old(bytes)@ && *final(offset) == *old(offset) && r->Err_0
            is CorruptNCDFile,
{
    write_le(bytes, offset, value as u64, 4)
}

/// Write a little-endian `u16` at the cursor.
pub fn write_u16(bytes: &mut Vec<u8>, offset: &mut usize, value: u16) -> (r: Result<(), NCDError>)
    ensures
        r is Ok <==> *old(offset) + 2 <= old(bytes)@.len(),
        r is Ok ==> final(bytes)@ == seq_splice(old(bytes)@, *old(offset) as int, le_bytes(value as int, 2))
            && *final(offset) == *old(offset) + 2,
        r is Err ==> final(bytes)@ == old(bytes)@ && *final(offset) == *old(offset) && r->Err_0
            is CorruptNCDFile,
{
    write_le(bytes, offset, value as u64, 2)
}

/// Write a little-endian `u64` at the cursor.
pub fn write_u64(bytes: &mut Vec<u8>, offset: &mut usize, value: u64) -> (r: Result<(), NCDError>)
    ensures
        r is Ok <==> *old(offset) + 8 <= old(bytes)@.len(),
        r is Ok ==> final(bytes)@ == seq_splice(old(bytes)@, *old(offset) as int, le_bytes(value as int, 8))
            && *final(offset) == *old(offset) + 8,
        r is Err ==> final(bytes)@ == old(bytes)@ && *final(offset) == *old(offset) && r->Err_0
            is CorruptNCDFile,
{
    write_le(bytes, offset, value as u64, 8)
}

/// Read a little-endian integer whose width is a table pointer length
/// (2, 4 or 8 bytes); any other width is refused.
pub fn read_uvar(bytes: &[u8], offset: &mut usize, len: usize) -> (r: Result<u64, NCDError>)
    ensures
        r is Ok <==> ((len == 2 || len == 4 || len == 8) && *old(offset) + len <= bytes@.len()),
        r is Ok ==> *final(offset) == *old(offset) + len && r->Ok_0 == le_value(
            bytes@.subrange(*old(offset) as int, *old(offset) + len),
        ),
        r is Err ==> *final(offset) == *old(offset) && r->Err_0 is CorruptNCDFile,
{
    if len == 2 || len == 4 || len == 8 {
        read_le(bytes, offset, len)
    } else {
        Err(NCDError::CorruptNCDFile("bad pointer length".to_owned()))
    }
}

/// Write a little-endian integer of a table pointer width (2, 4 or 8
/// bytes), truncating `value` to that width; any other width is refused.
pub fn write_uvar(bytes: &mut Vec<u8>, offset: &mut usize, value: u64, len: usize) -> (r: Result<
    (),
    NCDError,
>)
    ensures
        r is Ok <==> ((len == 2 || len == 4 || len == 8) && *old(offset) + len <= old(
            bytes,
        )@.len()),
        r is Ok ==> final(bytes)@ == seq_splice(
            old(bytes)@,
            *old(offset) as int,
            le_bytes(value as int, len as nat),
        ) && *final(offset) == *old(offset) + len,
        r is Err ==> final(bytes)@ == old(bytes)@ && *final(offset) == *old(offset) && r->Err_0
            is CorruptNCDFile,
{
    if len == 2 || len == 4 || len == 8 {
        write_le(bytes, offset, value, len)
    } else {
        Err(NCDError::CorruptNCDFile("bad pointer length".to_owned()))
    }
}

/// The all-ones "unused slot" sentinel for a pointer width of 2, 4 or 8
/// bytes; any other width is refused.
pub fn all_set(len: usize) -> (r: Result<u64, NCDError>)
    ensures
        r is Ok <==> (len == 2 || len == 4 || len == 8),
        r is Ok ==> r->Ok_0 == pow256(len as nat) - 1,
        r is Err ==> r->Err_0 is CorruptNCDFile,
{
    proof {
        reveal_with_fuel(pow256, 9);
    }
    match len {
        8 => Ok(0xFFFFFFFFFFFFFFFF),
        4 => Ok(0xFFFFFFFF),
        2 => Ok(0xFFFF),
        _ => Err(NCDError::CorruptNCDFile("bad pointer length".to_owned())),
    }
}

/// Read a run of `len` raw bytes at the cursor.
pub fn read_bytes<'a>(bytes: &'a [u8], offset: &mut usize, len: usize) -> (r: Result<
    &'a [u8],
    NCDError,
>)
    ensures
        r is Ok <==> *old(offset) + len <= bytes@.len(),
        r is Ok ==> *final(offset) == *old(offset) + len && r->Ok_0@ == bytes@.subrange(
            *old(offset) as int,
            *old(offset) + len,
        ),
        r is Err ==> *final(offset) == *old(offset) && r->Err_0 is CorruptNCDFile,
{
    if len > bytes.len() || *offset > bytes.len() - len {
        return Err(NCDError::CorruptNCDFile("premature EOF".to_owned()));
    }
    let out: &[u8] = slice_subrange(bytes, *offset, *offset + len);
    *offset = *offset + len;
    Ok(out)
}

/// Write a run of raw bytes at the cursor.
pub fn write_bytes(data: &mut Vec<u8>, offset: &mut usize, value: &[u8]) -> (r: Result<
    (),
    NCDError,
>)
    ensures
        r is Ok <==> *old(offset) + value@.len() <= old(data)@.len(),
        r is Ok ==> final(data)@ == seq_splice(old(data)@, *old(offset) as int, value@) && *final(offset)
            == *old(offset) + value@.len(),
        r is Err ==> final(data)@ == old(data)@ && *final(offset) == *old(offset) && r->Err_0
            is CorruptNCDFile,
{
    if value.len() > data.len() || *offset > data.len() - value.len() {
        return Err(NCDError::CorruptNCDFile("premature EOF".to_owned()));
    }
    let start: usize = *offset;
    let dlen: usize = data.len();
    let vlen: usize = value.len();
    let mut i: usize = 0;
    while i < vlen
        invariant
            i <= vlen,
            vlen == value@.len(),
            dlen == old(data)@.len(),
            start + vlen <= dlen,
            data@.len() == old(data)@.len(),
            forall|j: int|
                0 <= j < data@.len() ==> data@[j] == (if start <= j < start + i {
                    value@[j - start]
                } else {
                    old(data)@[j]
                }),
        decreases value@.len() - i,
    {
        data.set(start + i, value[i]);
        i = i + 1;
    }
    *offset = start + value.len();
    proof {
        assert(data@ =~= seq_splice(old(data)@, start as int, value@));
    }
    Ok(())
}

/// The width of the shortest base-256 representation of `v` (1 for 0).
pub open spec fn byte_len(v: int) -> nat
    decreases v,
{
    if v < 256 {
        1
    } else {
        1 + byte_len(v / 256)
    }
}

/// How many bytes a `lesqlite2` encoding occupies, given its first byte.
pub open spec fn lesqlite2_len_of(b0: u8) -> int {
    if b0 < 178 {
        1
    } else if b0 < 242 {
        2
    } else if b0 < 250 {
        3
    } else {
        b0 - 247 + 1
    }
}

/// The value of a complete `lesqlite2` encoding window `w`
/// (`w.len() == lesqlite2_len_of(w[0])`).
pub open spec fn lesqlite2_dec(w: Seq<u8>) -> int {
    let b0 = w[0] as int;
    if b0 < 178 {
        b0
    } else if b0 < 242 {
        178 + (b0 - 178) * 256 + w[1]
    } else if b0 < 250 {
        16562 + (b0 - 242) * 65536 + w[1] * 256 + w[2]
    } else {
        le_value(w.subrange(1, w.len() as int))
    }
}

/// The canonical `lesqlite2` encoding of a value.
pub open spec fn lesqlite2_enc(v: int) -> Seq<u8> {
    if v < 178 {
        seq![v as u8]
    } else if v < 16562 {
        seq![(178 + (v - 178) / 256) as u8, ((v - 178) % 256) as u8]
    } else if v < 540850 {
        seq![
            (242 + (v - 16562) / 65536) as u8,
            (((v - 16562) / 256) % 256) as u8,
            ((v - 16562) % 256) as u8,
        ]
    } else {
        seq![(247 + byte_len(v)) as u8] + le_bytes(v, byte_len(v))
    }
}

/// A whole `lesqlite2` encoding starts at position `p` of `s`.
pub open spec fn l2_ok(s: Seq<u8>, p: int) -> bool {
    0 <= p < s.len() && p + lesqlite2_len_of(s[p]) <= s.len()
}

/// The width of the `lesqlite2` encoding at position `p`.
pub open spec fn l2_len(s: Seq<u8>, p: int) -> int {
    lesqlite2_len_of(s[p])
}

/// The value of the `lesqlite2` encoding at position `p`.
pub open spec fn l2_val(s: Seq<u8>, p: int) -> int {
    lesqlite2_dec(s.subrange(p, p + lesqlite2_len_of(s[p])))
}

/// Whether two byte strings hold the same bytes.
pub fn bytes_equal(a: &[u8], b: &[u8]) -> (r: bool)
    ensures
        r <==> a@ == b@,
{
    if a.len() != b.len() {
        proof {
            assert(a@.len() != b@.len());
        }
        return false;
    }
    let n: usize = a.len();
    let mut i: usize = 0;
    while i < n
        invariant
            i <= n,
            n == a@.len() == b@.len(),
            forall|j: int| 0 <= j < i ==> a@[j] == b@[j],
        decreases n - i,
    {
        if a[i] != b[i] {
            return false;
        }
        i = i + 1;
    }
    proof {
        assert(a@ =~= b@);
    }
    true
}

/// `byte_len` is the unique width `n` with `pow256(n-1) <= v < pow256(n)`.
pub proof fn lemma_byte_len_unique(v: int, n: nat)
    requires
        n >= 1,
        pow256((n - 1) as nat) <= v < pow256(n),
    ensures
        byte_len(v) == n,
    decreases n,
{
    if n == 1 {
    } else {
        assert(v >= 256) by {
            lemma_pow256_increases(1nat, (n - 1) as nat);
        }
        assert(pow256((n - 2) as nat) <= v / 256 < pow256((n - 1) as nat)) by (nonlinear_arith)
            requires
                256 * pow256((n - 2) as nat) <= v,
                v < 256 * pow256((n - 1) as nat),
                v >= 256,
        {
        }
        lemma_byte_len_unique(v / 256, (n - 1) as nat);
    }
}

/// Decoding inverts encoding for every representable value (the
/// `lesqlite2` half of the serialization round trip).
pub proof fn lemma_lesqlite2_round_trip(value: u64)
    ensures
        lesqlite2_enc(value as int).len() == lesqlite2_len_of(lesqlite2_enc(value as int)[0]),
        lesqlite2_dec(lesqlite2_enc(value as int)) == value,
{
    let v = value as int;
    let e = lesqlite2_enc(v);
    if v < 178 {
    } else if v < 16562 {
        let d = v - 178;
        assert(d / 256 < 64);
        assert(d == 256 * (d / 256) + d % 256);
    } else if v < 540850 {
        let d = v - 16562;
        assert(d / 65536 < 8);
        assert(d == 65536 * (d / 65536) + d % 65536);
        assert((d / 256) % 256 == (d % 65536) / 256 && d % 256 == (d % 65536) % 256)
            by (nonlinear_arith)
            requires
                0 <= d < 65536 * 8,
        {
        }
        assert(d % 65536 == 256 * ((d % 65536) / 256) + (d % 65536) % 256);
    } else {
        let n = byte_len(v);
        assert(value < pow256(8nat)) by {
            reveal_with_fuel(pow256, 9);
        }
        assert(v >= pow256(2nat)) by {
            reveal_with_fuel(pow256, 3);
        }
        lemma_byte_len_bounds(v);
        assert(n >= 3) by {
            if n < 3 {
                lemma_pow256_increases(n, 2nat);
            }
        }
        assert(n <= 8) by {
            if n > 8 {
                lemma_pow256_increases(8nat, (n - 1) as nat);
            }
        }
        lemma_le_bytes_len(v, n);
        assert(e[0] == (247 + n) as u8);
        assert(250 <= 247 + n <= 255);
        assert(e.subrange(1, e.len() as int) =~= le_bytes(v, n));
        lemma_le_round_trip(v, n);
    }
}

/// `v` lies between `pow256(byte_len(v) - 1)` (when it is not 0) and
/// `pow256(byte_len(v))`.
pub proof fn lemma_byte_len_bounds(v: int)
    requires
        v >= 0,
    ensures
        byte_len(v) >= 1,
        v < pow256(byte_len(v)),
        v >= 256 ==> pow256((byte_len(v) - 1) as nat) <= v,
    decreases v,
{
    reveal_with_fuel(pow256, 3);
    if v < 256 {
    } else {
        lemma_byte_len_bounds(v / 256);
        let m = byte_len(v / 256);
        assert(byte_len(v) == 1 + m);
        assert(pow256((1 + m) as nat) == 256 * pow256(m));
        assert(v < 256 * pow256(m)) by (nonlinear_arith)
            requires
                v / 256 < pow256(m),
                v >= 0,
        {
        }
        if v / 256 >= 256 {
            assert(256 * pow256((m - 1) as nat) <= v) by (nonlinear_arith)
                requires
                    pow256((m - 1) as nat) <= v / 256,
                    v >= 0,
            {
            }
        } else {
            assert(m == 1);
        }
    }
}

/// Read a `lesqlite2` variable-length integer at the cursor.
pub fn lesqlite2_read(data: &[u8], start: &mut usize) -> (r: Result<u64, NCDError>)
    ensures
        r is Ok <==> (*old(start) < data@.len() && *old(start) + lesqlite2_len_of(
            data@[*old(start) as int],
        ) <= data@.len()),
        r is Ok ==> *final(start) == *old(start) + lesqlite2_len_of(data@[*old(start) as int])
            && r->Ok_0 == lesqlite2_dec(
            data@.subrange(
                *old(start) as int,
                *old(start) + lesqlite2_len_of(data@[*old(start) as int]),
            ),
        ),
        r is Err ==> *final(start) == *old(start) && r->Err_0 is CorruptNCDFile,
{
    if *start >= data.len() {
        return Err(NCDError::CorruptNCDFile("bad lesqlite2 integer".to_owned()));
    }
    let base: usize = *start;
    let b0: u8 = data[base];
    if b0 < 178 {
        *start = base + 1;
        proof {
            assert(data@.subrange(base as int, base + 1)[0] == b0);
        }
        return Ok(b0 as u64);
    }
    if data.len() - base < 2 {
        return Err(NCDError::CorruptNCDFile("bad lesqlite2 integer".to_owned()));
    }
    let b1: u8 = data[base + 1];
    if b0 < 242 {
        *start = base + 2;
        proof {
            let w = data@.subrange(base as int, base + 2);
            assert(w[0] == b0 && w[1] == b1);
        }
        return Ok(178 + ((b0 - 178) as u64) * 256 + (b1 as u64));
    }
    if data.len() - base < 3 {
        return Err(NCDError::CorruptNCDFile("bad lesqlite2 integer".to_owned()));
    }
    let b2: u8 = data[base + 2];
    if b0 < 250 {
        *start = base + 3;
        proof {
            let w = data@.subrange(base as int, base + 3);
            assert(w[0] == b0 && w[1] == b1 && w[2] == b2);
        }
        return Ok(16562 + ((b0 - 242) as u64) * 65536 + (b1 as u64) * 256 + (b2 as u64));
    }
    let n: usize = (b0 - 247) as usize;
    if data.len() - base < n + 1 {
        return Err(NCDError::CorruptNCDFile("bad lesqlite2 integer".to_owned()));
    }
    let mut payload: usize = base + 1;
    let v: u64 = match read_le(data, &mut payload, n) {
        Ok(v) => v,
        Err(e) => { return Err(e); },
    };
    *start = base + n + 1;
    proof {
        let w = data@.subrange(base as int, base + n + 1);
        assert(w[0] == b0);
        assert(w.subrange(1, w.len() as int) =~= data@.subrange(base + 1, base + 1 + n));
    }
    Ok(v)
}

/// Write the `lesqlite2` encoding of `value` at the cursor.
pub fn lesqlite2_write(data: &mut Vec<u8>, start: &mut usize, value: u64) -> (r: Result<
    (),
    NCDError,
>)
    ensures
        r is Ok <==> *old(start) + lesqlite2_enc(value as int).len() <= old(data)@.len(),
        r is Ok ==> final(data)@ == seq_splice(
            old(data)@,
            *old(start) as int,
            lesqlite2_enc(value as int),
        ) && *final(start) == *old(start) + lesqlite2_enc(value as int).len(),
        r is Err ==> final(data)@ == old(data)@ && *final(start) == *old(start) && r->Err_0
            is CorruptNCDFile,
{
    let base: usize = *start;
    if value < 178 {
        if base >= data.len() {
            return Err(NCDError::CorruptNCDFile("buffer too small".to_owned()));
        }
        data.set(base, value as u8);
        *start = base + 1;
        proof {
            assert(data@ =~= seq_splice(old(data)@, base as int, lesqlite2_enc(value as int)));
        }
        return Ok(());
    }
    if value < 16562 {
        if data.len() < 2 || base > data.len() - 2 {
            return Err(NCDError::CorruptNCDFile("buffer too small".to_owned()));
        }
        let d: u64 = value - 178;
        data.set(base, 178 + (d / 256) as u8);
        data.set(base + 1, (d % 256) as u8);
        *start = base + 2;
        proof {
            assert(data@ =~= seq_splice(old(data)@, base as int, lesqlite2_enc(value as int)));
        }
        return Ok(());
    }
    if value < 540850 {
        if data.len() < 3 || base > data.len() - 3 {
            return Err(NCDError::CorruptNCDFile("buffer too small".to_owned()));
        }
        let d: u64 = value - 16562;
        data.set(base, 242 + (d / 65536) as u8);
        data.set(base + 1, ((d / 256) % 256) as u8);
        data.set(base + 2, (d % 256) as u8);
        *start = base + 3;
        proof {
            assert(data@ =~= seq_splice(old(data)@, base as int, lesqlite2_enc(value as int)));
        }
        return Ok(());
    }
    let n: usize = lesqlite2_payload_len(value);
    proof {
        lemma_le_bytes_len(value as int, n as nat);
    }
    if data.len() < n + 1 || base > data.len() - n - 1 {
        return Err(NCDError::CorruptNCDFile("buffer too small".to_owned()));
    }
    data.set(base, 247 + n as u8);
    let mut payload: usize = base + 1;
    match write_le(data, &mut payload, value, n) {
        Ok(()) => {},
        Err(e) => { return Err(e); },
    }
    *start = base + n + 1;
    proof {
        let e = lesqlite2_enc(value as int);
        assert(e =~= seq![(247 + n) as u8] + le_bytes(value as int, n as nat));
        assert(data@ =~= seq_splice(old(data)@, base as int, e));
    }
    Ok(())
}

/// The number of payload bytes of the long-form `lesqlite2` encoding:
/// the width of the shortest base-256 representation of `value`.
fn lesqlite2_payload_len(value: u64) -> (n: usize)
    requires
        value >= 540850,
    ensures
        n == byte_len(value as int),
        3 <= n <= 8,
{
    let mut n: usize = 0;
    let mut tmp: u64 = value;
    proof {
        reveal_with_fuel(pow256, 9);
    }
    while tmp > 0
        invariant
            tmp == value as int / pow256(n as nat),
            n <= 8,
            n > 0 ==> value as int >= pow256((n - 1) as nat),
            n == 0 ==> tmp == value,
            value >= 540850,
        decreases tmp,
    {
        proof {
            lemma_pow256_pos(n as nat);
            assert(value as int >= pow256(n as nat)) by (nonlinear_arith)
                requires
                    value as int / pow256(n as nat) > 0,
                    pow256(n as nat) >= 1,
                    value as int >= 0,
            {
            }
            assert(n < 8) by {
                if n >= 8 {
                    lemma_pow256_increases(8nat, n as nat);
                    reveal_with_fuel(pow256, 9);
                }
            }
            assert((value as int / pow256(n as nat)) / 256 == value as int / (pow256(n as nat)
                * 256)) by {
                vstd::arithmetic::div_mod::lemma_div_denominator(
                    value as int,
                    pow256(n as nat),
                    256,
                );
            }
            assert(pow256(n as nat) * 256 == pow256((n + 1) as nat)) by {
                assert(pow256((n + 1) as nat) == 256 * pow256(n as nat));
            }
            assert(tmp / 256 < tmp) by (nonlinear_arith)
                requires
                    tmp > 0,
            {
            }
        }
        tmp = tmp / 256;
        n = n + 1;
    }
    proof {
        lemma_pow256_pos(n as nat);
        assert((value as int) < pow256(n as nat)) by (nonlinear_arith)
            requires
                value as int / pow256(n as nat) == 0,
                pow256(n as nat) >= 1,
                value as int >= 0,
        {
        }
        assert(n >= 1);
        lemma_byte_len_unique(value as int, n as nat);
        assert(n >= 3) by {
            if n < 3 {
                lemma_pow256_increases(n as nat, 2nat);
                reveal_with_fuel(pow256, 3);
            }
        }
    }
    n
}

/// A `lesqlite2` encoding is one tag byte and at most eight more.
pub proof fn lemma_lesqlite2_enc_len(v: int)
    requires
        0 <= v < pow256(8),
    ensures
        1 <= lesqlite2_enc(v).len() <= 9,
{
    if v >= 540850 {
        lemma_byte_len_bounds(v);
        let n = byte_len(v);
        assert(n <= 8) by {
            if n > 8 {
                lemma_pow256_increases(8nat, (n - 1) as nat);
                reveal_with_fuel(pow256, 9);
            }
        }
        lemma_le_bytes_len(v, n);
    }
}

/// The 128-bit murmur3 (x64 variant, seed 0) of a byte string; the digest
/// depends on the bytes alone.
pub uninterp spec fn murmur3_x64_128_of(key: Seq<u8>) -> u128;

/// The key hash of the format: the high 64 bits of the murmur3 digest.
pub open spec fn hash_of(key: Seq<u8>) -> u64 {
    (murmur3_x64_128_of(key) >> 64) as u64
}

/// Relies on `murmur3::murmur3_x64_128` with seed 0: the digest is a
/// function of the bytes the source yields, and reading from a byte slice
/// yields exactly its bytes and cannot fail.
#[verifier::external_body]
fn murmur3_hash128(key: &[u8]) -> (r: Result<u128, std::io::Error>)
    ensures
        r is Ok,
        r->Ok_0 == murmur3_x64_128_of(key@),
{
    let mut source: &[u8] = key;
    murmur3::murmur3_x64_128(&mut source, 0)
}

/// Hash a key: the high 64 bits of its murmur3 x64 128-bit digest.
pub fn compute_hash(key: &[u8]) -> (r: Result<u64, NCDError>)
    ensures
        r is Ok,
        r->Ok_0 == hash_of(key@),
{
    match murmur3_hash128(key) {
        Ok(v) => Ok((v >> 64) as u64),
        Err(e) => Err(NCDError::IOError(e)),
    }
}

} // verus!
