//! Byte codec for persistent state.
//!
//! Every stored structure of the marketplace has a stable byte layout:
//! integers little-endian, strings as a byte count followed by their
//! UTF-8 bytes, tables as an entry count followed by the entries in
//! order. Encoding and decoding are exact inverses, which is what makes
//! the layout safe to persist: a value written by the host's storage and
//! read back is observably the same value. Any change to field order or
//! width is a breaking schema change.

use vstd::prelude::*;
use vstd::string::StrSliceExecFns;
use vstd::utf8::{decode_utf8, encode_utf8, encode_utf8_decode_utf8, encode_utf8_valid_utf8,
    valid_utf8};

use crate::decimal::Decimal;

verus! {

/// Splitting a buffer range known to hold a concatenation yields the
/// two concatenated parts.
pub proof fn lemma_subrange_split(buf: Seq<u8>, pos: int, a: Seq<u8>, b: Seq<u8>)
    requires
        0 <= pos,
        pos + a.len() + b.len() <= buf.len(),
        buf.subrange(pos, pos + a.len() + b.len()) == a + b,
    ensures
        buf.subrange(pos, pos + a.len()) == a,
        buf.subrange(pos + a.len(), pos + a.len() + b.len()) == b,
{
    assert forall|k: int| 0 <= k < a.len() + b.len() implies buf[pos + k] == (a + b)[k] by {
        assert(buf.subrange(pos, pos + a.len() + b.len())[k] == buf[pos + k]);
    }
    assert(buf.subrange(pos, pos + a.len()) =~= a);
    assert forall|k: int| 0 <= k < b.len() implies buf[pos + a.len() + k] == b[k] by {
        assert(buf[pos + (a.len() + k)] == (a + b)[a.len() + k]);
    }
    assert(buf.subrange(pos + a.len(), pos + a.len() + b.len()) =~= b);
}

// --- u64, little-endian, 8 bytes ---

/// The little-endian bytes of a 64-bit value.
pub open spec fn enc_u64(x: u64) -> Seq<u8> {
    seq![
        x as u8,
        (x >> 8) as u8,
        (x >> 16) as u8,
        (x >> 24) as u8,
        (x >> 32) as u8,
        (x >> 40) as u8,
        (x >> 48) as u8,
        (x >> 56) as u8,
    ]
}

/// The 64-bit value assembled from little-endian bytes.
pub open spec fn u64_of_bytes(
    b0: u8,
    b1: u8,
    b2: u8,
    b3: u8,
    b4: u8,
    b5: u8,
    b6: u8,
    b7: u8,
) -> u64 {
    (b0 as u64) | ((b1 as u64) << 8) | ((b2 as u64) << 16) | ((b3 as u64) << 24) | ((b4
        as u64) << 32) | ((b5 as u64) << 40) | ((b6 as u64) << 48) | ((b7 as u64) << 56)
}

/// The 64-bit value read at `pos`, with the position after it.
pub open spec fn dec_u64_at(s: Seq<u8>, pos: int) -> Option<(u64, int)> {
    if 0 <= pos && pos + 8 <= s.len() {
        Some(
            (
                u64_of_bytes(
                    s[pos],
                    s[pos + 1],
                    s[pos + 2],
                    s[pos + 3],
                    s[pos + 4],
                    s[pos + 5],
                    s[pos + 6],
                    s[pos + 7],
                ),
                pos + 8,
            ),
        )
    } else {
        None
    }
}

/// Reassembling the little-endian bytes of a 64-bit value gives the
/// value back.
pub proof fn lemma_u64_bytes_round_trip(x: u64)
    ensures
        u64_of_bytes(
            x as u8,
            (x >> 8) as u8,
            (x >> 16) as u8,
            (x >> 24) as u8,
            (x >> 32) as u8,
            (x >> 40) as u8,
            (x >> 48) as u8,
            (x >> 56) as u8,
        ) == x,
{
    assert((x as u8 as u64) | ((x >> 8) as u8 as u64) << 8 | ((x >> 16) as u8 as u64) << 16 | ((x
        >> 24) as u8 as u64) << 24 | ((x >> 32) as u8 as u64) << 32 | ((x >> 40) as u8 as u64)
        << 40 | ((x >> 48) as u8 as u64) << 48 | ((x >> 56) as u8 as u64) << 56 == x)
        by (bit_vector);
}

/// Decoding at a position whose next eight bytes encode `x` yields `x`.
pub proof fn lemma_dec_enc_u64(s: Seq<u8>, pos: int, x: u64)
    requires
        0 <= pos,
        pos + 8 <= s.len(),
        s.subrange(pos, pos + 8) == enc_u64(x),
    ensures
        dec_u64_at(s, pos) == Some((x, pos + 8)),
{
    assert forall|k: int| 0 <= k < 8 implies s[pos + k] == enc_u64(x)[k] by {
        assert(s.subrange(pos, pos + 8)[k] == s[pos + k]);
    }
    lemma_u64_bytes_round_trip(x);
}

/// Appends the little-endian bytes of `x`.
pub fn write_u64(x: u64, out: &mut Vec<u8>)
    ensures
        final(out)@ == old(out)@ + enc_u64(x),
{
    out.push(#[verifier::truncate] (x as u8));
    out.push(#[verifier::truncate] ((x >> 8) as u8));
    out.push(#[verifier::truncate] ((x >> 16) as u8));
    out.push(#[verifier::truncate] ((x >> 24) as u8));
    out.push(#[verifier::truncate] ((x >> 32) as u8));
    out.push(#[verifier::truncate] ((x >> 40) as u8));
    out.push(#[verifier::truncate] ((x >> 48) as u8));
    out.push(#[verifier::truncate] ((x >> 56) as u8));
    assert(out@ =~= old(out)@ + enc_u64(x));
}

/// Reads a 64-bit value at `pos`.
pub fn read_u64(data: &Vec<u8>, pos: usize) -> (r: Option<(u64, usize)>)
    ensures
        match dec_u64_at(data@, pos as int) {
            Some(p) => r matches Some(q) && q.0 == p.0 && q.1 as int == p.1,
            None => r is None,
        },
{
    if pos < data.len() && data.len() - pos >= 8 {
        let v = (data[pos] as u64) | ((data[pos + 1] as u64) << 8) | ((data[pos + 2] as u64) << 16)
            | ((data[pos + 3] as u64) << 24) | ((data[pos + 4] as u64) << 32) | ((data[pos + 5]
            as u64) << 40) | ((data[pos + 6] as u64) << 48) | ((data[pos + 7] as u64) << 56);
        Some((v, pos + 8))
    } else {
        None
    }
}

// --- i64 through its unsigned bit pattern ---

/// The little-endian bytes of a signed 64-bit value's bit pattern.
pub open spec fn enc_i64(x: i64) -> Seq<u8> {
    enc_u64(x as u64)
}

/// The signed 64-bit value read at `pos`.
pub open spec fn dec_i64_at(s: Seq<u8>, pos: int) -> Option<(i64, int)> {
    match dec_u64_at(s, pos) {
        Some(p) => Some((p.0 as i64, p.1)),
        None => None,
    }
}

/// Decoding at a position whose next eight bytes encode `x` yields `x`.
pub proof fn lemma_dec_enc_i64(s: Seq<u8>, pos: int, x: i64)
    requires
        0 <= pos,
        pos + 8 <= s.len(),
        s.subrange(pos, pos + 8) == enc_i64(x),
    ensures
        dec_i64_at(s, pos) == Some((x, pos + 8)),
{
    lemma_dec_enc_u64(s, pos, x as u64);
    assert((x as u64) as i64 == x) by (bit_vector);
}

/// Appends the little-endian bytes of `x`'s bit pattern.
pub fn write_i64(x: i64, out: &mut Vec<u8>)
    ensures
        final(out)@ == old(out)@ + enc_i64(x),
{
    write_u64(#[verifier::truncate] (x as u64), out);
}

/// Reads a signed 64-bit value at `pos`.
pub fn read_i64(data: &Vec<u8>, pos: usize) -> (r: Option<(i64, usize)>)
    ensures
        match dec_i64_at(data@, pos as int) {
            Some(p) => r matches Some(q) && q.0 == p.0 && q.1 as int == p.1,
            None => r is None,
        },
{
    match read_u64(data, pos) {
        Some((v, p)) => Some((#[verifier::truncate] (v as i64), p)),
        None => None,
    }
}

// --- i128 through its unsigned bit pattern, as two 64-bit halves ---

/// The little-endian bytes of a signed 128-bit value's bit pattern: the
/// low half's bytes, then the high half's.
pub open spec fn enc_i128(x: i128) -> Seq<u8> {
    enc_u64((x as u128) as u64) + enc_u64(((x as u128) >> 64) as u64)
}

/// The signed 128-bit value read at `pos`.
pub open spec fn dec_i128_at(s: Seq<u8>, pos: int) -> Option<(i128, int)> {
    match dec_u64_at(s, pos) {
        Some(lo) => match dec_u64_at(s, lo.1) {
            Some(hi) => Some(
                ((((hi.0 as u128) << 64) | (lo.0 as u128)) as i128, hi.1),
            ),
            None => None,
        },
        None => None,
    }
}

/// Decoding at a position whose next sixteen bytes encode `x` yields
/// `x`.
pub proof fn lemma_dec_enc_i128(s: Seq<u8>, pos: int, x: i128)
    requires
        0 <= pos,
        pos + 16 <= s.len(),
        s.subrange(pos, pos + 16) == enc_i128(x),
    ensures
        dec_i128_at(s, pos) == Some((x, pos + 16)),
{
    let lo = (x as u128) as u64;
    let hi = ((x as u128) >> 64) as u64;
    assert forall|k: int| 0 <= k < 16 implies s[pos + k] == enc_i128(x)[k] by {
        assert(s.subrange(pos, pos + 16)[k] == s[pos + k]);
    }
    assert(s.subrange(pos, pos + 8) =~= enc_u64(lo));
    assert forall|j: int| 0 <= j < 8 implies s.subrange(pos + 8, pos + 16)[j] == enc_u64(hi)[j] by {
        assert(s[pos + 8 + j] == enc_i128(x)[8 + j]);
        assert(enc_i128(x)[8 + j] == enc_u64(hi)[j]);
    }
    assert(s.subrange(pos + 8, pos + 16) =~= enc_u64(hi));
    lemma_dec_enc_u64(s, pos, lo);
    lemma_dec_enc_u64(s, pos + 8, hi);
    let u = x as u128;
    assert((((u >> 64) as u64 as u128) << 64) | ((u as u64) as u128) == u) by (bit_vector);
    assert((x as u128) as i128 == x) by (bit_vector);
}

/// Appends the little-endian bytes of `x`'s bit pattern.
pub fn write_i128(x: i128, out: &mut Vec<u8>)
    ensures
        final(out)@ == old(out)@ + enc_i128(x),
{
    let u = #[verifier::truncate] (x as u128);
    write_u64(#[verifier::truncate] (u as u64), out);
    write_u64(#[verifier::truncate] ((u >> 64) as u64), out);
    assert(out@ =~= old(out)@ + enc_i128(x));
}

/// Reads a signed 128-bit value at `pos`.
pub fn read_i128(data: &Vec<u8>, pos: usize) -> (r: Option<(i128, usize)>)
    ensures
        match dec_i128_at(data@, pos as int) {
            Some(p) => r matches Some(q) && q.0 == p.0 && q.1 as int == p.1,
            None => r is None,
        },
{
    match read_u64(data, pos) {
        Some((lo, p1)) => match read_u64(data, p1) {
            Some((hi, p2)) => Some(
                (#[verifier::truncate] ((((hi as u128) << 64) | (lo as u128)) as i128), p2),
            ),
            None => None,
        },
        None => None,
    }
}

// --- bool, one byte ---

/// The single byte encoding a boolean: one for true, zero for false.
pub open spec fn enc_bool(b: bool) -> Seq<u8> {
    seq![if b { 1u8 } else { 0u8 }]
}

/// The boolean read at `pos`; any byte other than zero or one is a
/// malformed encoding.
pub open spec fn dec_bool_at(s: Seq<u8>, pos: int) -> Option<(bool, int)> {
    if 0 <= pos && pos + 1 <= s.len() {
        if s[pos] == 0u8 {
            Some((false, pos + 1))
        } else if s[pos] == 1u8 {
            Some((true, pos + 1))
        } else {
            None
        }
    } else {
        None
    }
}

/// Decoding at a position whose next byte encodes `b` yields `b`.
pub proof fn lemma_dec_enc_bool(s: Seq<u8>, pos: int, b: bool)
    requires
        0 <= pos,
        pos + 1 <= s.len(),
        s.subrange(pos, pos + 1) == enc_bool(b),
    ensures
        dec_bool_at(s, pos) == Some((b, pos + 1)),
{
    assert(s[pos] == enc_bool(b)[0]);
}

/// Appends the byte encoding `b`.
pub fn write_bool(b: bool, out: &mut Vec<u8>)
    ensures
        final(out)@ == old(out)@ + enc_bool(b),
{
    out.push(if b { 1u8 } else { 0u8 });
    assert(out@ =~= old(out)@ + enc_bool(b));
}

/// Reads a boolean at `pos`.
pub fn read_bool(data: &Vec<u8>, pos: usize) -> (r: Option<(bool, usize)>)
    ensures
        match dec_bool_at(data@, pos as int) {
            Some(p) => r matches Some(q) && q.0 == p.0 && q.1 as int == p.1,
            None => r is None,
        },
{
    if pos < data.len() {
        let b = data[pos];
        if b == 0 {
            Some((false, pos + 1))
        } else if b == 1 {
            Some((true, pos + 1))
        } else {
            None
        }
    } else {
        None
    }
}

// --- strings: a byte count, then the UTF-8 bytes ---

/// The encoding of a string: its UTF-8 byte count, then those bytes.
pub open spec fn enc_str(t: Seq<char>) -> Seq<u8> {
    enc_u64(encode_utf8(t).len() as u64) + encode_utf8(t)
}

/// The string read at `pos`: a byte count, then that many bytes, which
/// must be valid UTF-8.
pub open spec fn dec_str_at(s: Seq<u8>, pos: int) -> Option<(Seq<char>, int)> {
    match dec_u64_at(s, pos) {
        Some(n) => {
            let end = n.1 + n.0 as int;
            if end <= s.len() && valid_utf8(s.subrange(n.1, end)) {
                Some((decode_utf8(s.subrange(n.1, end)), end))
            } else {
                None
            }
        },
        None => None,
    }
}

/// Decoding at a position holding a string's encoding yields the string.
pub proof fn lemma_dec_enc_str(s: Seq<u8>, pos: int, t: Seq<char>)
    requires
        0 <= pos,
        encode_utf8(t).len() < 0x1_0000_0000_0000_0000,
        pos + enc_str(t).len() <= s.len(),
        s.subrange(pos, pos + enc_str(t).len()) == enc_str(t),
    ensures
        dec_str_at(s, pos) == Some((t, pos + enc_str(t).len())),
{
    broadcast use encode_utf8_valid_utf8, encode_utf8_decode_utf8;

    let n = encode_utf8(t).len() as u64;
    lemma_subrange_split(s, pos, enc_u64(n), encode_utf8(t));
    lemma_dec_enc_u64(s, pos, n);
}

/// Relies on `String::from_utf8`: it succeeds exactly on valid UTF-8
/// input and returns the string whose UTF-8 encoding is that input.
#[verifier::external_body]
fn string_from_utf8(bytes: Vec<u8>) -> (r: Option<String>)
    ensures
        r matches Some(st) ==> encode_utf8(st@) == bytes@,
        valid_utf8(bytes@) ==> r is Some,
{
    String::from_utf8(bytes).ok()
}

/// The bytes of `data` from `from` for `count` positions.
fn copy_range(data: &Vec<u8>, from: usize, count: usize) -> (r: Vec<u8>)
    requires
        from + count <= data@.len(),
    ensures
        r@ == data@.subrange(from as int, from + count),
{
    let dl: usize = data.len();
    let mut r: Vec<u8> = Vec::new();
    let mut k: usize = 0;
    while k < count
        invariant
            k <= count,
            from + count <= data@.len(),
            data@.len() == dl,
            r@ =~= data@.subrange(from as int, from + k),
        decreases count - k,
    {
        r.push(data[from + k]);
        assert(r@ =~= data@.subrange(from as int, from + k + 1));
        k = k + 1;
    }
    r
}

/// Appends the encoding of a string.
pub fn write_str(t: &String, out: &mut Vec<u8>)
    ensures
        final(out)@ == old(out)@ + enc_str(t@),
{
    let mut bytes = t.as_str().as_bytes_vec();
    write_u64(bytes.len() as u64, out);
    out.append(&mut bytes);
    assert(out@ =~= old(out)@ + enc_str(t@));
}

/// Reads a string at `pos`.
pub fn read_str(data: &Vec<u8>, pos: usize) -> (r: Option<(String, usize)>)
    ensures
        match dec_str_at(data@, pos as int) {
            Some(p) => r matches Some(q) && q.0@ == p.0 && q.1 as int == p.1,
            None => r is None,
        },
{
    broadcast use encode_utf8_valid_utf8, encode_utf8_decode_utf8;

    match read_u64(data, pos) {
        Some((n, p1)) => {
            if n <= (data.len() - p1) as u64 {
                let count = n as usize;
                let bytes = copy_range(data, p1, count);
                match string_from_utf8(bytes) {
                    Some(st) => Some((st, p1 + count)),
                    None => None,
                }
            } else {
                None
            }
        },
        None => None,
    }
}

// --- tables of string keys with string values ---

/// A string pair list as its observable character sequences.
pub open spec fn ss_obs(v: Seq<(String, String)>) -> Seq<(Seq<char>, Seq<char>)> {
    v.map_values(|p: (String, String)| (p.0@, p.1@))
}

/// The encoding of the entries of a string-to-string table, in order.
pub open spec fn enc_ss(s: Seq<(Seq<char>, Seq<char>)>) -> Seq<u8>
    decreases s.len(),
{
    if s.len() == 0 {
        Seq::empty()
    } else {
        enc_ss(s.drop_last()) + enc_str(s.last().0) + enc_str(s.last().1)
    }
}

/// The encoding of a string-to-string table: an entry count, then the
/// entries in order.
pub open spec fn enc_ss_table(s: Seq<(Seq<char>, Seq<char>)>) -> Seq<u8> {
    enc_u64(s.len() as u64) + enc_ss(s)
}

/// `n` string pairs read from `pos`.
pub open spec fn dec_ss_entries(s: Seq<u8>, pos: int, n: nat) -> Option<
    (Seq<(Seq<char>, Seq<char>)>, int),
>
    decreases n,
{
    if n == 0 {
        Some((Seq::empty(), pos))
    } else {
        match dec_str_at(s, pos) {
            Some(k) => match dec_str_at(s, k.1) {
                Some(v) => match dec_ss_entries(s, v.1, (n - 1) as nat) {
                    Some(rest) => Some((seq![(k.0, v.0)] + rest.0, rest.1)),
                    None => None,
                },
                None => None,
            },
            None => None,
        }
    }
}

/// The string-to-string table read at `pos`.
pub open spec fn dec_ss_table_at(s: Seq<u8>, pos: int) -> Option<
    (Seq<(Seq<char>, Seq<char>)>, int),
> {
    match dec_u64_at(s, pos) {
        Some(n) => dec_ss_entries(s, n.1, n.0 as nat),
        None => None,
    }
}

/// A string fits its length prefix.
pub open spec fn str_ok(t: Seq<char>) -> bool {
    encode_utf8(t).len() < 0x1_0000_0000_0000_0000
}

/// Every string of the table fits its length prefix, and the entry
/// count fits its prefix.
pub open spec fn ss_ok(s: Seq<(Seq<char>, Seq<char>)>) -> bool {
    s.len() < 0x1_0000_0000_0000_0000 && forall|i: int|
        0 <= i < s.len() ==> str_ok(#[trigger] s[i].0) && str_ok(s[i].1)
}

/// A nonempty entry encoding splits off its first entry.
proof fn lemma_enc_ss_first(s: Seq<(Seq<char>, Seq<char>)>)
    requires
        s.len() > 0,
    ensures
        enc_ss(s) == enc_str(s[0].0) + enc_str(s[0].1) + enc_ss(s.drop_first()),
    decreases s.len(),
{
    if s.len() == 1 {
        assert(s.drop_last() =~= Seq::<(Seq<char>, Seq<char>)>::empty());
        assert(s.drop_first() =~= Seq::<(Seq<char>, Seq<char>)>::empty());
        assert(enc_ss(s) =~= enc_str(s[0].0) + enc_str(s[0].1) + enc_ss(s.drop_first()));
    } else {
        lemma_enc_ss_first(s.drop_last());
        assert(s.drop_last()[0] == s[0]);
        assert(s.drop_first().drop_last() =~= s.drop_last().drop_first());
        assert(s.drop_first().last() == s.last());
        assert(enc_ss(s.drop_first()) == enc_ss(s.drop_first().drop_last()) + enc_str(
            s.drop_first().last().0,
        ) + enc_str(s.drop_first().last().1));
        assert(enc_ss(s) =~= enc_str(s[0].0) + enc_str(s[0].1) + enc_ss(s.drop_first()));
    }
}

/// Decoding at a position holding `n` encoded entries yields them.
pub proof fn lemma_dec_enc_ss(buf: Seq<u8>, pos: int, s: Seq<(Seq<char>, Seq<char>)>)
    requires
        0 <= pos,
        ss_ok(s),
        pos + enc_ss(s).len() <= buf.len(),
        buf.subrange(pos, pos + enc_ss(s).len()) == enc_ss(s),
    ensures
        dec_ss_entries(buf, pos, s.len() as nat) == Some((s, pos + enc_ss(s).len())),
    decreases s.len(),
{
    if s.len() == 0 {
        assert(s =~= Seq::<(Seq<char>, Seq<char>)>::empty());
    } else {
        lemma_enc_ss_first(s);
        let e0 = enc_str(s[0].0);
        let e1 = enc_str(s[0].1);
        let rest = enc_ss(s.drop_first());
        assert(enc_ss(s) == e0 + (e1 + rest));
        assert((e0 + (e1 + rest)).len() == e0.len() + (e1 + rest).len());
        lemma_subrange_split(buf, pos, e0, e1 + rest);
        lemma_subrange_split(buf, pos + e0.len(), e1, rest);
        lemma_dec_enc_str(buf, pos, s[0].0);
        lemma_dec_enc_str(buf, pos + e0.len(), s[0].1);
        lemma_dec_enc_ss(buf, pos + e0.len() + e1.len(), s.drop_first());
        assert(seq![(s[0].0, s[0].1)] + s.drop_first() =~= s);
    }
}

/// Decoding at a position holding a table's encoding yields the table.
pub proof fn lemma_dec_enc_ss_table(buf: Seq<u8>, pos: int, s: Seq<(Seq<char>, Seq<char>)>)
    requires
        0 <= pos,
        ss_ok(s),
        pos + enc_ss_table(s).len() <= buf.len(),
        buf.subrange(pos, pos + enc_ss_table(s).len()) == enc_ss_table(s),
    ensures
        dec_ss_table_at(buf, pos) == Some((s, pos + enc_ss_table(s).len())),
{
    let n = s.len() as u64;
    lemma_subrange_split(buf, pos, enc_u64(n), enc_ss(s));
    lemma_dec_enc_u64(buf, pos, n);
    lemma_dec_enc_ss(buf, pos + 8, s);
}

/// Appends the encoding of a string-to-string table.
pub fn write_ss_table(entries: &Vec<(String, String)>, out: &mut Vec<u8>)
    ensures
        final(out)@ == old(out)@ + enc_ss_table(ss_obs(entries@)),
{
    let ghost obs = ss_obs(entries@);
    write_u64(entries.len() as u64, out);
    let ghost base = out@;
    let mut i: usize = 0;
    assert(obs.take(0) =~= Seq::<(Seq<char>, Seq<char>)>::empty());
    while i < entries.len()
        invariant
            i <= entries.len(),
            obs == ss_obs(entries@),
            obs.len() == entries@.len(),
            forall|j: int| 0 <= j < entries@.len() ==> obs[j] == (entries@[j].0@, entries@[j].1@),
            out@ == base + enc_ss(obs.take(i as int)),
        decreases entries.len() - i,
    {
        write_str(&entries[i].0, out);
        write_str(&entries[i].1, out);
        assert(obs.take(i + 1).drop_last() =~= obs.take(i as int));
        assert(out@ =~= base + enc_ss(obs.take(i + 1)));
        i = i + 1;
    }
    assert(obs.take(entries@.len() as int) =~= obs);
    assert(out@ =~= old(out)@ + enc_ss_table(obs));
}

/// Reads a string-to-string table at `pos`.
pub fn read_ss_table(data: &Vec<u8>, pos: usize) -> (r: Option<(Vec<(String, String)>, usize)>)
    ensures
        match dec_ss_table_at(data@, pos as int) {
            Some(p) => r matches Some(q) && ss_obs(q.0@) == p.0 && q.1 as int == p.1,
            None => r is None,
        },
{
    let n = match read_u64(data, pos) {
        Some((n, p1)) => (n, p1),
        None => { return None },
    };
    let (count, start) = n;
    let mut acc: Vec<(String, String)> = Vec::new();
    let mut cur: usize = start;
    let mut i: u64 = 0;
    proof {
        let d0 = dec_ss_entries(data@, start as int, count as nat);
        if d0 is Some {
            assert(ss_obs(acc@) + d0.unwrap().0 =~= d0.unwrap().0);
        }
    }
    while i < count
        invariant
            i <= count,
            dec_u64_at(data@, pos as int) == Some((count, start as int)),
            match dec_ss_entries(data@, cur as int, (count - i) as nat) {
                Some(rest) => dec_ss_entries(data@, start as int, count as nat) == Some(
                    (ss_obs(acc@) + rest.0, rest.1),
                ),
                None => dec_ss_entries(data@, start as int, count as nat) is None,
            },
        decreases count - i,
    {
        let k = match read_str(data, cur) {
            Some(p) => p,
            None => {
                proof {
                    assert(dec_ss_entries(data@, cur as int, (count - i) as nat) is None);
                }
                return None
            },
        };
        let v = match read_str(data, k.1) {
            Some(p) => p,
            None => {
                proof {
                    assert(dec_ss_entries(data@, cur as int, (count - i) as nat) is None);
                }
                return None
            },
        };
        let ghost acc0 = acc@;
        acc.push((k.0, v.0));
        cur = v.1;
        i = i + 1;
        proof {
            let d = dec_ss_entries(data@, cur as int, (count - i) as nat);
            if d is Some {
                let rest = d.unwrap();
                assert(ss_obs(acc@) =~= ss_obs(acc0).push((k.0@, v.0@)));
                assert(ss_obs(acc@) + rest.0 =~= ss_obs(acc0) + (seq![(k.0@, v.0@)] + rest.0));
            }
        }
    }
    assert(ss_obs(acc@) + Seq::<(Seq<char>, Seq<char>)>::empty() =~= ss_obs(acc@));
    Some((acc, cur))
}

// --- tables of string keys with decimal values ---

/// A string-decimal pair list as its observable values.
pub open spec fn sd_obs(v: Seq<(String, Decimal)>) -> Seq<(Seq<char>, int)> {
    v.map_values(|p: (String, Decimal)| (p.0@, p.1@))
}

/// The encoding of the entries of a string-to-decimal table, in order.
pub open spec fn enc_sd(s: Seq<(Seq<char>, int)>) -> Seq<u8>
    decreases s.len(),
{
    if s.len() == 0 {
        Seq::empty()
    } else {
        enc_sd(s.drop_last()) + enc_str(s.last().0) + enc_i128(s.last().1 as i128)
    }
}

/// The encoding of a string-to-decimal table: an entry count, then the
/// entries in order.
pub open spec fn enc_sd_table(s: Seq<(Seq<char>, int)>) -> Seq<u8> {
    enc_u64(s.len() as u64) + enc_sd(s)
}

/// `n` string-decimal pairs read from `pos`.
pub open spec fn dec_sd_entries(s: Seq<u8>, pos: int, n: nat) -> Option<(Seq<(Seq<char>, int)>, int)>
    decreases n,
{
    if n == 0 {
        Some((Seq::empty(), pos))
    } else {
        match dec_str_at(s, pos) {
            Some(k) => match dec_i128_at(s, k.1) {
                Some(v) => match dec_sd_entries(s, v.1, (n - 1) as nat) {
                    Some(rest) => Some((seq![(k.0, v.0 as int)] + rest.0, rest.1)),
                    None => None,
                },
                None => None,
            },
            None => None,
        }
    }
}

/// The string-to-decimal table read at `pos`.
pub open spec fn dec_sd_table_at(s: Seq<u8>, pos: int) -> Option<(Seq<(Seq<char>, int)>, int)> {
    match dec_u64_at(s, pos) {
        Some(n) => dec_sd_entries(s, n.1, n.0 as nat),
        None => None,
    }
}

/// Every string of the table fits its length prefix, every value fits
/// the 128-bit range, and the entry count fits its prefix.
pub open spec fn sd_ok(s: Seq<(Seq<char>, int)>) -> bool {
    s.len() < 0x1_0000_0000_0000_0000 && forall|i: int|
        0 <= i < s.len() ==> str_ok(#[trigger] s[i].0) && i128::MIN <= s[i].1 <= i128::MAX
}

/// A nonempty entry encoding splits off its first entry.
proof fn lemma_enc_sd_first(s: Seq<(Seq<char>, int)>)
    requires
        s.len() > 0,
    ensures
        enc_sd(s) == enc_str(s[0].0) + enc_i128(s[0].1 as i128) + enc_sd(s.drop_first()),
    decreases s.len(),
{
    if s.len() == 1 {
        assert(s.drop_last() =~= Seq::<(Seq<char>, int)>::empty());
        assert(s.drop_first() =~= Seq::<(Seq<char>, int)>::empty());
        assert(enc_sd(s) =~= enc_str(s[0].0) + enc_i128(s[0].1 as i128) + enc_sd(s.drop_first()));
    } else {
        lemma_enc_sd_first(s.drop_last());
        assert(s.drop_last()[0] == s[0]);
        assert(s.drop_first().drop_last() =~= s.drop_last().drop_first());
        assert(s.drop_first().last() == s.last());
        assert(enc_sd(s.drop_first()) == enc_sd(s.drop_first().drop_last()) + enc_str(
            s.drop_first().last().0,
        ) + enc_i128(s.drop_first().last().1 as i128));
        assert(enc_sd(s) =~= enc_str(s[0].0) + enc_i128(s[0].1 as i128) + enc_sd(s.drop_first()));
    }
}

/// Decoding at a position holding `n` encoded entries yields them.
pub proof fn lemma_dec_enc_sd(buf: Seq<u8>, pos: int, s: Seq<(Seq<char>, int)>)
    requires
        0 <= pos,
        sd_ok(s),
        pos + enc_sd(s).len() <= buf.len(),
        buf.subrange(pos, pos + enc_sd(s).len()) == enc_sd(s),
    ensures
        dec_sd_entries(buf, pos, s.len() as nat) == Some((s, pos + enc_sd(s).len())),
    decreases s.len(),
{
    if s.len() == 0 {
        assert(s =~= Seq::<(Seq<char>, int)>::empty());
    } else {
        lemma_enc_sd_first(s);
        let e0 = enc_str(s[0].0);
        let e1 = enc_i128(s[0].1 as i128);
        let rest = enc_sd(s.drop_first());
        assert(enc_sd(s) == e0 + (e1 + rest));
        assert((e0 + (e1 + rest)).len() == e0.len() + (e1 + rest).len());
        lemma_subrange_split(buf, pos, e0, e1 + rest);
        lemma_subrange_split(buf, pos + e0.len(), e1, rest);
        lemma_dec_enc_str(buf, pos, s[0].0);
        assert(e1.len() == 16);
        lemma_dec_enc_i128(buf, pos + e0.len(), s[0].1 as i128);
        lemma_dec_enc_sd(buf, pos + e0.len() + e1.len(), s.drop_first());
        assert((s[0].1 as i128) as int == s[0].1);
        assert(seq![(s[0].0, s[0].1)] + s.drop_first() =~= s);
    }
}

/// Decoding at a position holding a table's encoding yields the table.
pub proof fn lemma_dec_enc_sd_table(buf: Seq<u8>, pos: int, s: Seq<(Seq<char>, int)>)
    requires
        0 <= pos,
        sd_ok(s),
        pos + enc_sd_table(s).len() <= buf.len(),
        buf.subrange(pos, pos + enc_sd_table(s).len()) == enc_sd_table(s),
    ensures
        dec_sd_table_at(buf, pos) == Some((s, pos + enc_sd_table(s).len())),
{
    let n = s.len() as u64;
    lemma_subrange_split(buf, pos, enc_u64(n), enc_sd(s));
    lemma_dec_enc_u64(buf, pos, n);
    lemma_dec_enc_sd(buf, pos + 8, s);
}

/// Appends the encoding of a string-to-decimal table.
pub fn write_sd_table(entries: &Vec<(String, Decimal)>, out: &mut Vec<u8>)
    ensures
        final(out)@ == old(out)@ + enc_sd_table(sd_obs(entries@)),
{
    let ghost obs = sd_obs(entries@);
    write_u64(entries.len() as u64, out);
    let ghost base = out@;
    let mut i: usize = 0;
    assert(obs.take(0) =~= Seq::<(Seq<char>, int)>::empty());
    while i < entries.len()
        invariant
            i <= entries.len(),
            obs == sd_obs(entries@),
            obs.len() == entries@.len(),
            forall|j: int| 0 <= j < entries@.len() ==> obs[j] == (entries@[j].0@, entries@[j].1@),
            out@ == base + enc_sd(obs.take(i as int)),
        decreases entries.len() - i,
    {
        write_str(&entries[i].0, out);
        write_i128(entries[i].1.subunits(), out);
        assert(obs.take(i + 1).drop_last() =~= obs.take(i as int));
        assert((entries@[i as int].1@ as i128) as int == entries@[i as int].1@) by {
            crate::decimal::lemma_decimal_in_range(entries@[i as int].1);
        }
        assert(out@ =~= base + enc_sd(obs.take(i + 1)));
        i = i + 1;
    }
    assert(obs.take(entries@.len() as int) =~= obs);
    assert(out@ =~= old(out)@ + enc_sd_table(obs));
}

/// Reads a string-to-decimal table at `pos`.
pub fn read_sd_table(data: &Vec<u8>, pos: usize) -> (r: Option<(Vec<(String, Decimal)>, usize)>)
    ensures
        match dec_sd_table_at(data@, pos as int) {
            Some(p) => r matches Some(q) && sd_obs(q.0@) == p.0 && q.1 as int == p.1,
            None => r is None,
        },
{
    let n = match read_u64(data, pos) {
        Some((n, p1)) => (n, p1),
        None => { return None },
    };
    let (count, start) = n;
    let mut acc: Vec<(String, Decimal)> = Vec::new();
    let mut cur: usize = start;
    let mut i: u64 = 0;
    proof {
        let d0 = dec_sd_entries(data@, start as int, count as nat);
        if d0 is Some {
            assert(sd_obs(acc@) + d0.unwrap().0 =~= d0.unwrap().0);
        }
    }
    while i < count
        invariant
            i <= count,
            dec_u64_at(data@, pos as int) == Some((count, start as int)),
            match dec_sd_entries(data@, cur as int, (count - i) as nat) {
                Some(rest) => dec_sd_entries(data@, start as int, count as nat) == Some(
                    (sd_obs(acc@) + rest.0, rest.1),
                ),
                None => dec_sd_entries(data@, start as int, count as nat) is None,
            },
        decreases count - i,
    {
        let k = match read_str(data, cur) {
            Some(p) => p,
            None => {
                proof {
                    assert(dec_sd_entries(data@, cur as int, (count - i) as nat) is None);
                }
                return None
            },
        };
        let v = match read_i128(data, k.1) {
            Some(p) => p,
            None => {
                proof {
                    assert(dec_sd_entries(data@, cur as int, (count - i) as nat) is None);
                }
                return None
            },
        };
        let ghost acc0 = acc@;
        acc.push((k.0, Decimal::new(v.0)));
        cur = v.1;
        i = i + 1;
        proof {
            let d = dec_sd_entries(data@, cur as int, (count - i) as nat);
            if d is Some {
                let rest = d.unwrap();
                assert(sd_obs(acc@) =~= sd_obs(acc0).push((k.0@, v.0 as int)));
                assert(sd_obs(acc@) + rest.0 =~= sd_obs(acc0) + (seq![(k.0@, v.0 as int)]
                    + rest.0));
            }
        }
    }
    assert(sd_obs(acc@) + Seq::<(Seq<char>, int)>::empty() =~= sd_obs(acc@));
    Some((acc, cur))
}

} // verus!
