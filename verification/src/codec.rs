//! The wire format of the message catalog: a fixed, self-describing byte
//! encoding. Every number is little-endian; every string is a character
//! count followed by one 32-bit scalar value per character; every list is
//! an element count followed by the elements; every tagged variant is a
//! one-byte tag followed by its fields. Decoding is exact: it succeeds
//! precisely on well-formed encodings, and an unknown tag fails explicitly.

use vstd::prelude::*;
use vstd::string::StringExecFns;

verus! {

// ---------------------------------------------------------------------
// Primitive encoders (spec level)
// ---------------------------------------------------------------------

pub open spec fn enc_u8(x: u8) -> Seq<u8> {
    seq![x]
}

pub open spec fn enc_u32(x: u32) -> Seq<u8> {
    seq![
        (x & 0xff) as u8,
        ((x >> 8) & 0xff) as u8,
        ((x >> 16) & 0xff) as u8,
        ((x >> 24) & 0xff) as u8,
    ]
}

pub open spec fn u32_from_bytes(b0: u8, b1: u8, b2: u8, b3: u8) -> u32 {
    (b0 as u32) | ((b1 as u32) << 8) | ((b2 as u32) << 16) | ((b3 as u32) << 24)
}

pub open spec fn enc_u64(x: u64) -> Seq<u8> {
    seq![
        (x & 0xff) as u8,
        ((x >> 8) & 0xff) as u8,
        ((x >> 16) & 0xff) as u8,
        ((x >> 24) & 0xff) as u8,
        ((x >> 32) & 0xff) as u8,
        ((x >> 40) & 0xff) as u8,
        ((x >> 48) & 0xff) as u8,
        ((x >> 56) & 0xff) as u8,
    ]
}

pub open spec fn u64_from_bytes(
    b0: u8, b1: u8, b2: u8, b3: u8, b4: u8, b5: u8, b6: u8, b7: u8,
) -> u64 {
    (b0 as u64) | ((b1 as u64) << 8) | ((b2 as u64) << 16) | ((b3 as u64) << 24)
        | ((b4 as u64) << 32) | ((b5 as u64) << 40) | ((b6 as u64) << 48) | ((b7 as u64) << 56)
}

/// A timestamp is a sign byte (0 for non-negative, 1 for negative) and the
/// magnitude; a negative value t is stored as -1 - t, which is non-negative.
pub open spec fn enc_i64(t: i64) -> Seq<u8> {
    if t >= 0 {
        seq![0u8] + enc_u64(t as u64)
    } else {
        seq![1u8] + enc_u64((-1 - t) as u64)
    }
}

/// A Unicode scalar value: what a character may hold.
pub open spec fn is_scalar_value(x: u32) -> bool {
    x < 0xD800 || (0xE000 <= x && x <= 0x10FFFF)
}

pub open spec fn enc_chars(s: Seq<char>) -> Seq<u8>
    decreases s.len(),
{
    if s.len() == 0 {
        Seq::empty()
    } else {
        enc_u32(s[0] as u32) + enc_chars(s.drop_first())
    }
}

pub open spec fn enc_str(s: Seq<char>) -> Seq<u8> {
    enc_u64(s.len() as u64) + enc_chars(s)
}

pub open spec fn enc_bytes(p: Seq<u8>) -> Seq<u8> {
    enc_u64(p.len() as u64) + p
}

pub open spec fn enc_str_each(ss: Seq<Seq<char>>) -> Seq<u8>
    decreases ss.len(),
{
    if ss.len() == 0 {
        Seq::empty()
    } else {
        enc_str(ss[0]) + enc_str_each(ss.drop_first())
    }
}

pub open spec fn enc_str_list(ss: Seq<Seq<char>>) -> Seq<u8> {
    enc_u64(ss.len() as u64) + enc_str_each(ss)
}

pub open spec fn enc_bytes_each(ps: Seq<Seq<u8>>) -> Seq<u8>
    decreases ps.len(),
{
    if ps.len() == 0 {
        Seq::empty()
    } else {
        enc_bytes(ps[0]) + enc_bytes_each(ps.drop_first())
    }
}

pub open spec fn enc_bytes_list(ps: Seq<Seq<u8>>) -> Seq<u8> {
    enc_u64(ps.len() as u64) + enc_bytes_each(ps)
}

// ---------------------------------------------------------------------
// Primitive decoders (spec level)
// ---------------------------------------------------------------------

pub open spec fn dec_u8(b: Seq<u8>, pos: int) -> Option<(u8, int)> {
    if 0 <= pos && pos + 1 <= b.len() {
        Some((b[pos], pos + 1))
    } else {
        None
    }
}

pub open spec fn dec_u32(b: Seq<u8>, pos: int) -> Option<(u32, int)> {
    if 0 <= pos && pos + 4 <= b.len() {
        Some((u32_from_bytes(b[pos], b[pos + 1], b[pos + 2], b[pos + 3]), pos + 4))
    } else {
        None
    }
}

pub open spec fn dec_u64(b: Seq<u8>, pos: int) -> Option<(u64, int)> {
    if 0 <= pos && pos + 8 <= b.len() {
        Some((
            u64_from_bytes(
                b[pos], b[pos + 1], b[pos + 2], b[pos + 3],
                b[pos + 4], b[pos + 5], b[pos + 6], b[pos + 7],
            ),
            pos + 8,
        ))
    } else {
        None
    }
}

pub open spec fn dec_i64(b: Seq<u8>, pos: int) -> Option<(i64, int)> {
    match dec_u8(b, pos) {
        Some((sign, p1)) => match dec_u64(b, p1) {
            Some((m, p2)) => if sign == 0 && m <= i64::MAX as u64 {
                Some((m as i64, p2))
            } else if sign == 1 && m <= i64::MAX as u64 {
                Some(((-1 - (m as int)) as i64, p2))
            } else {
                None
            },
            None => None,
        },
        None => None,
    }
}

pub open spec fn dec_chars(b: Seq<u8>, pos: int, n: nat) -> Option<(Seq<char>, int)>
    decreases n,
{
    if n == 0 {
        Some((Seq::empty(), pos))
    } else {
        match dec_u32(b, pos) {
            Some((x, p1)) => if is_scalar_value(x) {
                match dec_chars(b, p1, (n - 1) as nat) {
                    Some((rest, p2)) => Some((seq![x as char] + rest, p2)),
                    None => None,
                }
            } else {
                None
            },
            None => None,
        }
    }
}

pub open spec fn dec_str(b: Seq<u8>, pos: int) -> Option<(Seq<char>, int)> {
    match dec_u64(b, pos) {
        Some((n, p1)) => dec_chars(b, p1, n as nat),
        None => None,
    }
}

pub open spec fn dec_bytes(b: Seq<u8>, pos: int) -> Option<(Seq<u8>, int)> {
    match dec_u64(b, pos) {
        Some((n, p1)) => if p1 + n <= b.len() {
            Some((b.subrange(p1, p1 + n), p1 + n))
        } else {
            None
        },
        None => None,
    }
}

pub open spec fn dec_str_each(b: Seq<u8>, pos: int, n: nat) -> Option<(Seq<Seq<char>>, int)>
    decreases n,
{
    if n == 0 {
        Some((Seq::empty(), pos))
    } else {
        match dec_str(b, pos) {
            Some((s, p1)) => match dec_str_each(b, p1, (n - 1) as nat) {
                Some((rest, p2)) => Some((seq![s] + rest, p2)),
                None => None,
            },
            None => None,
        }
    }
}

pub open spec fn dec_str_list(b: Seq<u8>, pos: int) -> Option<(Seq<Seq<char>>, int)> {
    match dec_u64(b, pos) {
        Some((n, p1)) => dec_str_each(b, p1, n as nat),
        None => None,
    }
}

pub open spec fn dec_bytes_each(b: Seq<u8>, pos: int, n: nat) -> Option<(Seq<Seq<u8>>, int)>
    decreases n,
{
    if n == 0 {
        Some((Seq::empty(), pos))
    } else {
        match dec_bytes(b, pos) {
            Some((p, p1)) => match dec_bytes_each(b, p1, (n - 1) as nat) {
                Some((rest, p2)) => Some((seq![p] + rest, p2)),
                None => None,
            },
            None => None,
        }
    }
}

pub open spec fn dec_bytes_list(b: Seq<u8>, pos: int) -> Option<(Seq<Seq<u8>>, int)> {
    match dec_u64(b, pos) {
        Some((n, p1)) => dec_bytes_each(b, p1, n as nat),
        None => None,
    }
}

// ---------------------------------------------------------------------
// Round-trip lemmas for the primitives: a decoder applied where the
// corresponding encoding lies in the buffer yields the encoded value.
// ---------------------------------------------------------------------

proof fn lemma_u32_bytes_round(x: u32)
    ensures
        u32_from_bytes(
            (x & 0xff) as u8,
            ((x >> 8) & 0xff) as u8,
            ((x >> 16) & 0xff) as u8,
            ((x >> 24) & 0xff) as u8,
        ) == x,
{
    assert((((x & 0xff) as u8) as u32) | (((((x >> 8) & 0xff) as u8) as u32) << 8)
        | (((((x >> 16) & 0xff) as u8) as u32) << 16)
        | (((((x >> 24) & 0xff) as u8) as u32) << 24) == x) by (bit_vector);
}

proof fn lemma_u64_bytes_round(x: u64)
    ensures
        u64_from_bytes(
            (x & 0xff) as u8,
            ((x >> 8) & 0xff) as u8,
            ((x >> 16) & 0xff) as u8,
            ((x >> 24) & 0xff) as u8,
            ((x >> 32) & 0xff) as u8,
            ((x >> 40) & 0xff) as u8,
            ((x >> 48) & 0xff) as u8,
            ((x >> 56) & 0xff) as u8,
        ) == x,
{
    assert((((x & 0xff) as u8) as u64) | (((((x >> 8) & 0xff) as u8) as u64) << 8)
        | (((((x >> 16) & 0xff) as u8) as u64) << 16)
        | (((((x >> 24) & 0xff) as u8) as u64) << 24)
        | (((((x >> 32) & 0xff) as u8) as u64) << 32)
        | (((((x >> 40) & 0xff) as u8) as u64) << 40)
        | (((((x >> 48) & 0xff) as u8) as u64) << 48)
        | (((((x >> 56) & 0xff) as u8) as u64) << 56) == x) by (bit_vector);
}

/// Splitting a subrange at an interior point.
pub proof fn lemma_subrange_split(b: Seq<u8>, x: int, y: int, z: int)
    requires
        0 <= x <= y <= z <= b.len(),
    ensures
        b.subrange(x, z) == b.subrange(x, y) + b.subrange(y, z),
{
    assert(b.subrange(x, z) =~= b.subrange(x, y) + b.subrange(y, z));
}

/// Cancelling a concatenation: equal concatenations with equally long
/// left parts have equal parts.
pub proof fn lemma_concat_cancel(a1: Seq<u8>, a2: Seq<u8>, c1: Seq<u8>, c2: Seq<u8>)
    requires
        a1 + a2 == c1 + c2,
        a1.len() == c1.len(),
    ensures
        a1 == c1,
        a2 == c2,
{
    assert forall|i: int| 0 <= i < a1.len() implies a1[i] == c1[i] by {
        assert((a1 + a2)[i] == a1[i]);
        assert((c1 + c2)[i] == c1[i]);
    }
    assert(a1 =~= c1);
    assert((a1 + a2).len() == a1.len() + a2.len());
    assert((c1 + c2).len() == c1.len() + c2.len());
    assert((a1 + a2).len() == (c1 + c2).len());
    assert(a2.len() == c2.len());
    assert forall|i: int| 0 <= i < a2.len() implies a2[i] == c2[i] by {
        assert((a1 + a2)[a1.len() + i] == a2[i]);
        assert((c1 + c2)[c1.len() + i] == c2[i]);
    }
    assert(a2 =~= c2);
}

/// Splits "the bytes at pos hold `head + tail`" into its two parts.
proof fn lemma_split_enc(b: Seq<u8>, pos: int, head: Seq<u8>, tail: Seq<u8>)
    requires
        0 <= pos,
        pos + head.len() + tail.len() <= b.len(),
        b.subrange(pos, pos + head.len() + tail.len()) == head + tail,
    ensures
        b.subrange(pos, pos + head.len()) == head,
        b.subrange(pos + head.len(), pos + head.len() + tail.len()) == tail,
{
    let mid = pos + head.len();
    let end = pos + head.len() + tail.len();
    lemma_subrange_split(b, pos, mid, end);
    lemma_concat_cancel(b.subrange(pos, mid), b.subrange(mid, end), head, tail);
}

pub proof fn lemma_dec_enc_u8(b: Seq<u8>, pos: int, x: u8)
    requires
        0 <= pos,
        pos + 1 <= b.len(),
        b.subrange(pos, pos + 1) == enc_u8(x),
    ensures
        dec_u8(b, pos) == Some((x, pos + 1)),
{
    assert(b[pos] == b.subrange(pos, pos + 1)[0]);
}

pub proof fn lemma_dec_enc_u32(b: Seq<u8>, pos: int, x: u32)
    requires
        0 <= pos,
        pos + 4 <= b.len(),
        b.subrange(pos, pos + 4) == enc_u32(x),
    ensures
        dec_u32(b, pos) == Some((x, pos + 4)),
{
    assert forall|i: int| 0 <= i < 4 implies b[pos + i] == enc_u32(x)[i] by {
        assert(b.subrange(pos, pos + 4)[i] == b[pos + i]);
    }
    lemma_u32_bytes_round(x);
}

pub proof fn lemma_dec_enc_u64(b: Seq<u8>, pos: int, x: u64)
    requires
        0 <= pos,
        pos + 8 <= b.len(),
        b.subrange(pos, pos + 8) == enc_u64(x),
    ensures
        dec_u64(b, pos) == Some((x, pos + 8)),
{
    assert forall|i: int| 0 <= i < 8 implies b[pos + i] == enc_u64(x)[i] by {
        assert(b.subrange(pos, pos + 8)[i] == b[pos + i]);
    }
    lemma_u64_bytes_round(x);
}

pub proof fn lemma_dec_enc_i64(b: Seq<u8>, pos: int, t: i64)
    requires
        0 <= pos,
        pos + enc_i64(t).len() <= b.len(),
        b.subrange(pos, pos + enc_i64(t).len()) == enc_i64(t),
    ensures
        enc_i64(t).len() == 9,
        dec_i64(b, pos) == Some((t, pos + 9)),
{
    let sign: u8 = if t >= 0 { 0u8 } else { 1u8 };
    let m: u64 = if t >= 0 { t as u64 } else { (-1 - t) as u64 };
    assert(enc_i64(t) == enc_u8(sign) + enc_u64(m));
    lemma_split_enc(b, pos, enc_u8(sign), enc_u64(m));
    lemma_dec_enc_u8(b, pos, sign);
    lemma_dec_enc_u64(b, pos + 1, m);
}

pub proof fn lemma_enc_chars_len(s: Seq<char>)
    ensures
        enc_chars(s).len() == 4 * s.len(),
    decreases s.len(),
{
    if s.len() > 0 {
        lemma_enc_chars_len(s.drop_first());
    }
}

pub proof fn lemma_dec_enc_chars(b: Seq<u8>, pos: int, s: Seq<char>)
    requires
        0 <= pos,
        pos + enc_chars(s).len() <= b.len(),
        b.subrange(pos, pos + enc_chars(s).len()) == enc_chars(s),
    ensures
        dec_chars(b, pos, s.len()) == Some((s, pos + enc_chars(s).len())),
    decreases s.len(),
{
    lemma_enc_chars_len(s);
    if s.len() == 0 {
        assert(dec_chars(b, pos, 0) == Some((Seq::<char>::empty(), pos)));
        assert(s =~= Seq::<char>::empty());
    } else {
        let c = s[0];
        let rest = s.drop_first();
        lemma_enc_chars_len(rest);
        assert(enc_chars(s) == enc_u32(c as u32) + enc_chars(rest));
        lemma_split_enc(b, pos, enc_u32(c as u32), enc_chars(rest));
        lemma_dec_enc_u32(b, pos, c as u32);
        vstd::utf8::char_is_scalar(c);
        assert(is_scalar_value(c as u32));
        lemma_dec_enc_chars(b, pos + 4, rest);
        vstd::utf8::char_u32_cast(c, c as u32);
        assert(seq![(c as u32) as char] + rest =~= s);
    }
}

pub proof fn lemma_dec_enc_str(b: Seq<u8>, pos: int, s: Seq<char>)
    requires
        0 <= pos,
        s.len() <= u64::MAX,
        pos + enc_str(s).len() <= b.len(),
        b.subrange(pos, pos + enc_str(s).len()) == enc_str(s),
    ensures
        enc_str(s).len() == 8 + 4 * s.len(),
        dec_str(b, pos) == Some((s, pos + enc_str(s).len())),
{
    lemma_enc_chars_len(s);
    lemma_split_enc(b, pos, enc_u64(s.len() as u64), enc_chars(s));
    lemma_dec_enc_u64(b, pos, s.len() as u64);
    lemma_dec_enc_chars(b, pos + 8, s);
}

pub proof fn lemma_dec_enc_bytes(b: Seq<u8>, pos: int, p: Seq<u8>)
    requires
        0 <= pos,
        p.len() <= u64::MAX,
        pos + enc_bytes(p).len() <= b.len(),
        b.subrange(pos, pos + enc_bytes(p).len()) == enc_bytes(p),
    ensures
        enc_bytes(p).len() == 8 + p.len(),
        dec_bytes(b, pos) == Some((p, pos + enc_bytes(p).len())),
{
    lemma_split_enc(b, pos, enc_u64(p.len() as u64), p);
    lemma_dec_enc_u64(b, pos, p.len() as u64);
}

/// Every string in the list is short enough for its length prefix.
pub open spec fn strs_ok(ss: Seq<Seq<char>>) -> bool {
    forall|i: int| 0 <= i < ss.len() ==> #[trigger] ss[i].len() <= u64::MAX
}

pub proof fn lemma_dec_enc_str_each(b: Seq<u8>, pos: int, ss: Seq<Seq<char>>)
    requires
        0 <= pos,
        strs_ok(ss),
        pos + enc_str_each(ss).len() <= b.len(),
        b.subrange(pos, pos + enc_str_each(ss).len()) == enc_str_each(ss),
    ensures
        dec_str_each(b, pos, ss.len()) == Some((ss, pos + enc_str_each(ss).len())),
    decreases ss.len(),
{
    if ss.len() == 0 {
        assert(ss =~= Seq::<Seq<char>>::empty());
    } else {
        let s = ss[0];
        let rest = ss.drop_first();
        let l0 = enc_str(s).len() as int;
        assert(enc_str_each(ss) == enc_str(s) + enc_str_each(rest));
        lemma_split_enc(b, pos, enc_str(s), enc_str_each(rest));
        assert(s.len() <= u64::MAX) by {
            assert(ss[0].len() <= u64::MAX);
        }
        lemma_dec_enc_str(b, pos, s);
        assert(strs_ok(rest)) by {
            assert(forall|i: int| 0 <= i < rest.len() ==> rest[i] == ss[i + 1]);
        }
        lemma_dec_enc_str_each(b, pos + l0, rest);
        assert(seq![s] + rest =~= ss);
    }
}

pub proof fn lemma_dec_enc_str_list(b: Seq<u8>, pos: int, ss: Seq<Seq<char>>)
    requires
        0 <= pos,
        ss.len() <= u64::MAX,
        strs_ok(ss),
        pos + enc_str_list(ss).len() <= b.len(),
        b.subrange(pos, pos + enc_str_list(ss).len()) == enc_str_list(ss),
    ensures
        dec_str_list(b, pos) == Some((ss, pos + enc_str_list(ss).len())),
{
    lemma_split_enc(b, pos, enc_u64(ss.len() as u64), enc_str_each(ss));
    lemma_dec_enc_u64(b, pos, ss.len() as u64);
    lemma_dec_enc_str_each(b, pos + 8, ss);
}

// ---------------------------------------------------------------------
// Executable writers: each appends the encoding of one value.
// ---------------------------------------------------------------------

/// Relies on char::from_u32: for a Unicode scalar value it returns the
/// character with that value, and never None.
#[verifier::external_body]
fn char_from_u32(x: u32) -> (c: char)
    requires
        is_scalar_value(x),
    ensures
        c == x as char,
        c as u32 == x,
{
    char::from_u32(x).unwrap()
}

/// Relies on String::push: appends one character at the end.
#[verifier::external_body]
fn push_char(s: &mut String, c: char)
    ensures
        final(s)@ == old(s)@ + seq![c],
{
    s.push(c);
}

fn write_u8(buf: &mut Vec<u8>, x: u8)
    ensures
        final(buf)@ == old(buf)@ + enc_u8(x),
{
    buf.push(x);
    assert(buf@ =~= old(buf)@ + enc_u8(x));
}

fn write_u32(buf: &mut Vec<u8>, x: u32)
    ensures
        final(buf)@ == old(buf)@ + enc_u32(x),
{
    assert(x & 0xff < 256 && (x >> 8) & 0xff < 256 && (x >> 16) & 0xff < 256
        && (x >> 24) & 0xff < 256) by (bit_vector);
    buf.push((x & 0xff) as u8);
    buf.push(((x >> 8) & 0xff) as u8);
    buf.push(((x >> 16) & 0xff) as u8);
    buf.push(((x >> 24) & 0xff) as u8);
    assert(buf@ =~= old(buf)@ + enc_u32(x));
}

fn write_u64(buf: &mut Vec<u8>, x: u64)
    ensures
        final(buf)@ == old(buf)@ + enc_u64(x),
{
    assert(x & 0xff < 256 && (x >> 8) & 0xff < 256 && (x >> 16) & 0xff < 256
        && (x >> 24) & 0xff < 256 && (x >> 32) & 0xff < 256 && (x >> 40) & 0xff < 256
        && (x >> 48) & 0xff < 256 && (x >> 56) & 0xff < 256) by (bit_vector);
    buf.push((x & 0xff) as u8);
    buf.push(((x >> 8) & 0xff) as u8);
    buf.push(((x >> 16) & 0xff) as u8);
    buf.push(((x >> 24) & 0xff) as u8);
    buf.push(((x >> 32) & 0xff) as u8);
    buf.push(((x >> 40) & 0xff) as u8);
    buf.push(((x >> 48) & 0xff) as u8);
    buf.push(((x >> 56) & 0xff) as u8);
    assert(buf@ =~= old(buf)@ + enc_u64(x));
}

fn write_i64(buf: &mut Vec<u8>, t: i64)
    ensures
        final(buf)@ == old(buf)@ + enc_i64(t),
{
    if t >= 0 {
        write_u8(buf, 0);
        write_u64(buf, t as u64);
    } else {
        write_u8(buf, 1);
        let m: i64 = -1 - t;
        write_u64(buf, m as u64);
    }
    assert(buf@ =~= old(buf)@ + enc_i64(t));
}

proof fn lemma_enc_chars_snoc(s: Seq<char>, c: char)
    ensures
        enc_chars(s.push(c)) == enc_chars(s) + enc_u32(c as u32),
    decreases s.len(),
{
    if s.len() == 0 {
        assert(s.push(c).drop_first() =~= Seq::<char>::empty());
        assert(s.push(c)[0] == c);
        assert(enc_chars(s.push(c)) == enc_u32(c as u32) + enc_chars(s.push(c).drop_first()));
        assert(enc_chars(Seq::<char>::empty()) == Seq::<u8>::empty());
        assert(enc_chars(s) == Seq::<u8>::empty());
        assert(enc_chars(s.push(c)) =~= enc_chars(s) + enc_u32(c as u32));
    } else {
        assert(s.push(c).drop_first() =~= s.drop_first().push(c));
        assert(s.push(c)[0] == s[0]);
        lemma_enc_chars_snoc(s.drop_first(), c);
        assert(enc_chars(s.push(c)) == enc_u32(s[0] as u32) + enc_chars(s.drop_first().push(c)));
        assert(enc_chars(s.push(c)) =~= enc_chars(s) + enc_u32(c as u32));
    }
}

fn write_str(buf: &mut Vec<u8>, s: &str)
    ensures
        final(buf)@ == old(buf)@ + enc_str(s@),
{
    let ghost buf0 = buf@;
    let n = s.unicode_len();
    write_u64(buf, n as u64);
    let mut i: usize = 0;
    while i < n
        invariant
            i <= n,
            n == s@.len(),
            buf@ == buf0 + enc_u64(n as u64) + enc_chars(s@.take(i as int)),
        decreases n - i,
    {
        let c = s.get_char(i);
        write_u32(buf, c as u32);
        proof {
            lemma_enc_chars_snoc(s@.take(i as int), c);
            assert(s@.take(i as int).push(c) =~= s@.take(i + 1));
        }
        i += 1;
    }
    assert(s@.take(n as int) =~= s@);
    assert(buf@ =~= buf0 + enc_str(s@));
}

fn write_bytes(buf: &mut Vec<u8>, p: &Vec<u8>)
    ensures
        final(buf)@ == old(buf)@ + enc_bytes(p@),
{
    let ghost buf0 = buf@;
    let n = p.len();
    write_u64(buf, n as u64);
    let mut i: usize = 0;
    while i < n
        invariant
            i <= n,
            n == p@.len(),
            buf@ == buf0 + enc_u64(n as u64) + p@.take(i as int),
        decreases n - i,
    {
        buf.push(p[i]);
        proof {
            assert(p@.take(i as int).push(p@[i as int]) =~= p@.take(i + 1));
            assert(buf@ =~= buf0 + enc_u64(n as u64) + p@.take(i + 1));
        }
        i += 1;
    }
    assert(p@.take(n as int) =~= p@);
    assert(buf@ =~= buf0 + enc_bytes(p@));
}

proof fn lemma_enc_str_each_snoc(ss: Seq<Seq<char>>, s: Seq<char>)
    ensures
        enc_str_each(ss.push(s)) == enc_str_each(ss) + enc_str(s),
    decreases ss.len(),
{
    if ss.len() == 0 {
        assert(ss.push(s).drop_first() =~= Seq::<Seq<char>>::empty());
        assert(ss.push(s)[0] == s);
        assert(enc_str_each(ss.push(s)) == enc_str(s) + enc_str_each(ss.push(s).drop_first()));
        assert(enc_str_each(Seq::<Seq<char>>::empty()) == Seq::<u8>::empty());
        assert(enc_str_each(ss) == Seq::<u8>::empty());
        assert(enc_str_each(ss.push(s)) =~= enc_str_each(ss) + enc_str(s));
    } else {
        assert(ss.push(s).drop_first() =~= ss.drop_first().push(s));
        assert(ss.push(s)[0] == ss[0]);
        lemma_enc_str_each_snoc(ss.drop_first(), s);
        assert(enc_str_each(ss.push(s)) =~= enc_str_each(ss) + enc_str(s));
    }
}

fn write_str_list(buf: &mut Vec<u8>, ss: &Vec<String>)
    ensures
        final(buf)@ == old(buf)@ + enc_str_list(ss.deep_view()),
{
    let ghost buf0 = buf@;
    let n = ss.len();
    write_u64(buf, n as u64);
    let mut i: usize = 0;
    while i < n
        invariant
            i <= n,
            n == ss@.len(),
            ss.deep_view().len() == n,
            forall|j: int| 0 <= j < n ==> ss.deep_view()[j] == ss@[j]@,
            buf@ == buf0 + enc_u64(n as u64) + enc_str_each(ss.deep_view().take(i as int)),
        decreases n - i,
    {
        write_str(buf, ss[i].as_str());
        proof {
            lemma_enc_str_each_snoc(ss.deep_view().take(i as int), ss@[i as int]@);
            assert(ss.deep_view().take(i as int).push(ss.deep_view()[i as int])
                =~= ss.deep_view().take(i + 1));
        }
        i += 1;
    }
    assert(ss.deep_view().take(n as int) =~= ss.deep_view());
    assert(buf@ =~= buf0 + enc_str_list(ss.deep_view()));
}

// ---------------------------------------------------------------------
// Executable readers: each mirrors its specification decoder exactly.
// ---------------------------------------------------------------------

fn read_u8(buf: &Vec<u8>, pos: usize) -> (r: Option<(u8, usize)>)
    ensures
        (match (r, dec_u8(buf@, pos as int)) {
            (Some((x, end)), Some((xv, endv))) => x == xv && end as int == endv,
            (None, None) => true,
            _ => false,
        }),
{
    if pos < buf.len() {
        Some((buf[pos], pos + 1))
    } else {
        None
    }
}

fn read_u32(buf: &Vec<u8>, pos: usize) -> (r: Option<(u32, usize)>)
    ensures
        (match (r, dec_u32(buf@, pos as int)) {
            (Some((x, end)), Some((xv, endv))) => x == xv && end as int == endv,
            (None, None) => true,
            _ => false,
        }),
{
    if pos < buf.len() && buf.len() - pos >= 4 {
        let b0 = buf[pos];
        let b1 = buf[pos + 1];
        let b2 = buf[pos + 2];
        let b3 = buf[pos + 3];
        Some(((b0 as u32) | ((b1 as u32) << 8) | ((b2 as u32) << 16) | ((b3 as u32) << 24), pos + 4))
    } else {
        None
    }
}

fn read_u64(buf: &Vec<u8>, pos: usize) -> (r: Option<(u64, usize)>)
    ensures
        (match (r, dec_u64(buf@, pos as int)) {
            (Some((x, end)), Some((xv, endv))) => x == xv && end as int == endv,
            (None, None) => true,
            _ => false,
        }),
{
    if pos < buf.len() && buf.len() - pos >= 8 {
        let b0 = buf[pos];
        let b1 = buf[pos + 1];
        let b2 = buf[pos + 2];
        let b3 = buf[pos + 3];
        let b4 = buf[pos + 4];
        let b5 = buf[pos + 5];
        let b6 = buf[pos + 6];
        let b7 = buf[pos + 7];
        Some((
            (b0 as u64) | ((b1 as u64) << 8) | ((b2 as u64) << 16) | ((b3 as u64) << 24)
                | ((b4 as u64) << 32) | ((b5 as u64) << 40) | ((b6 as u64) << 48)
                | ((b7 as u64) << 56),
            pos + 8,
        ))
    } else {
        None
    }
}

fn read_i64(buf: &Vec<u8>, pos: usize) -> (r: Option<(i64, usize)>)
    ensures
        (match (r, dec_i64(buf@, pos as int)) {
            (Some((t, end)), Some((tv, endv))) => t == tv && end as int == endv,
            (None, None) => true,
            _ => false,
        }),
{
    match read_u8(buf, pos) {
        None => None,
        Some((sign, p1)) => match read_u64(buf, p1) {
            None => None,
            Some((m, p2)) => {
                if sign == 0 && m <= i64::MAX as u64 {
                    Some((m as i64, p2))
                } else if sign == 1 && m <= i64::MAX as u64 {
                    Some((-1 - (m as i64), p2))
                } else {
                    None
                }
            },
        },
    }
}

fn read_chars(buf: &Vec<u8>, pos: usize, n: u64) -> (r: Option<(String, usize)>)
    ensures
        (match (r, dec_chars(buf@, pos as int, n as nat)) {
            (Some((s, end)), Some((sv, endv))) => s@ == sv && end as int == endv,
            (None, None) => true,
            _ => false,
        }),
    decreases n,
{
    if n == 0 {
        Some((String::new(), pos))
    } else {
        match read_u32(buf, pos) {
            None => None,
            Some((x, p1)) => {
                if x < 0xD800 || (0xE000 <= x && x <= 0x10FFFF) {
                    let c = char_from_u32(x);
                    match read_chars(buf, p1, n - 1) {
                        None => None,
                        Some((rest, end)) => {
                            let mut s = String::new();
                            push_char(&mut s, c);
                            s.append(rest.as_str());
                            proof {
                                assert(s@ =~= seq![x as char] + rest@);
                            }
                            Some((s, end))
                        },
                    }
                } else {
                    None
                }
            },
        }
    }
}

fn read_str(buf: &Vec<u8>, pos: usize) -> (r: Option<(String, usize)>)
    ensures
        (match (r, dec_str(buf@, pos as int)) {
            (Some((s, end)), Some((sv, endv))) => s@ == sv && end as int == endv,
            (None, None) => true,
            _ => false,
        }),
{
    match read_u64(buf, pos) {
        None => None,
        Some((n, p1)) => read_chars(buf, p1, n),
    }
}

fn read_bytes(buf: &Vec<u8>, pos: usize) -> (r: Option<(Vec<u8>, usize)>)
    ensures
        (match (r, dec_bytes(buf@, pos as int)) {
            (Some((p, end)), Some((pv, endv))) => p@ == pv && end as int == endv,
            (None, None) => true,
            _ => false,
        }),
{
    match read_u64(buf, pos) {
        None => None,
        Some((n, p1)) => {
            if n <= (buf.len() - p1) as u64 {
                let cnt = n as usize;
                let len = buf.len();
                let mut v: Vec<u8> = Vec::new();
                let mut i: usize = 0;
                while i < cnt
                    invariant
                        i <= cnt,
                        p1 + cnt <= len,
                        len == buf@.len(),
                        v@ == buf@.subrange(p1 as int, p1 as int + i as int),
                    decreases cnt - i,
                {
                    v.push(buf[p1 + i]);
                    assert(v@ =~= buf@.subrange(p1 as int, p1 as int + (i + 1)));
                    i += 1;
                }
                Some((v, p1 + cnt))
            } else {
                None
            }
        },
    }
}

fn read_str_each(buf: &Vec<u8>, pos: usize, n: u64) -> (r: Option<(Vec<String>, usize)>)
    ensures
        (match (r, dec_str_each(buf@, pos as int, n as nat)) {
            (Some((ss, end)), Some((sv, endv))) => ss.deep_view() == sv && end as int == endv,
            (None, None) => true,
            _ => false,
        }),
    decreases n,
{
    if n == 0 {
        let v: Vec<String> = Vec::new();
        assert(v.deep_view() =~= Seq::<Seq<char>>::empty());
        Some((v, pos))
    } else {
        match read_str(buf, pos) {
            None => None,
            Some((s, p1)) => match read_str_each(buf, p1, n - 1) {
                None => None,
                Some((mut rest, end)) => {
                    let ghost s_view = s@;
                    let ghost rest_seq = rest@;
                    let ghost rest_dv = rest.deep_view();
                    rest.insert(0, s);
                    proof {
                        assert(rest@ == rest_seq.insert(0, s));
                        assert forall|i: int| 0 <= i < rest.deep_view().len() implies
                            rest.deep_view()[i] == (seq![s_view] + rest_dv)[i] by {
                            if i == 0 {
                                assert(rest@[0] == s);
                            } else {
                                assert(rest@[i] == rest_seq[i - 1]);
                            }
                        }
                        assert(rest.deep_view() =~= seq![s_view] + rest_dv);
                    }
                    Some((rest, end))
                },
            },
        }
    }
}

fn read_str_list(buf: &Vec<u8>, pos: usize) -> (r: Option<(Vec<String>, usize)>)
    ensures
        (match (r, dec_str_list(buf@, pos as int)) {
            (Some((ss, end)), Some((sv, endv))) => ss.deep_view() == sv && end as int == endv,
            (None, None) => true,
            _ => false,
        }),
{
    match read_u64(buf, pos) {
        None => None,
        Some((n, p1)) => read_str_each(buf, p1, n),
    }
}

// ---------------------------------------------------------------------
// Byte-payload lists
// ---------------------------------------------------------------------

/// Every payload in the list is short enough for its length prefix.
pub open spec fn bytes_ok(ps: Seq<Seq<u8>>) -> bool {
    forall|i: int| 0 <= i < ps.len() ==> #[trigger] ps[i].len() <= u64::MAX
}

pub proof fn lemma_dec_enc_bytes_each(b: Seq<u8>, pos: int, ps: Seq<Seq<u8>>)
    requires
        0 <= pos,
        bytes_ok(ps),
        pos + enc_bytes_each(ps).len() <= b.len(),
        b.subrange(pos, pos + enc_bytes_each(ps).len()) == enc_bytes_each(ps),
    ensures
        dec_bytes_each(b, pos, ps.len()) == Some((ps, pos + enc_bytes_each(ps).len())),
    decreases ps.len(),
{
    if ps.len() == 0 {
        assert(ps =~= Seq::<Seq<u8>>::empty());
    } else {
        let p0 = ps[0];
        let rest = ps.drop_first();
        assert(enc_bytes_each(ps) == enc_bytes(p0) + enc_bytes_each(rest));
        lemma_split_enc(b, pos, enc_bytes(p0), enc_bytes_each(rest));
        assert(p0.len() <= u64::MAX) by {
            assert(ps[0].len() <= u64::MAX);
        }
        lemma_dec_enc_bytes(b, pos, p0);
        assert(bytes_ok(rest)) by {
            assert(forall|i: int| 0 <= i < rest.len() ==> rest[i] == ps[i + 1]);
        }
        lemma_dec_enc_bytes_each(b, pos + enc_bytes(p0).len(), rest);
        assert(seq![p0] + rest =~= ps);
    }
}

pub proof fn lemma_dec_enc_bytes_list(b: Seq<u8>, pos: int, ps: Seq<Seq<u8>>)
    requires
        0 <= pos,
        ps.len() <= u64::MAX,
        bytes_ok(ps),
        pos + enc_bytes_list(ps).len() <= b.len(),
        b.subrange(pos, pos + enc_bytes_list(ps).len()) == enc_bytes_list(ps),
    ensures
        dec_bytes_list(b, pos) == Some((ps, pos + enc_bytes_list(ps).len())),
{
    lemma_split_enc(b, pos, enc_u64(ps.len() as u64), enc_bytes_each(ps));
    lemma_dec_enc_u64(b, pos, ps.len() as u64);
    lemma_dec_enc_bytes_each(b, pos + 8, ps);
}

proof fn lemma_enc_bytes_each_snoc(ps: Seq<Seq<u8>>, p: Seq<u8>)
    ensures
        enc_bytes_each(ps.push(p)) == enc_bytes_each(ps) + enc_bytes(p),
    decreases ps.len(),
{
    if ps.len() == 0 {
        assert(ps.push(p).drop_first() =~= Seq::<Seq<u8>>::empty());
        assert(ps.push(p)[0] == p);
        assert(enc_bytes_each(ps.push(p)) == enc_bytes(p) + enc_bytes_each(ps.push(p).drop_first()));
        assert(enc_bytes_each(Seq::<Seq<u8>>::empty()) == Seq::<u8>::empty());
        assert(enc_bytes_each(ps) == Seq::<u8>::empty());
        assert(enc_bytes_each(ps.push(p)) =~= enc_bytes_each(ps) + enc_bytes(p));
    } else {
        assert(ps.push(p).drop_first() =~= ps.drop_first().push(p));
        assert(ps.push(p)[0] == ps[0]);
        lemma_enc_bytes_each_snoc(ps.drop_first(), p);
        assert(enc_bytes_each(ps.push(p)) =~= enc_bytes_each(ps) + enc_bytes(p));
    }
}

// ---------------------------------------------------------------------
// Peeling one field off a buffer that holds a concatenated encoding.
// ---------------------------------------------------------------------

proof fn peel_u8(b: Seq<u8>, pos: int, x: u8, tail: Seq<u8>)
    requires
        0 <= pos,
        pos + 1 + tail.len() <= b.len(),
        b.subrange(pos, pos + 1 + tail.len()) == enc_u8(x) + tail,
    ensures
        dec_u8(b, pos) == Some((x, pos + 1)),
        b.subrange(pos + 1, pos + 1 + tail.len()) == tail,
{
    lemma_split_enc(b, pos, enc_u8(x), tail);
    lemma_dec_enc_u8(b, pos, x);
}

proof fn peel_u32(b: Seq<u8>, pos: int, x: u32, tail: Seq<u8>)
    requires
        0 <= pos,
        pos + 4 + tail.len() <= b.len(),
        b.subrange(pos, pos + 4 + tail.len()) == enc_u32(x) + tail,
    ensures
        dec_u32(b, pos) == Some((x, pos + 4)),
        b.subrange(pos + 4, pos + 4 + tail.len()) == tail,
{
    lemma_split_enc(b, pos, enc_u32(x), tail);
    lemma_dec_enc_u32(b, pos, x);
}

proof fn peel_i64(b: Seq<u8>, pos: int, t: i64, tail: Seq<u8>)
    requires
        0 <= pos,
        pos + enc_i64(t).len() + tail.len() <= b.len(),
        b.subrange(pos, pos + enc_i64(t).len() + tail.len()) == enc_i64(t) + tail,
    ensures
        enc_i64(t).len() == 9,
        dec_i64(b, pos) == Some((t, pos + 9)),
        b.subrange(pos + 9, pos + 9 + tail.len()) == tail,
{
    lemma_split_enc(b, pos, enc_i64(t), tail);
    lemma_dec_enc_i64(b, pos, t);
}

proof fn peel_str(b: Seq<u8>, pos: int, s: Seq<char>, tail: Seq<u8>)
    requires
        0 <= pos,
        s.len() <= u64::MAX,
        pos + enc_str(s).len() + tail.len() <= b.len(),
        b.subrange(pos, pos + enc_str(s).len() + tail.len()) == enc_str(s) + tail,
    ensures
        dec_str(b, pos) == Some((s, pos + enc_str(s).len())),
        b.subrange(pos + enc_str(s).len(), pos + enc_str(s).len() + tail.len()) == tail,
{
    lemma_split_enc(b, pos, enc_str(s), tail);
    lemma_dec_enc_str(b, pos, s);
}

proof fn peel_bytes(b: Seq<u8>, pos: int, p: Seq<u8>, tail: Seq<u8>)
    requires
        0 <= pos,
        p.len() <= u64::MAX,
        pos + enc_bytes(p).len() + tail.len() <= b.len(),
        b.subrange(pos, pos + enc_bytes(p).len() + tail.len()) == enc_bytes(p) + tail,
    ensures
        dec_bytes(b, pos) == Some((p, pos + enc_bytes(p).len())),
        b.subrange(pos + enc_bytes(p).len(), pos + enc_bytes(p).len() + tail.len()) == tail,
{
    lemma_split_enc(b, pos, enc_bytes(p), tail);
    lemma_dec_enc_bytes(b, pos, p);
}

proof fn peel_str_list(b: Seq<u8>, pos: int, ss: Seq<Seq<char>>, tail: Seq<u8>)
    requires
        0 <= pos,
        ss.len() <= u64::MAX,
        strs_ok(ss),
        pos + enc_str_list(ss).len() + tail.len() <= b.len(),
        b.subrange(pos, pos + enc_str_list(ss).len() + tail.len()) == enc_str_list(ss) + tail,
    ensures
        dec_str_list(b, pos) == Some((ss, pos + enc_str_list(ss).len())),
        b.subrange(pos + enc_str_list(ss).len(), pos + enc_str_list(ss).len() + tail.len()) == tail,
{
    lemma_split_enc(b, pos, enc_str_list(ss), tail);
    lemma_dec_enc_str_list(b, pos, ss);
}

fn write_bytes_list(buf: &mut Vec<u8>, ps: &Vec<crate::commands::MechCommand>)
    ensures
        final(buf)@ == old(buf)@ + enc_bytes_list(ps.deep_view()),
{
    let ghost buf0 = buf@;
    let n = ps.len();
    write_u64(buf, n as u64);
    let mut i: usize = 0;
    while i < n
        invariant
            i <= n,
            n == ps@.len(),
            ps.deep_view().len() == n,
            forall|j: int| 0 <= j < n ==> ps.deep_view()[j] == ps@[j].payload@,
            buf@ == buf0 + enc_u64(n as u64) + enc_bytes_each(ps.deep_view().take(i as int)),
        decreases n - i,
    {
        write_bytes(buf, &ps[i].payload);
        proof {
            lemma_enc_bytes_each_snoc(ps.deep_view().take(i as int), ps@[i as int].payload@);
            assert(ps.deep_view().take(i as int).push(ps.deep_view()[i as int])
                =~= ps.deep_view().take(i + 1));
        }
        i += 1;
    }
    assert(ps.deep_view().take(n as int) =~= ps.deep_view());
    assert(buf@ =~= buf0 + enc_bytes_list(ps.deep_view()));
}

fn read_bytes_each(buf: &Vec<u8>, pos: usize, n: u64) -> (r: Option<(
    Vec<crate::commands::MechCommand>,
    usize,
)>)
    ensures
        (match (r, dec_bytes_each(buf@, pos as int, n as nat)) {
            (Some((ps, end)), Some((pv, endv))) => ps.deep_view() == pv && end as int == endv,
            (None, None) => true,
            _ => false,
        }),
    decreases n,
{
    if n == 0 {
        let v: Vec<crate::commands::MechCommand> = Vec::new();
        assert(v.deep_view() =~= Seq::<Seq<u8>>::empty());
        Some((v, pos))
    } else {
        match read_bytes(buf, pos) {
            None => None,
            Some((p, p1)) => match read_bytes_each(buf, p1, n - 1) {
                None => None,
                Some((mut rest, end)) => {
                    let ghost p_view = p@;
                    let ghost rest_seq = rest@;
                    let ghost rest_dv = rest.deep_view();
                    rest.insert(0, crate::commands::MechCommand { payload: p });
                    proof {
                        assert forall|i: int| 0 <= i < rest.deep_view().len() implies
                            rest.deep_view()[i] == (seq![p_view] + rest_dv)[i] by {
                            if i == 0 {
                            } else {
                                assert(rest@[i] == rest_seq[i - 1]);
                            }
                        }
                        assert(rest.deep_view() =~= seq![p_view] + rest_dv);
                    }
                    Some((rest, end))
                },
            },
        }
    }
}

fn read_bytes_list(buf: &Vec<u8>, pos: usize) -> (r: Option<(
    Vec<crate::commands::MechCommand>,
    usize,
)>)
    ensures
        (match (r, dec_bytes_list(buf@, pos as int)) {
            (Some((ps, end)), Some((pv, endv))) => ps.deep_view() == pv && end as int == endv,
            (None, None) => true,
            _ => false,
        }),
{
    match read_u64(buf, pos) {
        None => None,
        Some((n, p1)) => read_bytes_each(buf, p1, n),
    }
}

// ---------------------------------------------------------------------
// MechInfo
// ---------------------------------------------------------------------

pub open spec fn enc_mech_info(m: crate::MechInfoView) -> Seq<u8> {
    enc_str(m.name) + (enc_str(m.avatar) + (enc_str(m.team) + enc_str(m.id)))
}

pub open spec fn dec_mech_info(b: Seq<u8>, pos: int) -> Option<(crate::MechInfoView, int)> {
    match dec_str(b, pos) {
        Some((name, p1)) => match dec_str(b, p1) {
            Some((avatar, p2)) => match dec_str(b, p2) {
                Some((team, p3)) => match dec_str(b, p3) {
                    Some((id, p4)) => Some((crate::MechInfoView { name, avatar, team, id }, p4)),
                    None => None,
                },
                None => None,
            },
            None => None,
        },
        None => None,
    }
}

/// Round trip: a mech identity decodes from its own encoding, wherever
/// it stands in a buffer.
pub proof fn lemma_dec_enc_mech_info(b: Seq<u8>, pos: int, m: crate::MechInfoView)
    requires
        m.wf(),
        0 <= pos,
        pos + enc_mech_info(m).len() <= b.len(),
        b.subrange(pos, pos + enc_mech_info(m).len()) == enc_mech_info(m),
    ensures
        dec_mech_info(b, pos) == Some((m, pos + enc_mech_info(m).len())),
{
    let t3 = enc_str(m.id);
    let t2 = enc_str(m.team) + t3;
    let t1 = enc_str(m.avatar) + t2;
    peel_str(b, pos, m.name, t1);
    let p1 = pos + enc_str(m.name).len();
    peel_str(b, p1, m.avatar, t2);
    let p2 = p1 + enc_str(m.avatar).len();
    peel_str(b, p2, m.team, t3);
    let p3 = p2 + enc_str(m.team).len();
    lemma_dec_enc_str(b, p3, m.id);
}

fn write_mech_info(buf: &mut Vec<u8>, m: &crate::MechInfo)
    ensures
        final(buf)@ == old(buf)@ + enc_mech_info(m@),
{
    write_str(buf, m.name.as_str());
    write_str(buf, m.avatar.as_str());
    write_str(buf, m.team.as_str());
    write_str(buf, m.id.as_str());
    assert(buf@ =~= old(buf)@ + enc_mech_info(m@));
}

fn read_mech_info(buf: &Vec<u8>, pos: usize) -> (r: Option<(crate::MechInfo, usize)>)
    ensures
        (match (r, dec_mech_info(buf@, pos as int)) {
            (Some((m, end)), Some((mv, endv))) => m@ == mv && end as int == endv,
            (None, None) => true,
            _ => false,
        }),
{
    match read_str(buf, pos) {
        None => None,
        Some((name, p1)) => match read_str(buf, p1) {
            None => None,
            Some((avatar, p2)) => match read_str(buf, p2) {
                None => None,
                Some((team, p3)) => match read_str(buf, p3) {
                    None => None,
                    Some((id, p4)) => Some((crate::MechInfo { name, avatar, team, id }, p4)),
                },
            },
        },
    }
}

/// Encodes a mech identity to the wire format.
pub fn encode_mech_info(m: &crate::MechInfo) -> (out: Vec<u8>)
    ensures
        out@ == enc_mech_info(m@),
{
    let mut out: Vec<u8> = Vec::new();
    write_mech_info(&mut out, m);
    assert(out@ =~= enc_mech_info(m@));
    out
}

/// Decodes a mech identity: succeeds exactly on a whole, well-formed
/// encoding.
pub fn decode_mech_info(buf: &Vec<u8>) -> (r: Option<crate::MechInfo>)
    ensures
        (match (r, dec_mech_info(buf@, 0)) {
            (Some(m), Some((mv, end))) => m@ == mv && end == buf@.len(),
            (None, Some((mv, end))) => end != buf@.len(),
            (None, None) => true,
            (Some(m), None) => false,
        }),
{
    match read_mech_info(buf, 0) {
        Some((m, end)) => if end == buf.len() {
            Some(m)
        } else {
            None
        },
        None => None,
    }
}

// ---------------------------------------------------------------------
// Credential exchange messages
// ---------------------------------------------------------------------

pub open spec fn enc_token_request(v: crate::tools::TokenRequestView) -> Seq<u8> {
    enc_str(v.account_key)
}

pub open spec fn dec_token_request(b: Seq<u8>, pos: int) -> Option<(
    crate::tools::TokenRequestView,
    int,
)> {
    match dec_str(b, pos) {
        Some((account_key, p1)) => Some((crate::tools::TokenRequestView { account_key }, p1)),
        None => None,
    }
}

/// Round trip: a token request decodes from its own encoding.
pub proof fn lemma_dec_enc_token_request(b: Seq<u8>, pos: int, v: crate::tools::TokenRequestView)
    requires
        v.wf(),
        0 <= pos,
        pos + enc_token_request(v).len() <= b.len(),
        b.subrange(pos, pos + enc_token_request(v).len()) == enc_token_request(v),
    ensures
        dec_token_request(b, pos) == Some((v, pos + enc_token_request(v).len())),
{
    lemma_dec_enc_str(b, pos, v.account_key);
}

/// Encodes a token request to the wire format.
pub fn encode_token_request(v: &crate::tools::TokenRequest) -> (out: Vec<u8>)
    ensures
        out@ == enc_token_request(v@),
{
    let mut out: Vec<u8> = Vec::new();
    write_str(&mut out, v.account_key.as_str());
    assert(out@ =~= enc_token_request(v@));
    out
}

/// Decodes a token request: succeeds exactly on a whole, well-formed
/// encoding.
pub fn decode_token_request(buf: &Vec<u8>) -> (r: Option<crate::tools::TokenRequest>)
    ensures
        (match (r, dec_token_request(buf@, 0)) {
            (Some(m), Some((mv, end))) => m@ == mv && end == buf@.len(),
            (None, Some((mv, end))) => end != buf@.len(),
            (None, None) => true,
            (Some(m), None) => false,
        }),
{
    match read_str(buf, 0) {
        Some((account_key, end)) => if end == buf.len() {
            Some(crate::tools::TokenRequest { account_key })
        } else {
            None
        },
        None => None,
    }
}

pub open spec fn enc_credentials_request(v: crate::tools::CredentialsRequestView) -> Seq<u8> {
    enc_str(v.account_key) + enc_str(v.token)
}

pub open spec fn dec_credentials_request(b: Seq<u8>, pos: int) -> Option<(
    crate::tools::CredentialsRequestView,
    int,
)> {
    match dec_str(b, pos) {
        Some((account_key, p1)) => match dec_str(b, p1) {
            Some((token, p2)) => Some((
                crate::tools::CredentialsRequestView { account_key, token },
                p2,
            )),
            None => None,
        },
        None => None,
    }
}

/// Round trip: a credentials request decodes from its own encoding.
pub proof fn lemma_dec_enc_credentials_request(
    b: Seq<u8>,
    pos: int,
    v: crate::tools::CredentialsRequestView,
)
    requires
        v.wf(),
        0 <= pos,
        pos + enc_credentials_request(v).len() <= b.len(),
        b.subrange(pos, pos + enc_credentials_request(v).len()) == enc_credentials_request(v),
    ensures
        dec_credentials_request(b, pos) == Some((v, pos + enc_credentials_request(v).len())),
{
    peel_str(b, pos, v.account_key, enc_str(v.token));
    lemma_dec_enc_str(b, pos + enc_str(v.account_key).len(), v.token);
}

/// Encodes a credentials request to the wire format.
pub fn encode_credentials_request(v: &crate::tools::CredentialsRequest) -> (out: Vec<u8>)
    ensures
        out@ == enc_credentials_request(v@),
{
    let mut out: Vec<u8> = Vec::new();
    write_str(&mut out, v.account_key.as_str());
    write_str(&mut out, v.token.as_str());
    assert(out@ =~= enc_credentials_request(v@));
    out
}

/// Decodes a credentials request: succeeds exactly on a whole,
/// well-formed encoding.
pub fn decode_credentials_request(buf: &Vec<u8>) -> (r: Option<crate::tools::CredentialsRequest>)
    ensures
        (match (r, dec_credentials_request(buf@, 0)) {
            (Some(m), Some((mv, end))) => m@ == mv && end == buf@.len(),
            (None, Some((mv, end))) => end != buf@.len(),
            (None, None) => true,
            (Some(m), None) => false,
        }),
{
    match read_str(buf, 0) {
        None => None,
        Some((account_key, p1)) => match read_str(buf, p1) {
            None => None,
            Some((token, end)) => if end == buf.len() {
                Some(crate::tools::CredentialsRequest { account_key, token })
            } else {
                None
            },
        },
    }
}

pub open spec fn enc_credentials_response(v: crate::tools::CredentialsResponseView) -> Seq<u8> {
    match v {
        crate::tools::CredentialsResponseView::Valid { user_jwt, user_secret } => enc_u8(0) + (
        enc_str(user_jwt) + enc_str(user_secret)),
        crate::tools::CredentialsResponseView::Error(reason) => enc_u8(1) + enc_str(reason),
    }
}

pub open spec fn dec_credentials_response(b: Seq<u8>, pos: int) -> Option<(
    crate::tools::CredentialsResponseView,
    int,
)> {
    match dec_u8(b, pos) {
        Some((tag, p1)) => if tag == 0 {
            match dec_str(b, p1) {
                Some((user_jwt, p2)) => match dec_str(b, p2) {
                    Some((user_secret, p3)) => Some((
                        crate::tools::CredentialsResponseView::Valid { user_jwt, user_secret },
                        p3,
                    )),
                    None => None,
                },
                None => None,
            }
        } else if tag == 1 {
            match dec_str(b, p1) {
                Some((reason, p2)) => Some((
                    crate::tools::CredentialsResponseView::Error(reason),
                    p2,
                )),
                None => None,
            }
        } else {
            None
        },
        None => None,
    }
}

/// Round trip: a credentials response decodes from its own encoding.
pub proof fn lemma_dec_enc_credentials_response(
    b: Seq<u8>,
    pos: int,
    v: crate::tools::CredentialsResponseView,
)
    requires
        v.wf(),
        0 <= pos,
        pos + enc_credentials_response(v).len() <= b.len(),
        b.subrange(pos, pos + enc_credentials_response(v).len()) == enc_credentials_response(v),
    ensures
        dec_credentials_response(b, pos) == Some((v, pos + enc_credentials_response(v).len())),
{
    match v {
        crate::tools::CredentialsResponseView::Valid { user_jwt, user_secret } => {
            let t1 = enc_str(user_jwt) + enc_str(user_secret);
            peel_u8(b, pos, 0, t1);
            peel_str(b, pos + 1, user_jwt, enc_str(user_secret));
            lemma_dec_enc_str(b, pos + 1 + enc_str(user_jwt).len(), user_secret);
        },
        crate::tools::CredentialsResponseView::Error(reason) => {
            peel_u8(b, pos, 1, enc_str(reason));
            lemma_dec_enc_str(b, pos + 1, reason);
        },
    }
}

/// Encodes a credentials response to the wire format.
pub fn encode_credentials_response(v: &crate::tools::CredentialsResponse) -> (out: Vec<u8>)
    ensures
        out@ == enc_credentials_response(v@),
{
    let mut out: Vec<u8> = Vec::new();
    match v {
        crate::tools::CredentialsResponse::Valid { user_jwt, user_secret } => {
            write_u8(&mut out, 0);
            write_str(&mut out, user_jwt.as_str());
            write_str(&mut out, user_secret.as_str());
        },
        crate::tools::CredentialsResponse::Error(reason) => {
            write_u8(&mut out, 1);
            write_str(&mut out, reason.as_str());
        },
    }
    assert(out@ =~= enc_credentials_response(v@));
    out
}

/// Decodes a credentials response: succeeds exactly on a whole,
/// well-formed encoding; an unknown tag fails.
pub fn decode_credentials_response(buf: &Vec<u8>) -> (r: Option<crate::tools::CredentialsResponse>)
    ensures
        (match (r, dec_credentials_response(buf@, 0)) {
            (Some(m), Some((mv, end))) => m@ == mv && end == buf@.len(),
            (None, Some((mv, end))) => end != buf@.len(),
            (None, None) => true,
            (Some(m), None) => false,
        }),
{
    match read_u8(buf, 0) {
        None => None,
        Some((tag, p1)) => if tag == 0 {
            match read_str(buf, p1) {
                None => None,
                Some((user_jwt, p2)) => match read_str(buf, p2) {
                    None => None,
                    Some((user_secret, end)) => if end == buf.len() {
                        Some(crate::tools::CredentialsResponse::Valid { user_jwt, user_secret })
                    } else {
                        None
                    },
                },
            }
        } else if tag == 1 {
            match read_str(buf, p1) {
                None => None,
                Some((reason, end)) => if end == buf.len() {
                    Some(crate::tools::CredentialsResponse::Error(reason))
                } else {
                    None
                },
            }
        } else {
            None
        },
    }
}

// ---------------------------------------------------------------------
// Scheduling records
// ---------------------------------------------------------------------

pub open spec fn enc_schedule_entry(e: crate::scheduler::MatchScheduleEntry) -> Seq<u8> {
    enc_u32(e.max_actors) + (enc_u32(e.board_height) + (enc_u32(e.board_width) + (enc_u32(
        e.max_turns,
    ) + enc_i64(e.match_start))))
}

pub open spec fn dec_schedule_entry(b: Seq<u8>, pos: int) -> Option<(
    crate::scheduler::MatchScheduleEntry,
    int,
)> {
    match dec_u32(b, pos) {
        Some((max_actors, p1)) => match dec_u32(b, p1) {
            Some((board_height, p2)) => match dec_u32(b, p2) {
                Some((board_width, p3)) => match dec_u32(b, p3) {
                    Some((max_turns, p4)) => match dec_i64(b, p4) {
                        Some((match_start, p5)) => Some((
                            crate::scheduler::MatchScheduleEntry {
                                max_actors,
                                board_height,
                                board_width,
                                max_turns,
                                match_start,
                            },
                            p5,
                        )),
                        None => None,
                    },
                    None => None,
                },
                None => None,
            },
            None => None,
        },
        None => None,
    }
}

/// Round trip: a schedule entry decodes from its own encoding.
pub proof fn lemma_dec_enc_schedule_entry(
    b: Seq<u8>,
    pos: int,
    e: crate::scheduler::MatchScheduleEntry,
)
    requires
        0 <= pos,
        pos + enc_schedule_entry(e).len() <= b.len(),
        b.subrange(pos, pos + enc_schedule_entry(e).len()) == enc_schedule_entry(e),
    ensures
        enc_schedule_entry(e).len() == 25,
        dec_schedule_entry(b, pos) == Some((e, pos + enc_schedule_entry(e).len())),
{
    let t4 = enc_i64(e.match_start);
    let t3 = enc_u32(e.max_turns) + t4;
    let t2 = enc_u32(e.board_width) + t3;
    let t1 = enc_u32(e.board_height) + t2;
    peel_u32(b, pos, e.max_actors, t1);
    peel_u32(b, pos + 4, e.board_height, t2);
    peel_u32(b, pos + 8, e.board_width, t3);
    peel_u32(b, pos + 12, e.max_turns, t4);
    lemma_dec_enc_i64(b, pos + 16, e.match_start);
}

fn write_schedule_entry(buf: &mut Vec<u8>, e: &crate::scheduler::MatchScheduleEntry)
    ensures
        final(buf)@ == old(buf)@ + enc_schedule_entry(*e),
{
    write_u32(buf, e.max_actors);
    write_u32(buf, e.board_height);
    write_u32(buf, e.board_width);
    write_u32(buf, e.max_turns);
    write_i64(buf, e.match_start);
    assert(buf@ =~= old(buf)@ + enc_schedule_entry(*e));
}

fn read_schedule_entry(buf: &Vec<u8>, pos: usize) -> (r: Option<(
    crate::scheduler::MatchScheduleEntry,
    usize,
)>)
    ensures
        (match (r, dec_schedule_entry(buf@, pos as int)) {
            (Some((e, end)), Some((ev, endv))) => e == ev && end as int == endv,
            (None, None) => true,
            _ => false,
        }),
{
    match read_u32(buf, pos) {
        None => None,
        Some((max_actors, p1)) => match read_u32(buf, p1) {
            None => None,
            Some((board_height, p2)) => match read_u32(buf, p2) {
                None => None,
                Some((board_width, p3)) => match read_u32(buf, p3) {
                    None => None,
                    Some((max_turns, p4)) => match read_i64(buf, p4) {
                        None => None,
                        Some((match_start, p5)) => Some((
                            crate::scheduler::MatchScheduleEntry {
                                max_actors,
                                board_height,
                                board_width,
                                max_turns,
                                match_start,
                            },
                            p5,
                        )),
                    },
                },
            },
        },
    }
}

/// Encodes a schedule entry to the wire format.
pub fn encode_schedule_entry(e: &crate::scheduler::MatchScheduleEntry) -> (out: Vec<u8>)
    ensures
        out@ == enc_schedule_entry(*e),
{
    let mut out: Vec<u8> = Vec::new();
    write_schedule_entry(&mut out, e);
    assert(out@ =~= enc_schedule_entry(*e));
    out
}

/// Decodes a schedule entry: succeeds exactly on a whole, well-formed
/// encoding.
pub fn decode_schedule_entry(buf: &Vec<u8>) -> (r: Option<crate::scheduler::MatchScheduleEntry>)
    ensures
        (match (r, dec_schedule_entry(buf@, 0)) {
            (Some(e), Some((ev, end))) => e == ev && end == buf@.len(),
            (None, Some((ev, end))) => end != buf@.len(),
            (None, None) => true,
            (Some(e), None) => false,
        }),
{
    match read_schedule_entry(buf, 0) {
        Some((e, end)) => if end == buf.len() {
            Some(e)
        } else {
            None
        },
        None => None,
    }
}

pub open spec fn enc_match_identifier(id: Seq<char>) -> Seq<u8> {
    enc_str(id)
}

pub open spec fn dec_match_identifier(b: Seq<u8>, pos: int) -> Option<(Seq<char>, int)> {
    dec_str(b, pos)
}

/// Round trip: a match identifier decodes from its own encoding.
pub proof fn lemma_dec_enc_match_identifier(b: Seq<u8>, pos: int, id: Seq<char>)
    requires
        id.len() <= u64::MAX,
        0 <= pos,
        pos + enc_match_identifier(id).len() <= b.len(),
        b.subrange(pos, pos + enc_match_identifier(id).len()) == enc_match_identifier(id),
    ensures
        dec_match_identifier(b, pos) == Some((id, pos + enc_match_identifier(id).len())),
{
    lemma_dec_enc_str(b, pos, id);
}

/// Encodes a match identifier to the wire format.
pub fn encode_match_identifier(m: &crate::scheduler::MatchIdentifier) -> (out: Vec<u8>)
    ensures
        out@ == enc_match_identifier(m@),
{
    let mut out: Vec<u8> = Vec::new();
    write_str(&mut out, m.match_id.as_str());
    assert(out@ =~= enc_match_identifier(m@));
    out
}

/// Decodes a match identifier: succeeds exactly on a whole, well-formed
/// encoding.
pub fn decode_match_identifier(buf: &Vec<u8>) -> (r: Option<crate::scheduler::MatchIdentifier>)
    ensures
        (match (r, dec_match_identifier(buf@, 0)) {
            (Some(m), Some((mv, end))) => m@ == mv && end == buf@.len(),
            (None, Some((mv, end))) => end != buf@.len(),
            (None, None) => true,
            (Some(m), None) => false,
        }),
{
    match read_str(buf, 0) {
        Some((match_id, end)) => if end == buf.len() {
            Some(crate::scheduler::MatchIdentifier { match_id })
        } else {
            None
        },
        None => None,
    }
}

pub open spec fn enc_stored_match(v: crate::scheduler::StoredMatchView) -> Seq<u8> {
    enc_str(v.match_id) + (enc_schedule_entry(v.entry) + enc_u32(v.aps_per_turn))
}

pub open spec fn dec_stored_match(b: Seq<u8>, pos: int) -> Option<(
    crate::scheduler::StoredMatchView,
    int,
)> {
    match dec_str(b, pos) {
        Some((match_id, p1)) => match dec_schedule_entry(b, p1) {
            Some((entry, p2)) => match dec_u32(b, p2) {
                Some((aps_per_turn, p3)) => Some((
                    crate::scheduler::StoredMatchView { match_id, entry, aps_per_turn },
                    p3,
                )),
                None => None,
            },
            None => None,
        },
        None => None,
    }
}

/// Round trip: a stored match decodes from its own encoding.
pub proof fn lemma_dec_enc_stored_match(b: Seq<u8>, pos: int, v: crate::scheduler::StoredMatchView)
    requires
        v.wf(),
        0 <= pos,
        pos + enc_stored_match(v).len() <= b.len(),
        b.subrange(pos, pos + enc_stored_match(v).len()) == enc_stored_match(v),
    ensures
        dec_stored_match(b, pos) == Some((v, pos + enc_stored_match(v).len())),
{
    let t1 = enc_schedule_entry(v.entry) + enc_u32(v.aps_per_turn);
    peel_str(b, pos, v.match_id, t1);
    let p1 = pos + enc_str(v.match_id).len();
    lemma_split_enc(b, p1, enc_schedule_entry(v.entry), enc_u32(v.aps_per_turn));
    lemma_dec_enc_schedule_entry(b, p1, v.entry);
    let p2 = p1 + enc_schedule_entry(v.entry).len();
    lemma_dec_enc_u32(b, p2, v.aps_per_turn);
}

/// Encodes a stored match to the wire format.
pub fn encode_stored_match(v: &crate::scheduler::StoredMatch) -> (out: Vec<u8>)
    ensures
        out@ == enc_stored_match(v@),
{
    let mut out: Vec<u8> = Vec::new();
    write_str(&mut out, v.match_id.as_str());
    write_schedule_entry(&mut out, &v.entry);
    write_u32(&mut out, v.aps_per_turn);
    assert(out@ =~= enc_stored_match(v@));
    out
}

/// Decodes a stored match: succeeds exactly on a whole, well-formed
/// encoding.
pub fn decode_stored_match(buf: &Vec<u8>) -> (r: Option<crate::scheduler::StoredMatch>)
    ensures
        (match (r, dec_stored_match(buf@, 0)) {
            (Some(m), Some((mv, end))) => m@ == mv && end == buf@.len(),
            (None, Some((mv, end))) => end != buf@.len(),
            (None, None) => true,
            (Some(m), None) => false,
        }),
{
    match read_str(buf, 0) {
        None => None,
        Some((match_id, p1)) => match read_schedule_entry(buf, p1) {
            None => None,
            Some((entry, p2)) => match read_u32(buf, p2) {
                None => None,
                Some((aps_per_turn, end)) => if end == buf.len() {
                    Some(crate::scheduler::StoredMatch { match_id, entry, aps_per_turn })
                } else {
                    None
                },
            },
        },
    }
}

// ---------------------------------------------------------------------
// End causes and arena events
// ---------------------------------------------------------------------

pub open spec fn enc_end_cause(v: crate::events::EndCauseView) -> Seq<u8> {
    match v {
        crate::events::EndCauseView::MaxTurnsCompleted { survivors } => enc_u8(0) + enc_str_list(
            survivors,
        ),
        crate::events::EndCauseView::MechVictory(winner) => enc_u8(1) + enc_str(winner),
    }
}

pub open spec fn dec_end_cause(b: Seq<u8>, pos: int) -> Option<(crate::events::EndCauseView, int)> {
    match dec_u8(b, pos) {
        Some((tag, p1)) => if tag == 0 {
            match dec_str_list(b, p1) {
                Some((survivors, p2)) => Some((
                    crate::events::EndCauseView::MaxTurnsCompleted { survivors },
                    p2,
                )),
                None => None,
            }
        } else if tag == 1 {
            match dec_str(b, p1) {
                Some((winner, p2)) => Some((crate::events::EndCauseView::MechVictory(winner), p2)),
                None => None,
            }
        } else {
            None
        },
        None => None,
    }
}

/// Round trip: an end cause decodes from its own encoding.
pub proof fn lemma_dec_enc_end_cause(b: Seq<u8>, pos: int, v: crate::events::EndCauseView)
    requires
        v.wf(),
        0 <= pos,
        pos + enc_end_cause(v).len() <= b.len(),
        b.subrange(pos, pos + enc_end_cause(v).len()) == enc_end_cause(v),
    ensures
        dec_end_cause(b, pos) == Some((v, pos + enc_end_cause(v).len())),
{
    match v {
        crate::events::EndCauseView::MaxTurnsCompleted { survivors } => {
            peel_u8(b, pos, 0, enc_str_list(survivors));
            lemma_dec_enc_str_list(b, pos + 1, survivors);
        },
        crate::events::EndCauseView::MechVictory(winner) => {
            peel_u8(b, pos, 1, enc_str(winner));
            lemma_dec_enc_str(b, pos + 1, winner);
        },
    }
}

fn write_end_cause(buf: &mut Vec<u8>, v: &crate::events::EndCause)
    ensures
        final(buf)@ == old(buf)@ + enc_end_cause(v@),
{
    match v {
        crate::events::EndCause::MaxTurnsCompleted { survivors } => {
            write_u8(buf, 0);
            write_str_list(buf, survivors);
        },
        crate::events::EndCause::MechVictory(winner) => {
            write_u8(buf, 1);
            write_str(buf, winner.as_str());
        },
    }
    assert(buf@ =~= old(buf)@ + enc_end_cause(v@));
}

fn read_end_cause(buf: &Vec<u8>, pos: usize) -> (r: Option<(crate::events::EndCause, usize)>)
    ensures
        (match (r, dec_end_cause(buf@, pos as int)) {
            (Some((v, end)), Some((vv, endv))) => v@ == vv && end as int == endv,
            (None, None) => true,
            _ => false,
        }),
{
    match read_u8(buf, pos) {
        None => None,
        Some((tag, p1)) => if tag == 0 {
            match read_str_list(buf, p1) {
                None => None,
                Some((survivors, p2)) => Some((
                    crate::events::EndCause::MaxTurnsCompleted { survivors },
                    p2,
                )),
            }
        } else if tag == 1 {
            match read_str(buf, p1) {
                None => None,
                Some((winner, p2)) => Some((crate::events::EndCause::MechVictory(winner), p2)),
            }
        } else {
            None
        },
    }
}

pub open spec fn enc_arena_event(v: crate::events::ArenaEventView) -> Seq<u8> {
    match v {
        crate::events::ArenaEventView::MechConnected { actor, name, avatar, team, time } => enc_u8(
            0,
        ) + (enc_str(actor) + (enc_str(name) + (enc_str(avatar) + (enc_str(team) + enc_i64(
            time,
        ))))),
        crate::events::ArenaEventView::MechDisconnected { actor, time } => enc_u8(1) + (enc_str(
            actor,
        ) + enc_i64(time)),
        crate::events::ArenaEventView::MatchStarted {
            match_id,
            actors,
            board_height,
            board_width,
            start_time,
        } => enc_u8(2) + (enc_str(match_id) + (enc_str_list(actors) + (enc_u32(board_height) + (
        enc_u32(board_width) + enc_i64(start_time))))),
        crate::events::ArenaEventView::MatchCompleted { match_id, cause, time } => enc_u8(3) + (
        enc_str(match_id) + (enc_end_cause(cause) + enc_i64(time))),
    }
}

pub open spec fn dec_arena_event(b: Seq<u8>, pos: int) -> Option<(
    crate::events::ArenaEventView,
    int,
)> {
    match dec_u8(b, pos) {
        Some((tag, p1)) => if tag == 0 {
            match dec_str(b, p1) {
                Some((actor, p2)) => match dec_str(b, p2) {
                    Some((name, p3)) => match dec_str(b, p3) {
                        Some((avatar, p4)) => match dec_str(b, p4) {
                            Some((team, p5)) => match dec_i64(b, p5) {
                                Some((time, p6)) => Some((
                                    crate::events::ArenaEventView::MechConnected {
                                        actor,
                                        name,
                                        avatar,
                                        team,
                                        time,
                                    },
                                    p6,
                                )),
                                None => None,
                            },
                            None => None,
                        },
                        None => None,
                    },
                    None => None,
                },
                None => None,
            }
        } else if tag == 1 {
            match dec_str(b, p1) {
                Some((actor, p2)) => match dec_i64(b, p2) {
                    Some((time, p3)) => Some((
                        crate::events::ArenaEventView::MechDisconnected { actor, time },
                        p3,
                    )),
                    None => None,
                },
                None => None,
            }
        } else if tag == 2 {
            match dec_str(b, p1) {
                Some((match_id, p2)) => match dec_str_list(b, p2) {
                    Some((actors, p3)) => match dec_u32(b, p3) {
                        Some((board_height, p4)) => match dec_u32(b, p4) {
                            Some((board_width, p5)) => match dec_i64(b, p5) {
                                Some((start_time, p6)) => Some((
                                    crate::events::ArenaEventView::MatchStarted {
                                        match_id,
                                        actors,
                                        board_height,
                                        board_width,
                                        start_time,
                                    },
                                    p6,
                                )),
                                None => None,
                            },
                            None => None,
                        },
                        None => None,
                    },
                    None => None,
                },
                None => None,
            }
        } else if tag == 3 {
            match dec_str(b, p1) {
                Some((match_id, p2)) => match dec_end_cause(b, p2) {
                    Some((cause, p3)) => match dec_i64(b, p3) {
                        Some((time, p4)) => Some((
                            crate::events::ArenaEventView::MatchCompleted { match_id, cause, time },
                            p4,
                        )),
                        None => None,
                    },
                    None => None,
                },
                None => None,
            }
        } else {
            None
        },
        None => None,
    }
}

proof fn lemma_dec_enc_arena_event_connected(b: Seq<u8>, pos: int, v: crate::events::ArenaEventView)
    requires
        v.wf(),
        v is MechConnected,
        0 <= pos,
        pos + enc_arena_event(v).len() <= b.len(),
        b.subrange(pos, pos + enc_arena_event(v).len()) == enc_arena_event(v),
    ensures
        dec_arena_event(b, pos) == Some((v, pos + enc_arena_event(v).len())),
{
    if let crate::events::ArenaEventView::MechConnected { actor, name, avatar, team, time } = v {
        let t4 = enc_str(team) + enc_i64(time);
        let t3 = enc_str(avatar) + t4;
        let t2 = enc_str(name) + t3;
        let t1 = enc_str(actor) + t2;
        peel_u8(b, pos, 0, t1);
        peel_str(b, pos + 1, actor, t2);
        let p2 = pos + 1 + enc_str(actor).len();
        peel_str(b, p2, name, t3);
        let p3 = p2 + enc_str(name).len();
        peel_str(b, p3, avatar, t4);
        let p4 = p3 + enc_str(avatar).len();
        peel_str(b, p4, team, enc_i64(time));
        let p5 = p4 + enc_str(team).len();
        lemma_dec_enc_i64(b, p5, time);
    }
}

proof fn lemma_dec_enc_arena_event_started(b: Seq<u8>, pos: int, v: crate::events::ArenaEventView)
    requires
        v.wf(),
        v is MatchStarted,
        0 <= pos,
        pos + enc_arena_event(v).len() <= b.len(),
        b.subrange(pos, pos + enc_arena_event(v).len()) == enc_arena_event(v),
    ensures
        dec_arena_event(b, pos) == Some((v, pos + enc_arena_event(v).len())),
{
    if let crate::events::ArenaEventView::MatchStarted {
        match_id,
        actors,
        board_height,
        board_width,
        start_time,
    } = v {
        let t4 = enc_u32(board_width) + enc_i64(start_time);
        let t3 = enc_u32(board_height) + t4;
        let t2 = enc_str_list(actors) + t3;
        let t1 = enc_str(match_id) + t2;
        peel_u8(b, pos, 2, t1);
        peel_str(b, pos + 1, match_id, t2);
        let p2 = pos + 1 + enc_str(match_id).len();
        peel_str_list(b, p2, actors, t3);
        let p3 = p2 + enc_str_list(actors).len();
        peel_u32(b, p3, board_height, t4);
        peel_u32(b, p3 + 4, board_width, enc_i64(start_time));
        lemma_dec_enc_i64(b, p3 + 8, start_time);
    }
}

proof fn lemma_dec_enc_arena_event_completed(b: Seq<u8>, pos: int, v: crate::events::ArenaEventView)
    requires
        v.wf(),
        v is MatchCompleted,
        0 <= pos,
        pos + enc_arena_event(v).len() <= b.len(),
        b.subrange(pos, pos + enc_arena_event(v).len()) == enc_arena_event(v),
    ensures
        dec_arena_event(b, pos) == Some((v, pos + enc_arena_event(v).len())),
{
    if let crate::events::ArenaEventView::MatchCompleted { match_id, cause, time } = v {
        let t2 = enc_end_cause(cause) + enc_i64(time);
        let t1 = enc_str(match_id) + t2;
        peel_u8(b, pos, 3, t1);
        peel_str(b, pos + 1, match_id, t2);
        let p2 = pos + 1 + enc_str(match_id).len();
        lemma_split_enc(b, p2, enc_end_cause(cause), enc_i64(time));
        lemma_dec_enc_end_cause(b, p2, cause);
        let p3 = p2 + enc_end_cause(cause).len();
        lemma_dec_enc_i64(b, p3, time);
    }
}

/// Round trip: an arena event decodes from its own encoding.
pub proof fn lemma_dec_enc_arena_event(b: Seq<u8>, pos: int, v: crate::events::ArenaEventView)
    requires
        v.wf(),
        0 <= pos,
        pos + enc_arena_event(v).len() <= b.len(),
        b.subrange(pos, pos + enc_arena_event(v).len()) == enc_arena_event(v),
    ensures
        dec_arena_event(b, pos) == Some((v, pos + enc_arena_event(v).len())),
{
    match v {
        crate::events::ArenaEventView::MechConnected { .. } => {
            lemma_dec_enc_arena_event_connected(b, pos, v);
        },
        crate::events::ArenaEventView::MechDisconnected { actor, time } => {
            let t1 = enc_str(actor) + enc_i64(time);
            peel_u8(b, pos, 1, t1);
            peel_str(b, pos + 1, actor, enc_i64(time));
            lemma_dec_enc_i64(b, pos + 1 + enc_str(actor).len(), time);
        },
        crate::events::ArenaEventView::MatchStarted { .. } => {
            lemma_dec_enc_arena_event_started(b, pos, v);
        },
        crate::events::ArenaEventView::MatchCompleted { .. } => {
            lemma_dec_enc_arena_event_completed(b, pos, v);
        },
    }
}

/// Encodes an arena event to the wire format.
pub fn encode_arena_event(v: &crate::events::ArenaEvent) -> (out: Vec<u8>)
    ensures
        out@ == enc_arena_event(v@),
{
    let mut out: Vec<u8> = Vec::new();
    match v {
        crate::events::ArenaEvent::MechConnected { actor, name, avatar, team, time } => {
            write_u8(&mut out, 0);
            write_str(&mut out, actor.as_str());
            write_str(&mut out, name.as_str());
            write_str(&mut out, avatar.as_str());
            write_str(&mut out, team.as_str());
            write_i64(&mut out, *time);
        },
        crate::events::ArenaEvent::MechDisconnected { actor, time } => {
            write_u8(&mut out, 1);
            write_str(&mut out, actor.as_str());
            write_i64(&mut out, *time);
        },
        crate::events::ArenaEvent::MatchStarted {
            match_id,
            actors,
            board_height,
            board_width,
            start_time,
        } => {
            write_u8(&mut out, 2);
            write_str(&mut out, match_id.as_str());
            write_str_list(&mut out, actors);
            write_u32(&mut out, *board_height);
            write_u32(&mut out, *board_width);
            write_i64(&mut out, *start_time);
        },
        crate::events::ArenaEvent::MatchCompleted { match_id, cause, time } => {
            write_u8(&mut out, 3);
            write_str(&mut out, match_id.as_str());
            write_end_cause(&mut out, cause);
            write_i64(&mut out, *time);
        },
    }
    assert(out@ =~= enc_arena_event(v@));
    out
}

/// Decodes an arena event: succeeds exactly on a whole, well-formed
/// encoding; an unknown tag fails.
pub fn decode_arena_event(buf: &Vec<u8>) -> (r: Option<crate::events::ArenaEvent>)
    ensures
        (match (r, dec_arena_event(buf@, 0)) {
            (Some(v), Some((vv, end))) => v@ == vv && end == buf@.len(),
            (None, Some((vv, end))) => end != buf@.len(),
            (None, None) => true,
            (Some(v), None) => false,
        }),
{
    match read_arena_event(buf, 0) {
        Some((v, end)) => if end == buf.len() {
            Some(v)
        } else {
            None
        },
        None => None,
    }
}

fn read_arena_event(buf: &Vec<u8>, pos: usize) -> (r: Option<(crate::events::ArenaEvent, usize)>)
    ensures
        (match (r, dec_arena_event(buf@, pos as int)) {
            (Some((v, end)), Some((vv, endv))) => v@ == vv && end as int == endv,
            (None, None) => true,
            _ => false,
        }),
{
    match read_u8(buf, pos) {
        None => None,
        Some((tag, p1)) => if tag == 0 {
            match read_str(buf, p1) {
                None => None,
                Some((actor, p2)) => match read_str(buf, p2) {
                    None => None,
                    Some((name, p3)) => match read_str(buf, p3) {
                        None => None,
                        Some((avatar, p4)) => match read_str(buf, p4) {
                            None => None,
                            Some((team, p5)) => match read_i64(buf, p5) {
                                None => None,
                                Some((time, p6)) => Some((
                                    crate::events::ArenaEvent::MechConnected {
                                        actor,
                                        name,
                                        avatar,
                                        team,
                                        time,
                                    },
                                    p6,
                                )),
                            },
                        },
                    },
                },
            }
        } else if tag == 1 {
            match read_str(buf, p1) {
                None => None,
                Some((actor, p2)) => match read_i64(buf, p2) {
                    None => None,
                    Some((time, p3)) => Some((
                        crate::events::ArenaEvent::MechDisconnected { actor, time },
                        p3,
                    )),
                },
            }
        } else if tag == 2 {
            match read_str(buf, p1) {
                None => None,
                Some((match_id, p2)) => match read_str_list(buf, p2) {
                    None => None,
                    Some((actors, p3)) => match read_u32(buf, p3) {
                        None => None,
                        Some((board_height, p4)) => match read_u32(buf, p4) {
                            None => None,
                            Some((board_width, p5)) => match read_i64(buf, p5) {
                                None => None,
                                Some((start_time, p6)) => Some((
                                    crate::events::ArenaEvent::MatchStarted {
                                        match_id,
                                        actors,
                                        board_height,
                                        board_width,
                                        start_time,
                                    },
                                    p6,
                                )),
                            },
                        },
                    },
                },
            }
        } else if tag == 3 {
            match read_str(buf, p1) {
                None => None,
                Some((match_id, p2)) => match read_end_cause(buf, p2) {
                    None => None,
                    Some((cause, p3)) => match read_i64(buf, p3) {
                        None => None,
                        Some((time, p4)) => Some((
                            crate::events::ArenaEvent::MatchCompleted { match_id, cause, time },
                            p4,
                        )),
                    },
                },
            }
        } else {
            None
        },
    }
}

// ---------------------------------------------------------------------
// Match events
// ---------------------------------------------------------------------

pub open spec fn enc_match_event(v: crate::events::MatchEventView) -> Seq<u8> {
    match v {
        crate::events::MatchEventView::TurnEvent { actor, match_id, turn, turn_event } => enc_u8(0)
            + (enc_str(actor) + (enc_str(match_id) + (enc_u32(turn) + enc_bytes(turn_event)))),
    }
}

pub open spec fn dec_match_event(b: Seq<u8>, pos: int) -> Option<(
    crate::events::MatchEventView,
    int,
)> {
    match dec_u8(b, pos) {
        Some((tag, p1)) => if tag == 0 {
            match dec_str(b, p1) {
                Some((actor, p2)) => match dec_str(b, p2) {
                    Some((match_id, p3)) => match dec_u32(b, p3) {
                        Some((turn, p4)) => match dec_bytes(b, p4) {
                            Some((turn_event, p5)) => Some((
                                crate::events::MatchEventView::TurnEvent {
                                    actor,
                                    match_id,
                                    turn,
                                    turn_event,
                                },
                                p5,
                            )),
                            None => None,
                        },
                        None => None,
                    },
                    None => None,
                },
                None => None,
            }
        } else {
            None
        },
        None => None,
    }
}

/// Round trip: a match event decodes from its own encoding.
pub proof fn lemma_dec_enc_match_event(b: Seq<u8>, pos: int, v: crate::events::MatchEventView)
    requires
        v.wf(),
        0 <= pos,
        pos + enc_match_event(v).len() <= b.len(),
        b.subrange(pos, pos + enc_match_event(v).len()) == enc_match_event(v),
    ensures
        dec_match_event(b, pos) == Some((v, pos + enc_match_event(v).len())),
{
    if let crate::events::MatchEventView::TurnEvent { actor, match_id, turn, turn_event } = v {
        let t3 = enc_u32(turn) + enc_bytes(turn_event);
        let t2 = enc_str(match_id) + t3;
        let t1 = enc_str(actor) + t2;
        peel_u8(b, pos, 0, t1);
        peel_str(b, pos + 1, actor, t2);
        let p2 = pos + 1 + enc_str(actor).len();
        peel_str(b, p2, match_id, t3);
        let p3 = p2 + enc_str(match_id).len();
        peel_u32(b, p3, turn, enc_bytes(turn_event));
        lemma_dec_enc_bytes(b, p3 + 4, turn_event);
    }
}

/// Encodes a match event to the wire format.
pub fn encode_match_event(v: &crate::events::MatchEvent) -> (out: Vec<u8>)
    ensures
        out@ == enc_match_event(v@),
{
    let mut out: Vec<u8> = Vec::new();
    match v {
        crate::events::MatchEvent::TurnEvent { actor, match_id, turn, turn_event } => {
            write_u8(&mut out, 0);
            write_str(&mut out, actor.as_str());
            write_str(&mut out, match_id.as_str());
            write_u32(&mut out, *turn);
            write_bytes(&mut out, &turn_event.payload);
        },
    }
    assert(out@ =~= enc_match_event(v@));
    out
}

/// Decodes a match event: succeeds exactly on a whole, well-formed
/// encoding; an unknown tag fails.
pub fn decode_match_event(buf: &Vec<u8>) -> (r: Option<crate::events::MatchEvent>)
    ensures
        (match (r, dec_match_event(buf@, 0)) {
            (Some(v), Some((vv, end))) => v@ == vv && end == buf@.len(),
            (None, Some((vv, end))) => end != buf@.len(),
            (None, None) => true,
            (Some(v), None) => false,
        }),
{
    match read_u8(buf, 0) {
        None => None,
        Some((tag, p1)) => if tag == 0 {
            match read_str(buf, p1) {
                None => None,
                Some((actor, p2)) => match read_str(buf, p2) {
                    None => None,
                    Some((match_id, p3)) => match read_u32(buf, p3) {
                        None => None,
                        Some((turn, p4)) => match read_bytes(buf, p4) {
                            None => None,
                            Some((payload, end)) => if end == buf.len() {
                                Some(crate::events::MatchEvent::TurnEvent {
                                    actor,
                                    match_id,
                                    turn,
                                    turn_event: crate::events::GameEvent { payload },
                                })
                            } else {
                                None
                            },
                        },
                    },
                },
            }
        } else {
            None
        },
    }
}

// ---------------------------------------------------------------------
// Control commands
// ---------------------------------------------------------------------

pub open spec fn enc_create_match(v: crate::commands::CreateMatchView) -> Seq<u8> {
    enc_str(v.match_id) + (enc_str_list(v.actors) + (enc_u32(v.board_height) + (enc_u32(
        v.board_width,
    ) + (enc_u32(v.max_turns) + enc_u32(v.aps_per_turn)))))
}

pub open spec fn dec_create_match(b: Seq<u8>, pos: int) -> Option<(
    crate::commands::CreateMatchView,
    int,
)> {
    match dec_str(b, pos) {
        Some((match_id, p1)) => match dec_str_list(b, p1) {
            Some((actors, p2)) => match dec_u32(b, p2) {
                Some((board_height, p3)) => match dec_u32(b, p3) {
                    Some((board_width, p4)) => match dec_u32(b, p4) {
                        Some((max_turns, p5)) => match dec_u32(b, p5) {
                            Some((aps_per_turn, p6)) => Some((
                                crate::commands::CreateMatchView {
                                    match_id,
                                    actors,
                                    board_height,
                                    board_width,
                                    max_turns,
                                    aps_per_turn,
                                },
                                p6,
                            )),
                            None => None,
                        },
                        None => None,
                    },
                    None => None,
                },
                None => None,
            },
            None => None,
        },
        None => None,
    }
}

/// Round trip: a create command decodes from its own encoding.
pub proof fn lemma_dec_enc_create_match(b: Seq<u8>, pos: int, v: crate::commands::CreateMatchView)
    requires
        v.wf(),
        0 <= pos,
        pos + enc_create_match(v).len() <= b.len(),
        b.subrange(pos, pos + enc_create_match(v).len()) == enc_create_match(v),
    ensures
        dec_create_match(b, pos) == Some((v, pos + enc_create_match(v).len())),
{
    let t4 = enc_u32(v.max_turns) + enc_u32(v.aps_per_turn);
    let t3 = enc_u32(v.board_width) + t4;
    let t2 = enc_u32(v.board_height) + t3;
    let t1 = enc_str_list(v.actors) + t2;
    peel_str(b, pos, v.match_id, t1);
    let p1 = pos + enc_str(v.match_id).len();
    peel_str_list(b, p1, v.actors, t2);
    let p2 = p1 + enc_str_list(v.actors).len();
    peel_u32(b, p2, v.board_height, t3);
    peel_u32(b, p2 + 4, v.board_width, t4);
    peel_u32(b, p2 + 8, v.max_turns, enc_u32(v.aps_per_turn));
    lemma_dec_enc_u32(b, p2 + 12, v.aps_per_turn);
}

fn write_create_match(buf: &mut Vec<u8>, v: &crate::commands::CreateMatch)
    ensures
        final(buf)@ == old(buf)@ + enc_create_match(v@),
{
    write_str(buf, v.match_id.as_str());
    write_str_list(buf, &v.actors);
    write_u32(buf, v.board_height);
    write_u32(buf, v.board_width);
    write_u32(buf, v.max_turns);
    write_u32(buf, v.aps_per_turn);
    assert(buf@ =~= old(buf)@ + enc_create_match(v@));
}

fn read_create_match(buf: &Vec<u8>, pos: usize) -> (r: Option<(crate::commands::CreateMatch, usize)>)
    ensures
        (match (r, dec_create_match(buf@, pos as int)) {
            (Some((v, end)), Some((vv, endv))) => v@ == vv && end as int == endv,
            (None, None) => true,
            _ => false,
        }),
{
    match read_str(buf, pos) {
        None => None,
        Some((match_id, p1)) => match read_str_list(buf, p1) {
            None => None,
            Some((actors, p2)) => match read_u32(buf, p2) {
                None => None,
                Some((board_height, p3)) => match read_u32(buf, p3) {
                    None => None,
                    Some((board_width, p4)) => match read_u32(buf, p4) {
                        None => None,
                        Some((max_turns, p5)) => match read_u32(buf, p5) {
                            None => None,
                            Some((aps_per_turn, p6)) => Some((
                                crate::commands::CreateMatch {
                                    match_id,
                                    actors,
                                    board_height,
                                    board_width,
                                    max_turns,
                                    aps_per_turn,
                                },
                                p6,
                            )),
                        },
                    },
                },
            },
        },
    }
}

/// Encodes a create command to the wire format.
pub fn encode_create_match(v: &crate::commands::CreateMatch) -> (out: Vec<u8>)
    ensures
        out@ == enc_create_match(v@),
{
    let mut out: Vec<u8> = Vec::new();
    write_create_match(&mut out, v);
    assert(out@ =~= enc_create_match(v@));
    out
}

/// Decodes a create command: succeeds exactly on a whole, well-formed
/// encoding.
pub fn decode_create_match(buf: &Vec<u8>) -> (r: Option<crate::commands::CreateMatch>)
    ensures
        (match (r, dec_create_match(buf@, 0)) {
            (Some(v), Some((vv, end))) => v@ == vv && end == buf@.len(),
            (None, Some((vv, end))) => end != buf@.len(),
            (None, None) => true,
            (Some(v), None) => false,
        }),
{
    match read_create_match(buf, 0) {
        Some((v, end)) => if end == buf.len() {
            Some(v)
        } else {
            None
        },
        None => None,
    }
}

pub open spec fn enc_arena_control_command(v: crate::commands::ArenaControlCommandView) -> Seq<u8> {
    match v {
        crate::commands::ArenaControlCommandView::StartMatch(cm) => enc_u8(0) + enc_create_match(
            cm,
        ),
        crate::commands::ArenaControlCommandView::QueryMechs => enc_u8(1),
    }
}

pub open spec fn dec_arena_control_command(b: Seq<u8>, pos: int) -> Option<(
    crate::commands::ArenaControlCommandView,
    int,
)> {
    match dec_u8(b, pos) {
        Some((tag, p1)) => if tag == 0 {
            match dec_create_match(b, p1) {
                Some((cm, p2)) => Some((
                    crate::commands::ArenaControlCommandView::StartMatch(cm),
                    p2,
                )),
                None => None,
            }
        } else if tag == 1 {
            Some((crate::commands::ArenaControlCommandView::QueryMechs, p1))
        } else {
            None
        },
        None => None,
    }
}

/// Round trip: a control command decodes from its own encoding.
pub proof fn lemma_dec_enc_arena_control_command(
    b: Seq<u8>,
    pos: int,
    v: crate::commands::ArenaControlCommandView,
)
    requires
        v.wf(),
        0 <= pos,
        pos + enc_arena_control_command(v).len() <= b.len(),
        b.subrange(pos, pos + enc_arena_control_command(v).len()) == enc_arena_control_command(v),
    ensures
        dec_arena_control_command(b, pos) == Some((v, pos + enc_arena_control_command(v).len())),
{
    match v {
        crate::commands::ArenaControlCommandView::StartMatch(cm) => {
            peel_u8(b, pos, 0, enc_create_match(cm));
            lemma_dec_enc_create_match(b, pos + 1, cm);
        },
        crate::commands::ArenaControlCommandView::QueryMechs => {
            assert(b.subrange(pos, pos + 1) =~= enc_u8(1));
            lemma_dec_enc_u8(b, pos, 1);
        },
    }
}

/// Encodes a control command to the wire format.
pub fn encode_arena_control_command(v: &crate::commands::ArenaControlCommand) -> (out: Vec<u8>)
    ensures
        out@ == enc_arena_control_command(v@),
{
    let mut out: Vec<u8> = Vec::new();
    match v {
        crate::commands::ArenaControlCommand::StartMatch(cm) => {
            write_u8(&mut out, 0);
            write_create_match(&mut out, cm);
        },
        crate::commands::ArenaControlCommand::QueryMechs => {
            write_u8(&mut out, 1);
        },
    }
    assert(out@ =~= enc_arena_control_command(v@));
    out
}

/// Decodes a control command: succeeds exactly on a whole, well-formed
/// encoding; an unknown tag fails.
pub fn decode_arena_control_command(buf: &Vec<u8>) -> (r: Option<
    crate::commands::ArenaControlCommand,
>)
    ensures
        (match (r, dec_arena_control_command(buf@, 0)) {
            (Some(v), Some((vv, end))) => v@ == vv && end == buf@.len(),
            (None, Some((vv, end))) => end != buf@.len(),
            (None, None) => true,
            (Some(v), None) => false,
        }),
{
    match read_u8(buf, 0) {
        None => None,
        Some((tag, p1)) => if tag == 0 {
            match read_create_match(buf, p1) {
                None => None,
                Some((cm, end)) => if end == buf.len() {
                    Some(crate::commands::ArenaControlCommand::StartMatch(cm))
                } else {
                    None
                },
            }
        } else if tag == 1 {
            if p1 == buf.len() {
                Some(crate::commands::ArenaControlCommand::QueryMechs)
            } else {
                None
            }
        } else {
            None
        },
    }
}

// ---------------------------------------------------------------------
// Take-turn exchange
// ---------------------------------------------------------------------

pub open spec fn enc_take_turn(v: crate::commands::TakeTurnView) -> Seq<u8> {
    enc_str(v.actor) + (enc_str(v.match_id) + (enc_u32(v.turn) + enc_bytes(v.state)))
}

pub open spec fn dec_take_turn(b: Seq<u8>, pos: int) -> Option<(crate::commands::TakeTurnView, int)> {
    match dec_str(b, pos) {
        Some((actor, p1)) => match dec_str(b, p1) {
            Some((match_id, p2)) => match dec_u32(b, p2) {
                Some((turn, p3)) => match dec_bytes(b, p3) {
                    Some((state, p4)) => Some((
                        crate::commands::TakeTurnView { actor, match_id, turn, state },
                        p4,
                    )),
                    None => None,
                },
                None => None,
            },
            None => None,
        },
        None => None,
    }
}

/// Round trip: a take-turn command decodes from its own encoding.
pub proof fn lemma_dec_enc_take_turn(b: Seq<u8>, pos: int, v: crate::commands::TakeTurnView)
    requires
        v.wf(),
        0 <= pos,
        pos + enc_take_turn(v).len() <= b.len(),
        b.subrange(pos, pos + enc_take_turn(v).len()) == enc_take_turn(v),
    ensures
        dec_take_turn(b, pos) == Some((v, pos + enc_take_turn(v).len())),
{
    let t2 = enc_u32(v.turn) + enc_bytes(v.state);
    let t1 = enc_str(v.match_id) + t2;
    peel_str(b, pos, v.actor, t1);
    let p1 = pos + enc_str(v.actor).len();
    peel_str(b, p1, v.match_id, t2);
    let p2 = p1 + enc_str(v.match_id).len();
    peel_u32(b, p2, v.turn, enc_bytes(v.state));
    lemma_dec_enc_bytes(b, p2 + 4, v.state);
}

/// Encodes a take-turn command to the wire format.
pub fn encode_take_turn(v: &crate::commands::TakeTurn) -> (out: Vec<u8>)
    ensures
        out@ == enc_take_turn(v@),
{
    let mut out: Vec<u8> = Vec::new();
    write_str(&mut out, v.actor.as_str());
    write_str(&mut out, v.match_id.as_str());
    write_u32(&mut out, v.turn);
    write_bytes(&mut out, &v.state.payload);
    assert(out@ =~= enc_take_turn(v@));
    out
}

/// Decodes a take-turn command: succeeds exactly on a whole, well-formed
/// encoding.
pub fn decode_take_turn(buf: &Vec<u8>) -> (r: Option<crate::commands::TakeTurn>)
    ensures
        (match (r, dec_take_turn(buf@, 0)) {
            (Some(v), Some((vv, end))) => v@ == vv && end == buf@.len(),
            (None, Some((vv, end))) => end != buf@.len(),
            (None, None) => true,
            (Some(v), None) => false,
        }),
{
    match read_str(buf, 0) {
        None => None,
        Some((actor, p1)) => match read_str(buf, p1) {
            None => None,
            Some((match_id, p2)) => match read_u32(buf, p2) {
                None => None,
                Some((turn, p3)) => match read_bytes(buf, p3) {
                    None => None,
                    Some((payload, end)) => if end == buf.len() {
                        Some(crate::commands::TakeTurn {
                            actor,
                            match_id,
                            turn,
                            state: crate::commands::MatchState { payload },
                        })
                    } else {
                        None
                    },
                },
            },
        },
    }
}

pub open spec fn enc_take_turn_response(v: crate::commands::TakeTurnResponseView) -> Seq<u8> {
    enc_bytes_list(v.commands)
}

pub open spec fn dec_take_turn_response(b: Seq<u8>, pos: int) -> Option<(
    crate::commands::TakeTurnResponseView,
    int,
)> {
    match dec_bytes_list(b, pos) {
        Some((commands, p1)) => Some((crate::commands::TakeTurnResponseView { commands }, p1)),
        None => None,
    }
}

/// Round trip: a take-turn response decodes from its own encoding.
pub proof fn lemma_dec_enc_take_turn_response(
    b: Seq<u8>,
    pos: int,
    v: crate::commands::TakeTurnResponseView,
)
    requires
        v.wf(),
        0 <= pos,
        pos + enc_take_turn_response(v).len() <= b.len(),
        b.subrange(pos, pos + enc_take_turn_response(v).len()) == enc_take_turn_response(v),
    ensures
        dec_take_turn_response(b, pos) == Some((v, pos + enc_take_turn_response(v).len())),
{
    lemma_dec_enc_bytes_list(b, pos, v.commands);
}

/// Encodes a take-turn response to the wire format.
pub fn encode_take_turn_response(v: &crate::commands::TakeTurnResponse) -> (out: Vec<u8>)
    ensures
        out@ == enc_take_turn_response(v@),
{
    let mut out: Vec<u8> = Vec::new();
    write_bytes_list(&mut out, &v.commands);
    assert(out@ =~= enc_take_turn_response(v@));
    out
}

/// Decodes a take-turn response: succeeds exactly on a whole,
/// well-formed encoding.
pub fn decode_take_turn_response(buf: &Vec<u8>) -> (r: Option<crate::commands::TakeTurnResponse>)
    ensures
        (match (r, dec_take_turn_response(buf@, 0)) {
            (Some(v), Some((vv, end))) => v@ == vv && end == buf@.len(),
            (None, Some((vv, end))) => end != buf@.len(),
            (None, None) => true,
            (Some(v), None) => false,
        }),
{
    match read_bytes_list(buf, 0) {
        Some((commands, end)) => if end == buf.len() {
            Some(crate::commands::TakeTurnResponse { commands })
        } else {
            None
        },
        None => None,
    }
}

// ---------------------------------------------------------------------
// Mech query responses
// ---------------------------------------------------------------------

/// Every identity in the list is well-formed for the wire.
pub open spec fn mechs_ok(ms: Seq<crate::MechInfoView>) -> bool {
    forall|i: int| 0 <= i < ms.len() ==> (#[trigger] ms[i]).wf()
}

pub open spec fn enc_mech_each(ms: Seq<crate::MechInfoView>) -> Seq<u8>
    decreases ms.len(),
{
    if ms.len() == 0 {
        Seq::empty()
    } else {
        enc_mech_info(ms[0]) + enc_mech_each(ms.drop_first())
    }
}

pub open spec fn enc_mech_query_response(v: crate::commands::MechQueryResponseView) -> Seq<u8> {
    enc_u64(v.mechs.len() as u64) + enc_mech_each(v.mechs)
}

pub open spec fn dec_mech_each(b: Seq<u8>, pos: int, n: nat) -> Option<(
    Seq<crate::MechInfoView>,
    int,
)>
    decreases n,
{
    if n == 0 {
        Some((Seq::empty(), pos))
    } else {
        match dec_mech_info(b, pos) {
            Some((m, p1)) => match dec_mech_each(b, p1, (n - 1) as nat) {
                Some((rest, p2)) => Some((seq![m] + rest, p2)),
                None => None,
            },
            None => None,
        }
    }
}

pub open spec fn dec_mech_query_response(b: Seq<u8>, pos: int) -> Option<(
    crate::commands::MechQueryResponseView,
    int,
)> {
    match dec_u64(b, pos) {
        Some((n, p1)) => match dec_mech_each(b, p1, n as nat) {
            Some((mechs, p2)) => Some((crate::commands::MechQueryResponseView { mechs }, p2)),
            None => None,
        },
        None => None,
    }
}

proof fn lemma_dec_enc_mech_each(b: Seq<u8>, pos: int, ms: Seq<crate::MechInfoView>)
    requires
        0 <= pos,
        mechs_ok(ms),
        pos + enc_mech_each(ms).len() <= b.len(),
        b.subrange(pos, pos + enc_mech_each(ms).len()) == enc_mech_each(ms),
    ensures
        dec_mech_each(b, pos, ms.len()) == Some((ms, pos + enc_mech_each(ms).len())),
    decreases ms.len(),
{
    if ms.len() == 0 {
        assert(ms =~= Seq::<crate::MechInfoView>::empty());
    } else {
        let m0 = ms[0];
        let rest = ms.drop_first();
        assert(enc_mech_each(ms) == enc_mech_info(m0) + enc_mech_each(rest));
        lemma_split_enc(b, pos, enc_mech_info(m0), enc_mech_each(rest));
        assert(m0.wf()) by {
            assert(ms[0].wf());
        }
        lemma_dec_enc_mech_info(b, pos, m0);
        assert(mechs_ok(rest)) by {
            assert(forall|i: int| 0 <= i < rest.len() ==> rest[i] == ms[i + 1]);
        }
        lemma_dec_enc_mech_each(b, pos + enc_mech_info(m0).len(), rest);
        assert(seq![m0] + rest =~= ms);
    }
}

/// Round trip: a mech query response decodes from its own encoding.
pub proof fn lemma_dec_enc_mech_query_response(
    b: Seq<u8>,
    pos: int,
    v: crate::commands::MechQueryResponseView,
)
    requires
        v.wf(),
        0 <= pos,
        pos + enc_mech_query_response(v).len() <= b.len(),
        b.subrange(pos, pos + enc_mech_query_response(v).len()) == enc_mech_query_response(v),
    ensures
        dec_mech_query_response(b, pos) == Some((v, pos + enc_mech_query_response(v).len())),
{
    lemma_split_enc(b, pos, enc_u64(v.mechs.len() as u64), enc_mech_each(v.mechs));
    lemma_dec_enc_u64(b, pos, v.mechs.len() as u64);
    lemma_dec_enc_mech_each(b, pos + 8, v.mechs);
}

proof fn lemma_enc_mech_each_snoc(ms: Seq<crate::MechInfoView>, m: crate::MechInfoView)
    ensures
        enc_mech_each(ms.push(m)) == enc_mech_each(ms) + enc_mech_info(m),
    decreases ms.len(),
{
    if ms.len() == 0 {
        assert(ms.push(m).drop_first() =~= Seq::<crate::MechInfoView>::empty());
        assert(ms.push(m)[0] == m);
        assert(enc_mech_each(ms.push(m)) == enc_mech_info(m) + enc_mech_each(
            ms.push(m).drop_first(),
        ));
        assert(enc_mech_each(Seq::<crate::MechInfoView>::empty()) == Seq::<u8>::empty());
        assert(enc_mech_each(ms) == Seq::<u8>::empty());
        assert(enc_mech_each(ms.push(m)) =~= enc_mech_each(ms) + enc_mech_info(m));
    } else {
        assert(ms.push(m).drop_first() =~= ms.drop_first().push(m));
        assert(ms.push(m)[0] == ms[0]);
        lemma_enc_mech_each_snoc(ms.drop_first(), m);
        assert(enc_mech_each(ms.push(m)) =~= enc_mech_each(ms) + enc_mech_info(m));
    }
}

/// Encodes a mech query response to the wire format.
pub fn encode_mech_query_response(v: &crate::commands::MechQueryResponse) -> (out: Vec<u8>)
    ensures
        out@ == enc_mech_query_response(v@),
{
    let mut out: Vec<u8> = Vec::new();
    let ghost ms = v@.mechs;
    let n = v.mechs.len();
    write_u64(&mut out, n as u64);
    let mut i: usize = 0;
    while i < n
        invariant
            i <= n,
            n == v.mechs@.len(),
            ms == v@.mechs,
            ms.len() == n,
            forall|j: int| 0 <= j < n ==> ms[j] == v.mechs@[j]@,
            out@ == enc_u64(n as u64) + enc_mech_each(ms.take(i as int)),
        decreases n - i,
    {
        write_mech_info(&mut out, &v.mechs[i]);
        proof {
            lemma_enc_mech_each_snoc(ms.take(i as int), v.mechs@[i as int]@);
            assert(ms.take(i as int).push(ms[i as int]) =~= ms.take(i + 1));
        }
        i += 1;
    }
    assert(ms.take(n as int) =~= ms);
    assert(out@ =~= enc_mech_query_response(v@));
    out
}

fn read_mech_each(buf: &Vec<u8>, pos: usize, n: u64) -> (r: Option<(Vec<crate::MechInfo>, usize)>)
    ensures
        (match (r, dec_mech_each(buf@, pos as int, n as nat)) {
            (Some((ms, end)), Some((mv, endv))) => ms@.map_values(|m: crate::MechInfo| m@) == mv
                && end as int == endv,
            (None, None) => true,
            _ => false,
        }),
    decreases n,
{
    if n == 0 {
        let v: Vec<crate::MechInfo> = Vec::new();
        assert(v@.map_values(|m: crate::MechInfo| m@) =~= Seq::<crate::MechInfoView>::empty());
        Some((v, pos))
    } else {
        match read_mech_info(buf, pos) {
            None => None,
            Some((m, p1)) => match read_mech_each(buf, p1, n - 1) {
                None => None,
                Some((mut rest, end)) => {
                    let ghost m_view = m@;
                    let ghost rest_seq = rest@;
                    let ghost rest_views = rest@.map_values(|x: crate::MechInfo| x@);
                    rest.insert(0, m);
                    proof {
                        let now = rest@.map_values(|x: crate::MechInfo| x@);
                        assert forall|i: int| 0 <= i < now.len() implies now[i] == (seq![m_view]
                            + rest_views)[i] by {
                            if i == 0 {
                            } else {
                                assert(rest@[i] == rest_seq[i - 1]);
                            }
                        }
                        assert(now =~= seq![m_view] + rest_views);
                    }
                    Some((rest, end))
                },
            },
        }
    }
}

/// Decodes a mech query response: succeeds exactly on a whole,
/// well-formed encoding.
pub fn decode_mech_query_response(buf: &Vec<u8>) -> (r: Option<crate::commands::MechQueryResponse>)
    ensures
        (match (r, dec_mech_query_response(buf@, 0)) {
            (Some(v), Some((vv, end))) => v@ == vv && end == buf@.len(),
            (None, Some((vv, end))) => end != buf@.len(),
            (None, None) => true,
            (Some(v), None) => false,
        }),
{
    match read_u64(buf, 0) {
        None => None,
        Some((n, p1)) => match read_mech_each(buf, p1, n) {
            None => None,
            Some((mechs, end)) => if end == buf.len() {
                Some(crate::commands::MechQueryResponse { mechs })
            } else {
                None
            },
        },
    }
}

} // verus!
