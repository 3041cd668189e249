use vstd::prelude::*;
use crate::record::{NewsData, RecordModel, Timestamp};

verus! {

/// 256 to the power `n`: the number of values an `n`-byte field can hold.
pub open spec fn pow256(n: nat) -> int
    decreases n,
{
    if n == 0 {
        1
    } else {
        256 * pow256((n - 1) as nat)
    }
}

/// The little-endian bytes of `x`, exactly `n` of them.
pub open spec fn le_bytes(x: int, n: nat) -> Seq<u8>
    decreases n,
{
    if n == 0 {
        Seq::empty()
    } else {
        seq![(x % 256) as u8] + le_bytes(x / 256, (n - 1) as nat)
    }
}

/// The integer a little-endian byte sequence stands for.
pub open spec fn int_of_le(b: Seq<u8>) -> int
    decreases b.len(),
{
    if b.len() == 0 {
        0
    } else {
        b[0] + 256 * int_of_le(b.drop_first())
    }
}

proof fn lemma_le_bytes_len(x: int, n: nat)
    ensures
        le_bytes(x, n).len() == n,
    decreases n,
{
    if n > 0 {
        lemma_le_bytes_len(x / 256, (n - 1) as nat);
    }
}

proof fn lemma_int_of_le_bytes(x: int, n: nat)
    requires
        0 <= x < pow256(n),
    ensures
        int_of_le(le_bytes(x, n)) == x,
    decreases n,
{
    if n == 0 {
    } else {
        assert(x == 256 * (x / 256) + x % 256) by (nonlinear_arith);
        assert(0 <= x % 256 < 256) by (nonlinear_arith);
        assert(x / 256 < pow256((n - 1) as nat)) by (nonlinear_arith)
            requires
                0 <= x,
                x < 256 * pow256((n - 1) as nat),
        ;
        assert(x / 256 >= 0) by (nonlinear_arith)
            requires
                x >= 0,
        ;
        lemma_int_of_le_bytes(x / 256, (n - 1) as nat);
        assert(le_bytes(x, n).drop_first() =~= le_bytes(x / 256, (n - 1) as nat));
    }
}

proof fn lemma_int_of_le_bound(b: Seq<u8>)
    ensures
        0 <= int_of_le(b) < pow256(b.len()),
    decreases b.len(),
{
    if b.len() > 0 {
        lemma_int_of_le_bound(b.drop_first());
    }
}

/// Reads an `n`-byte little-endian unsigned integer at offset `i`.
pub open spec fn dec_uint(b: Seq<u8>, i: int, n: nat) -> Option<(int, int)> {
    if 0 <= i && i + n <= b.len() {
        Some((int_of_le(b.subrange(i, i + n)), i + n))
    } else {
        None
    }
}

proof fn lemma_dec_uint(b: Seq<u8>, i: int, x: int, n: nat)
    requires
        0 <= x < pow256(n),
        0 <= i,
        i + n <= b.len(),
        b.subrange(i, i + n) =~= le_bytes(x, n),
    ensures
        dec_uint(b, i, n) == Some((x, i + n)),
{
    lemma_int_of_le_bytes(x, n);
}

/// A buffer region that holds a concatenation holds each part in place.
proof fn lemma_subrange_split(b: Seq<u8>, i: int, s1: Seq<u8>, s2: Seq<u8>)
    requires
        0 <= i,
        i + s1.len() + s2.len() <= b.len(),
        b.subrange(i, i + s1.len() + s2.len()) =~= s1 + s2,
    ensures
        b.subrange(i, i + s1.len()) =~= s1,
        b.subrange(i + s1.len(), i + s1.len() + s2.len()) =~= s2,
{
    assert forall|k: int| 0 <= k < s1.len() implies b.subrange(i, i + s1.len())[k] == s1[k] by {
        assert(b.subrange(i, i + s1.len() + s2.len())[k] == (s1 + s2)[k]);
    }
    assert forall|k: int|
        0 <= k < s2.len() implies b.subrange(i + s1.len(), i + s1.len() + s2.len())[k] == s2[k] by {
        assert(b.subrange(i, i + s1.len() + s2.len())[s1.len() + k] == (s1 + s2)[s1.len() + k]);
    }
}

/// One character, stored as its scalar value in four bytes.
pub open spec fn enc_char(c: char) -> Seq<u8> {
    le_bytes((c as u32) as int, 4)
}

pub open spec fn dec_char(b: Seq<u8>, i: int) -> Option<(char, int)> {
    match dec_uint(b, i, 4) {
        None => None,
        Some((u, j)) => if vstd::utf8::is_scalar(u as u32) {
            Some((((u as u32) as char), j))
        } else {
            None
        },
    }
}

proof fn lemma_dec_char(b: Seq<u8>, i: int, c: char)
    requires
        0 <= i,
        i + 4 <= b.len(),
        b.subrange(i, i + 4) =~= enc_char(c),
    ensures
        dec_char(b, i) == Some((c, i + 4)),
{
    broadcast use vstd::utf8::char_is_scalar, vstd::utf8::char_u32_cast;

    assert(0 <= (c as u32) < pow256(4)) by {
        assert(pow256(4) == 0x100000000) by {
            reveal_with_fuel(pow256, 5);
        }
    }
    lemma_dec_uint(b, i, (c as u32) as int, 4);
}

/// The characters of a string, four bytes each, in order.
pub open spec fn enc_chars(s: Seq<char>) -> Seq<u8>
    decreases s.len(),
{
    if s.len() == 0 {
        Seq::empty()
    } else {
        enc_char(s[0]) + enc_chars(s.drop_first())
    }
}

pub open spec fn dec_chars(b: Seq<u8>, i: int, n: nat) -> Option<(Seq<char>, int)>
    decreases n,
{
    if n == 0 {
        Some((Seq::empty(), i))
    } else {
        match dec_char(b, i) {
            None => None,
            Some((c, j)) => match dec_chars(b, j, (n - 1) as nat) {
                None => None,
                Some((s, k)) => Some((seq![c] + s, k)),
            },
        }
    }
}

proof fn lemma_enc_chars_len(s: Seq<char>)
    ensures
        enc_chars(s).len() == 4 * s.len(),
    decreases s.len(),
{
    if s.len() > 0 {
        lemma_le_bytes_len((s[0] as u32) as int, 4);
        lemma_enc_chars_len(s.drop_first());
    }
}

proof fn lemma_dec_chars(b: Seq<u8>, i: int, s: Seq<char>)
    requires
        0 <= i,
        i + enc_chars(s).len() <= b.len(),
        b.subrange(i, i + enc_chars(s).len()) =~= enc_chars(s),
    ensures
        dec_chars(b, i, s.len()) == Some((s, i + enc_chars(s).len())),
    decreases s.len(),
{
    lemma_enc_chars_len(s);
    if s.len() == 0 {
    } else {
        let rest = s.drop_first();
        lemma_enc_chars_len(rest);
        lemma_le_bytes_len((s[0] as u32) as int, 4);
        lemma_subrange_split(b, i, enc_char(s[0]), enc_chars(rest));
        lemma_dec_char(b, i, s[0]);
        lemma_dec_chars(b, i + 4, rest);
        assert(seq![s[0]] + rest =~= s);
    }
}

/// A string: an eight-byte character count, then the characters.
pub open spec fn enc_str(s: Seq<char>) -> Seq<u8> {
    le_bytes(s.len() as int, 8) + enc_chars(s)
}

pub open spec fn dec_str(b: Seq<u8>, i: int) -> Option<(Seq<char>, int)> {
    match dec_uint(b, i, 8) {
        None => None,
        Some((n, j)) => dec_chars(b, j, n as nat),
    }
}

/// Every length a sequence in the model may have must fit its length field.
pub open spec fn str_fits(s: Seq<char>) -> bool {
    s.len() < pow256(8)
}

proof fn lemma_dec_str(b: Seq<u8>, i: int, s: Seq<char>)
    requires
        0 <= i,
        str_fits(s),
        i + enc_str(s).len() <= b.len(),
        b.subrange(i, i + enc_str(s).len()) =~= enc_str(s),
    ensures
        dec_str(b, i) == Some((s, i + enc_str(s).len())),
{
    lemma_le_bytes_len(s.len() as int, 8);
    lemma_enc_chars_len(s);
    lemma_subrange_split(b, i, le_bytes(s.len() as int, 8), enc_chars(s));
    lemma_dec_uint(b, i, s.len() as int, 8);
    lemma_dec_chars(b, i + 8, s);
}

proof fn lemma_pow256_vals()
    ensures
        pow256(1) == 0x100,
        pow256(4) == 0x100000000,
        pow256(8) == 0x10000000000000000,
{
    reveal_with_fuel(pow256, 9);
}

/// A timestamp: its seven fields, four bytes each; the two signed fields are
/// shifted by `2^31` so that every field is a plain unsigned number.
pub open spec fn enc_ts(t: Timestamp) -> Seq<u8> {
    le_bytes(t.year + 2147483648, 4) + le_bytes(t.month as int, 4) + le_bytes(t.day as int, 4)
        + le_bytes(t.hour as int, 4) + le_bytes(t.minute as int, 4) + le_bytes(t.second as int, 4)
        + le_bytes(t.offset_seconds + 2147483648, 4)
}

pub open spec fn dec_ts(b: Seq<u8>, i: int) -> Option<(Timestamp, int)> {
    if 0 <= i && i + 28 <= b.len() {
        match (dec_uint(b, i, 4), dec_uint(b, i + 4, 4), dec_uint(b, i + 8, 4), dec_uint(b, i + 12, 4),
        dec_uint(b, i + 16, 4), dec_uint(b, i + 20, 4), dec_uint(b, i + 24, 4)) {
            (Some((y, _)), Some((mo, _)), Some((d, _)), Some((h, _)), Some((mi, _)), Some((se, _)), Some((off, _))) => Some(
                (
                    Timestamp {
                        year: (y - 2147483648) as i32,
                        month: mo as u32,
                        day: d as u32,
                        hour: h as u32,
                        minute: mi as u32,
                        second: se as u32,
                        offset_seconds: (off - 2147483648) as i32,
                    },
                    i + 28,
                ),
            ),
            _ => None,
        }
    } else {
        None
    }
}

proof fn lemma_dec_ts(b: Seq<u8>, i: int, t: Timestamp)
    requires
        0 <= i,
        i + 28 <= b.len(),
        b.subrange(i, i + 28) =~= enc_ts(t),
    ensures
        dec_ts(b, i) == Some((t, i + 28)),
{
    lemma_pow256_vals();
    let f0 = le_bytes(t.year + 2147483648, 4);
    let f1 = le_bytes(t.month as int, 4);
    let f2 = le_bytes(t.day as int, 4);
    let f3 = le_bytes(t.hour as int, 4);
    let f4 = le_bytes(t.minute as int, 4);
    let f5 = le_bytes(t.second as int, 4);
    let f6 = le_bytes(t.offset_seconds + 2147483648, 4);
    lemma_le_bytes_len(t.year + 2147483648, 4);
    lemma_le_bytes_len(t.month as int, 4);
    lemma_le_bytes_len(t.day as int, 4);
    lemma_le_bytes_len(t.hour as int, 4);
    lemma_le_bytes_len(t.minute as int, 4);
    lemma_le_bytes_len(t.second as int, 4);
    lemma_le_bytes_len(t.offset_seconds + 2147483648, 4);
    assert(b.subrange(i, i + 28) =~= f0 + (f1 + (f2 + (f3 + (f4 + (f5 + f6))))));
    lemma_subrange_split(b, i, f0, f1 + (f2 + (f3 + (f4 + (f5 + f6)))));
    lemma_subrange_split(b, i + 4, f1, f2 + (f3 + (f4 + (f5 + f6))));
    lemma_subrange_split(b, i + 8, f2, f3 + (f4 + (f5 + f6)));
    lemma_subrange_split(b, i + 12, f3, f4 + (f5 + f6));
    lemma_subrange_split(b, i + 16, f4, f5 + f6);
    lemma_subrange_split(b, i + 20, f5, f6);
    lemma_dec_uint(b, i, t.year + 2147483648, 4);
    lemma_dec_uint(b, i + 4, t.month as int, 4);
    lemma_dec_uint(b, i + 8, t.day as int, 4);
    lemma_dec_uint(b, i + 12, t.hour as int, 4);
    lemma_dec_uint(b, i + 16, t.minute as int, 4);
    lemma_dec_uint(b, i + 20, t.second as int, 4);
    lemma_dec_uint(b, i + 24, t.offset_seconds + 2147483648, 4);
}

/// An optional value: a one-byte tag, `0` for absent, `1` then the value.
pub open spec fn enc_opt_str(o: Option<Seq<char>>) -> Seq<u8> {
    match o {
        None => le_bytes(0, 1),
        Some(s) => le_bytes(1, 1) + enc_str(s),
    }
}

pub open spec fn dec_opt_str(b: Seq<u8>, i: int) -> Option<(Option<Seq<char>>, int)> {
    match dec_uint(b, i, 1) {
        None => None,
        Some((tag, j)) => if tag == 0 {
            Some((None, j))
        } else if tag == 1 {
            match dec_str(b, j) {
                None => None,
                Some((s, k)) => Some((Some(s), k)),
            }
        } else {
            None
        },
    }
}

pub open spec fn enc_opt_ts(o: Option<Timestamp>) -> Seq<u8> {
    match o {
        None => le_bytes(0, 1),
        Some(t) => le_bytes(1, 1) + enc_ts(t),
    }
}

pub open spec fn dec_opt_ts(b: Seq<u8>, i: int) -> Option<(Option<Timestamp>, int)> {
    match dec_uint(b, i, 1) {
        None => None,
        Some((tag, j)) => if tag == 0 {
            Some((None, j))
        } else if tag == 1 {
            match dec_ts(b, j) {
                None => None,
                Some((t, k)) => Some((Some(t), k)),
            }
        } else {
            None
        },
    }
}

/// A list of strings: an eight-byte count, then each string in order.
pub open spec fn enc_strs_items(v: Seq<Seq<char>>) -> Seq<u8>
    decreases v.len(),
{
    if v.len() == 0 {
        Seq::empty()
    } else {
        enc_str(v[0]) + enc_strs_items(v.drop_first())
    }
}

pub open spec fn enc_strs(v: Seq<Seq<char>>) -> Seq<u8> {
    le_bytes(v.len() as int, 8) + enc_strs_items(v)
}

pub open spec fn dec_strs_items(b: Seq<u8>, i: int, n: nat) -> Option<(Seq<Seq<char>>, int)>
    decreases n,
{
    if n == 0 {
        Some((Seq::empty(), i))
    } else {
        match dec_str(b, i) {
            None => None,
            Some((s, j)) => match dec_strs_items(b, j, (n - 1) as nat) {
                None => None,
                Some((v, k)) => Some((seq![s] + v, k)),
            },
        }
    }
}

pub open spec fn dec_strs(b: Seq<u8>, i: int) -> Option<(Seq<Seq<char>>, int)> {
    match dec_uint(b, i, 8) {
        None => None,
        Some((n, j)) => dec_strs_items(b, j, n as nat),
    }
}

pub open spec fn enc_opt_strs(o: Option<Seq<Seq<char>>>) -> Seq<u8> {
    match o {
        None => le_bytes(0, 1),
        Some(v) => le_bytes(1, 1) + enc_strs(v),
    }
}

pub open spec fn dec_opt_strs(b: Seq<u8>, i: int) -> Option<(Option<Seq<Seq<char>>>, int)> {
    match dec_uint(b, i, 1) {
        None => None,
        Some((tag, j)) => if tag == 0 {
            Some((None, j))
        } else if tag == 1 {
            match dec_strs(b, j) {
                None => None,
                Some((v, k)) => Some((Some(v), k)),
            }
        } else {
            None
        },
    }
}

/// Every sequence in the model is short enough for its length field.
pub open spec fn strs_fit(v: Seq<Seq<char>>) -> bool {
    &&& v.len() < pow256(8)
    &&& forall|j: int| 0 <= j < v.len() ==> str_fits(#[trigger] v[j])
}

pub open spec fn model_fits(m: RecordModel) -> bool {
    &&& str_fits(m.title)
    &&& match m.authors {
        None => true,
        Some(v) => strs_fit(v),
    }
    &&& match m.byline {
        None => true,
        Some(s) => str_fits(s),
    }
    &&& str_fits(m.content)
    &&& strs_fit(m.tags)
}

proof fn lemma_dec_strs_items(b: Seq<u8>, i: int, v: Seq<Seq<char>>)
    requires
        0 <= i,
        strs_fit(v),
        i + enc_strs_items(v).len() <= b.len(),
        b.subrange(i, i + enc_strs_items(v).len()) =~= enc_strs_items(v),
    ensures
        dec_strs_items(b, i, v.len()) == Some((v, i + enc_strs_items(v).len())),
    decreases v.len(),
{
    if v.len() == 0 {
    } else {
        let rest = v.drop_first();
        lemma_subrange_split(b, i, enc_str(v[0]), enc_strs_items(rest));
        lemma_dec_str(b, i, v[0]);
        assert(strs_fit(rest)) by {
            assert(forall|j: int|
                0 <= j < rest.len() ==> rest[j] == #[trigger] v[j + 1] && str_fits(v[j + 1]));
        }
        lemma_dec_strs_items(b, i + enc_str(v[0]).len() as int, rest);
        assert(seq![v[0]] + rest =~= v);
    }
}

proof fn lemma_dec_strs(b: Seq<u8>, i: int, v: Seq<Seq<char>>)
    requires
        0 <= i,
        strs_fit(v),
        i + enc_strs(v).len() <= b.len(),
        b.subrange(i, i + enc_strs(v).len()) =~= enc_strs(v),
    ensures
        dec_strs(b, i) == Some((v, i + enc_strs(v).len())),
{
    lemma_pow256_vals();
    lemma_le_bytes_len(v.len() as int, 8);
    lemma_subrange_split(b, i, le_bytes(v.len() as int, 8), enc_strs_items(v));
    lemma_dec_uint(b, i, v.len() as int, 8);
    lemma_dec_strs_items(b, i + 8, v);
}

proof fn lemma_dec_opt_str(b: Seq<u8>, i: int, o: Option<Seq<char>>)
    requires
        0 <= i,
        match o {
            None => true,
            Some(s) => str_fits(s),
        },
        i + enc_opt_str(o).len() <= b.len(),
        b.subrange(i, i + enc_opt_str(o).len()) =~= enc_opt_str(o),
    ensures
        dec_opt_str(b, i) == Some((o, i + enc_opt_str(o).len())),
{
    lemma_pow256_vals();
    match o {
        None => {
            lemma_le_bytes_len(0, 1);
            lemma_dec_uint(b, i, 0, 1);
        },
        Some(s) => {
            lemma_le_bytes_len(1, 1);
            lemma_subrange_split(b, i, le_bytes(1, 1), enc_str(s));
            lemma_dec_uint(b, i, 1, 1);
            lemma_dec_str(b, i + 1, s);
        },
    }
}

proof fn lemma_dec_opt_ts(b: Seq<u8>, i: int, o: Option<Timestamp>)
    requires
        0 <= i,
        i + enc_opt_ts(o).len() <= b.len(),
        b.subrange(i, i + enc_opt_ts(o).len()) =~= enc_opt_ts(o),
    ensures
        dec_opt_ts(b, i) == Some((o, i + enc_opt_ts(o).len())),
{
    lemma_pow256_vals();
    match o {
        None => {
            lemma_le_bytes_len(0, 1);
            lemma_dec_uint(b, i, 0, 1);
        },
        Some(t) => {
            lemma_le_bytes_len(1, 1);
            assert(enc_ts(t).len() == 28) by {
                lemma_le_bytes_len(t.year + 2147483648, 4);
                lemma_le_bytes_len(t.month as int, 4);
                lemma_le_bytes_len(t.day as int, 4);
                lemma_le_bytes_len(t.hour as int, 4);
                lemma_le_bytes_len(t.minute as int, 4);
                lemma_le_bytes_len(t.second as int, 4);
                lemma_le_bytes_len(t.offset_seconds + 2147483648, 4);
            }
            lemma_subrange_split(b, i, le_bytes(1, 1), enc_ts(t));
            lemma_dec_uint(b, i, 1, 1);
            lemma_dec_ts(b, i + 1, t);
        },
    }
}

proof fn lemma_dec_opt_strs(b: Seq<u8>, i: int, o: Option<Seq<Seq<char>>>)
    requires
        0 <= i,
        match o {
            None => true,
            Some(v) => strs_fit(v),
        },
        i + enc_opt_strs(o).len() <= b.len(),
        b.subrange(i, i + enc_opt_strs(o).len()) =~= enc_opt_strs(o),
    ensures
        dec_opt_strs(b, i) == Some((o, i + enc_opt_strs(o).len())),
{
    lemma_pow256_vals();
    match o {
        None => {
            lemma_le_bytes_len(0, 1);
            lemma_dec_uint(b, i, 0, 1);
        },
        Some(v) => {
            lemma_le_bytes_len(1, 1);
            lemma_subrange_split(b, i, le_bytes(1, 1), enc_strs(v));
            lemma_dec_uint(b, i, 1, 1);
            lemma_dec_strs(b, i + 1, v);
        },
    }
}

/// A whole record: version, title, authors, the two timestamps, byline,
/// content, tags, in that order.
pub open spec fn enc_record(m: RecordModel) -> Seq<u8> {
    le_bytes(m.version as int, 4) + (enc_str(m.title) + (enc_opt_strs(m.authors) + (enc_opt_ts(
        m.timestamp_published,
    ) + (enc_opt_ts(m.timestamp_updated) + (enc_opt_str(m.byline) + (enc_str(m.content) + enc_strs(
        m.tags,
    )))))))
}

/// The record a byte sequence stands for, if it is a complete encoding at
/// the supported schema version with nothing after it.
pub open spec fn dec_record(b: Seq<u8>) -> Option<RecordModel> {
    match dec_uint(b, 0, 4) {
        None => None,
        Some((ver, i1)) => match dec_str(b, i1) {
            None => None,
            Some((title, i2)) => match dec_opt_strs(b, i2) {
                None => None,
                Some((authors, i3)) => match dec_opt_ts(b, i3) {
                    None => None,
                    Some((published, i4)) => match dec_opt_ts(b, i4) {
                        None => None,
                        Some((updated, i5)) => match dec_opt_str(b, i5) {
                            None => None,
                            Some((byline, i6)) => match dec_str(b, i6) {
                                None => None,
                                Some((content, i7)) => match dec_strs(b, i7) {
                                    None => None,
                                    Some((tags, i8)) => if i8 == b.len() && ver == 1 {
                                        Some(
                                            RecordModel {
                                                title,
                                                authors,
                                                timestamp_published: published,
                                                timestamp_updated: updated,
                                                byline,
                                                content,
                                                tags,
                                                version: ver as u32,
                                            },
                                        )
                                    } else {
                                        None
                                    },
                                },
                            },
                        },
                    },
                },
            },
        },
    }
}

/// Round trip: decoding an encoded record gives the record back, for every
/// record at the supported schema version whose sequences fit their length
/// fields (every record the library builds does).
#[verifier::rlimit(100)]
pub proof fn lemma_record_round_trip(m: RecordModel)
    requires
        model_fits(m),
        m.version == 1,
    ensures
        dec_record(enc_record(m)) == Some(m),
{
    lemma_pow256_vals();
    let b = enc_record(m);
    let p0 = le_bytes(m.version as int, 4);
    let p1 = enc_str(m.title);
    let p2 = enc_opt_strs(m.authors);
    let p3 = enc_opt_ts(m.timestamp_published);
    let p4 = enc_opt_ts(m.timestamp_updated);
    let p5 = enc_opt_str(m.byline);
    let p6 = enc_str(m.content);
    let p7 = enc_strs(m.tags);
    lemma_le_bytes_len(m.version as int, 4);
    assert(b.subrange(0, b.len() as int) =~= b);
    lemma_subrange_split(b, 0, p0, p1 + (p2 + (p3 + (p4 + (p5 + (p6 + p7))))));
    let i1 = p0.len() as int;
    lemma_subrange_split(b, i1, p1, p2 + (p3 + (p4 + (p5 + (p6 + p7)))));
    let i2 = i1 + p1.len();
    lemma_subrange_split(b, i2, p2, p3 + (p4 + (p5 + (p6 + p7))));
    let i3 = i2 + p2.len();
    lemma_subrange_split(b, i3, p3, p4 + (p5 + (p6 + p7)));
    let i4 = i3 + p3.len();
    lemma_subrange_split(b, i4, p4, p5 + (p6 + p7));
    let i5 = i4 + p4.len();
    lemma_subrange_split(b, i5, p5, p6 + p7);
    let i6 = i5 + p5.len();
    lemma_subrange_split(b, i6, p6, p7);
    let i7 = i6 + p6.len();
    lemma_dec_uint(b, 0, m.version as int, 4);
    lemma_dec_str(b, i1, m.title);
    lemma_dec_opt_strs(b, i2, m.authors);
    lemma_dec_opt_ts(b, i3, m.timestamp_published);
    lemma_dec_opt_ts(b, i4, m.timestamp_updated);
    lemma_dec_opt_str(b, i5, m.byline);
    lemma_dec_str(b, i6, m.content);
    lemma_dec_strs(b, i7, m.tags);
}

/// The one way decoding fails: the bytes are not a complete encoding at
/// the supported schema version.
#[derive(Clone, Copy, PartialEq, Eq, Structural, Debug)]
pub enum CodecError {
    Malformed,
}

/// Relies on char::from_u32: `Some` exactly on Unicode scalar values, and
/// the returned character has the given scalar value.
#[verifier::external_body]
fn u32_to_char(u: u32) -> (r: Option<char>)
    ensures
        r matches Some(c) ==> c as u32 == u,
        r is Some <==> vstd::utf8::is_scalar(u),
{
    char::from_u32(u)
}

/// Relies on String: collecting characters yields the string of exactly
/// those characters in order.
#[verifier::external_body]
pub(crate) fn chars_to_string(v: &Vec<char>) -> (r: String)
    ensures
        r@ == v@,
{
    v.iter().collect()
}

fn push_le4(out: &mut Vec<u8>, x: u32)
    ensures
        final(out)@ == old(out)@ + le_bytes(x as int, 4),
{
    out.push((x % 256) as u8);
    out.push(((x / 256) % 256) as u8);
    out.push(((x / 65536) % 256) as u8);
    out.push(((x / 16777216) % 256) as u8);
    proof {
        let xi = x as int;
        reveal_with_fuel(le_bytes, 9);
        vstd::arithmetic::div_mod::lemma_div_denominator(xi, 256, 256);
        vstd::arithmetic::div_mod::lemma_div_denominator(xi, 65536, 256);
        assert(out@ =~= old(out)@ + le_bytes(x as int, 4));
    }
}

fn push_le8(out: &mut Vec<u8>, x: u64)
    ensures
        final(out)@ == old(out)@ + le_bytes(x as int, 8),
{
    out.push((x % 256) as u8);
    out.push(((x / 256) % 256) as u8);
    out.push(((x / 65536) % 256) as u8);
    out.push(((x / 16777216) % 256) as u8);
    out.push(((x / 4294967296) % 256) as u8);
    out.push(((x / 1099511627776) % 256) as u8);
    out.push(((x / 281474976710656) % 256) as u8);
    out.push(((x / 72057594037927936) % 256) as u8);
    proof {
        let xi = x as int;
        reveal_with_fuel(le_bytes, 9);
        vstd::arithmetic::div_mod::lemma_div_denominator(xi, 256, 256);
        vstd::arithmetic::div_mod::lemma_div_denominator(xi, 65536, 256);
        vstd::arithmetic::div_mod::lemma_div_denominator(xi, 16777216, 256);
        vstd::arithmetic::div_mod::lemma_div_denominator(xi, 4294967296, 256);
        vstd::arithmetic::div_mod::lemma_div_denominator(xi, 1099511627776, 256);
        vstd::arithmetic::div_mod::lemma_div_denominator(xi, 281474976710656, 256);
        assert(out@ =~= old(out)@ + le_bytes(x as int, 8));
    }
}

proof fn lemma_enc_chars_push(t: Seq<char>, c: char)
    ensures
        enc_chars(t.push(c)) == enc_chars(t) + enc_char(c),
    decreases t.len(),
{
    if t.len() == 0 {
        assert(t.push(c)[0] == c);
        assert(t.push(c).drop_first() =~= Seq::<char>::empty());
        assert(t =~= Seq::<char>::empty());
        assert(enc_char(c) + Seq::<u8>::empty() =~= enc_char(c));
        assert(Seq::<u8>::empty() + enc_char(c) =~= enc_char(c));
        assert(enc_chars(t.push(c)) =~= enc_chars(t) + enc_char(c));
    } else {
        assert(t.push(c).drop_first() =~= t.drop_first().push(c));
        assert(t.push(c)[0] == t[0]);
        lemma_enc_chars_push(t.drop_first(), c);
        assert(enc_char(t[0]) + (enc_chars(t.drop_first()) + enc_char(c)) =~= (enc_char(t[0])
            + enc_chars(t.drop_first())) + enc_char(c));
        assert(enc_chars(t.push(c)) =~= enc_chars(t) + enc_char(c));
    }
}

fn push_str(out: &mut Vec<u8>, s: &str)
    ensures
        final(out)@ == old(out)@ + enc_str(s@),
        str_fits(s@),
{
    let n = s.unicode_len();
    proof {
        lemma_pow256_vals();
    }
    push_le8(out, n as u64);
    let mut i: usize = 0;
    while i < n
        invariant
            0 <= i <= n,
            n == s@.len(),
            out@ == old(out)@ + le_bytes(n as int, 8) + enc_chars(s@.take(i as int)),
        decreases n - i,
    {
        let c = s.get_char(i);
        push_le4(out, c as u32);
        proof {
            lemma_enc_chars_push(s@.take(i as int), c);
            assert(s@.take(i as int).push(c) =~= s@.take(i + 1));
            assert(old(out)@ + le_bytes(n as int, 8) + enc_chars(s@.take(i as int)) + enc_char(c)
                =~= old(out)@ + le_bytes(n as int, 8) + (enc_chars(s@.take(i as int)) + enc_char(
                c,
            )));
        }
        i = i + 1;
    }
    proof {
        assert(s@.take(n as int) =~= s@);
        assert(old(out)@ + le_bytes(n as int, 8) + enc_chars(s@) =~= old(out)@ + enc_str(s@));
    }
}

proof fn lemma_enc_strs_push(t: Seq<Seq<char>>, s: Seq<char>)
    ensures
        enc_strs_items(t.push(s)) == enc_strs_items(t) + enc_str(s),
    decreases t.len(),
{
    if t.len() == 0 {
        assert(t.push(s)[0] == s);
        assert(t.push(s).drop_first() =~= Seq::<Seq<char>>::empty());
        assert(t =~= Seq::<Seq<char>>::empty());
        assert(enc_str(s) + Seq::<u8>::empty() =~= enc_str(s));
        assert(Seq::<u8>::empty() + enc_str(s) =~= enc_str(s));
        assert(enc_strs_items(t.push(s)) =~= enc_strs_items(t) + enc_str(s));
    } else {
        assert(t.push(s).drop_first() =~= t.drop_first().push(s));
        assert(t.push(s)[0] == t[0]);
        lemma_enc_strs_push(t.drop_first(), s);
        assert(enc_str(t[0]) + (enc_strs_items(t.drop_first()) + enc_str(s)) =~= (enc_str(t[0])
            + enc_strs_items(t.drop_first())) + enc_str(s));
        assert(enc_strs_items(t.push(s)) =~= enc_strs_items(t) + enc_str(s));
    }
}

fn push_strs(out: &mut Vec<u8>, v: &Vec<String>)
    ensures
        final(out)@ == old(out)@ + enc_strs(crate::record::strings_view(v@)),
        strs_fit(crate::record::strings_view(v@)),
{
    let sv = Ghost(crate::record::strings_view(v@));
    let n = v.len();
    proof {
        lemma_pow256_vals();
    }
    push_le8(out, n as u64);
    let mut i: usize = 0;
    while i < n
        invariant
            0 <= i <= n,
            n == v.len(),
            sv@ == crate::record::strings_view(v@),
            sv@.len() == n,
            out@ == old(out)@ + le_bytes(n as int, 8) + enc_strs_items(sv@.take(i as int)),
            forall|j: int| 0 <= j < i ==> str_fits(#[trigger] sv@[j]),
        decreases n - i,
    {
        push_str(out, v[i].as_str());
        proof {
            lemma_enc_strs_push(sv@.take(i as int), sv@[i as int]);
            assert(sv@.take(i as int).push(sv@[i as int]) =~= sv@.take(i + 1));
            assert(old(out)@ + le_bytes(n as int, 8) + enc_strs_items(sv@.take(i as int)) + enc_str(
                sv@[i as int],
            ) =~= old(out)@ + le_bytes(n as int, 8) + (enc_strs_items(sv@.take(i as int)) + enc_str(
                sv@[i as int],
            )));
        }
        i = i + 1;
    }
    proof {
        assert(sv@.take(n as int) =~= sv@);
        assert(old(out)@ + le_bytes(n as int, 8) + enc_strs_items(sv@) =~= old(out)@ + enc_strs(
            sv@,
        ));
    }
}

fn push_ts(out: &mut Vec<u8>, t: &Timestamp)
    ensures
        final(out)@ == old(out)@ + enc_ts(*t),
{
    let y = ((t.year as i64) + 2147483648) as u32;
    let off = ((t.offset_seconds as i64) + 2147483648) as u32;
    push_le4(out, y);
    push_le4(out, t.month);
    push_le4(out, t.day);
    push_le4(out, t.hour);
    push_le4(out, t.minute);
    push_le4(out, t.second);
    push_le4(out, off);
    proof {
        assert(out@ =~= old(out)@ + enc_ts(*t));
    }
}

proof fn lemma_tag_bytes()
    ensures
        le_bytes(0, 1) =~= seq![0u8],
        le_bytes(1, 1) =~= seq![1u8],
{
    reveal_with_fuel(le_bytes, 2);
}

/// Serializes a record to its binary form. Total: every record encodes.
#[verifier::rlimit(100)]
#[verifier::spinoff_prover]
pub fn encode_record(r: &NewsData) -> (out: Vec<u8>)
    ensures
        out@ == enc_record(r@),
        model_fits(r@),
{
    let mut out: Vec<u8> = Vec::new();
    push_le4(&mut out, r.version);
    push_str(&mut out, r.title.as_str());
    match &r.authors {
        None => {
            out.push(0u8);
            proof {
                lemma_tag_bytes();
            }
        },
        Some(v) => {
            out.push(1u8);
            proof {
                lemma_tag_bytes();
            }
            push_strs(&mut out, v);
        },
    }
    match &r.timestamp_published {
        None => {
            out.push(0u8);
            proof {
                lemma_tag_bytes();
            }
        },
        Some(t) => {
            out.push(1u8);
            proof {
                lemma_tag_bytes();
            }
            push_ts(&mut out, t);
        },
    }
    match &r.timestamp_updated {
        None => {
            out.push(0u8);
            proof {
                lemma_tag_bytes();
            }
        },
        Some(t) => {
            out.push(1u8);
            proof {
                lemma_tag_bytes();
            }
            push_ts(&mut out, t);
        },
    }
    match &r.byline {
        None => {
            out.push(0u8);
            proof {
                lemma_tag_bytes();
            }
        },
        Some(s) => {
            out.push(1u8);
            proof {
                lemma_tag_bytes();
            }
            push_str(&mut out, s.as_str());
        },
    }
    push_str(&mut out, r.content.as_str());
    push_strs(&mut out, &r.tags);
    proof {
        assert(out@ =~= enc_record(r@));
    }
    out
}

proof fn lemma_int_of_le_unfold(b: Seq<u8>, i: int, j: int)
    requires
        0 <= i < j <= b.len(),
    ensures
        int_of_le(b.subrange(i, j)) == b[i] + 256 * int_of_le(b.subrange(i + 1, j)),
{
    assert(b.subrange(i, j).drop_first() =~= b.subrange(i + 1, j));
    assert(b.subrange(i, j)[0] == b[i]);
}

fn read_le4(b: &Vec<u8>, i: usize) -> (r: Option<(u32, usize)>)
    ensures
        match r {
            Some((x, j)) => dec_uint(b@, i as int, 4) == Some((x as int, j as int)),
            None => dec_uint(b@, i as int, 4) is None,
        },
{
    if b.len() < 4 || i > b.len() - 4 {
        return None;
    }
    let x0 = b[i] as u32;
    let x1 = b[i + 1] as u32;
    let x2 = b[i + 2] as u32;
    let x3 = b[i + 3] as u32;
    let x = x0 + 256 * x1 + 65536 * x2 + 16777216 * x3;
    proof {
        lemma_int_of_le_unfold(b@, i as int, i + 4);
        lemma_int_of_le_unfold(b@, i + 1, i + 4);
        lemma_int_of_le_unfold(b@, i + 2, i + 4);
        lemma_int_of_le_unfold(b@, i + 3, i + 4);
        assert(b@.subrange(i + 4, i + 4).len() == 0);
    }
    Some((x, i + 4))
}

fn read_le8(b: &Vec<u8>, i: usize) -> (r: Option<(u64, usize)>)
    ensures
        match r {
            Some((x, j)) => dec_uint(b@, i as int, 8) == Some((x as int, j as int)),
            None => dec_uint(b@, i as int, 8) is None,
        },
{
    if b.len() < 8 || i > b.len() - 8 {
        return None;
    }
    let x0 = b[i] as u64;
    let x1 = b[i + 1] as u64;
    let x2 = b[i + 2] as u64;
    let x3 = b[i + 3] as u64;
    let x4 = b[i + 4] as u64;
    let x5 = b[i + 5] as u64;
    let x6 = b[i + 6] as u64;
    let x7 = b[i + 7] as u64;
    let x = x0 + 256 * x1 + 65536 * x2 + 16777216 * x3 + 4294967296 * x4 + 1099511627776 * x5
        + 281474976710656 * x6 + 72057594037927936 * x7;
    proof {
        lemma_int_of_le_unfold(b@, i as int, i + 8);
        lemma_int_of_le_unfold(b@, i + 1, i + 8);
        lemma_int_of_le_unfold(b@, i + 2, i + 8);
        lemma_int_of_le_unfold(b@, i + 3, i + 8);
        lemma_int_of_le_unfold(b@, i + 4, i + 8);
        lemma_int_of_le_unfold(b@, i + 5, i + 8);
        lemma_int_of_le_unfold(b@, i + 6, i + 8);
        lemma_int_of_le_unfold(b@, i + 7, i + 8);
        assert(b@.subrange(i + 8, i + 8).len() == 0);
    }
    Some((x, i + 8))
}

fn read_tag(b: &Vec<u8>, i: usize) -> (r: Option<(u8, usize)>)
    ensures
        match r {
            Some((x, j)) => dec_uint(b@, i as int, 1) == Some((x as int, j as int)),
            None => dec_uint(b@, i as int, 1) is None,
        },
{
    if i >= b.len() {
        return None;
    }
    proof {
        lemma_int_of_le_unfold(b@, i as int, i + 1);
        assert(b@.subrange(i + 1, i + 1).len() == 0);
    }
    Some((b[i], i + 1))
}

fn read_char(b: &Vec<u8>, i: usize) -> (r: Option<(char, usize)>)
    ensures
        match r {
            Some((c, j)) => dec_char(b@, i as int) == Some((c, j as int)),
            None => dec_char(b@, i as int) is None,
        },
{
    match read_le4(b, i) {
        None => None,
        Some((u, j)) => match u32_to_char(u) {
            None => None,
            Some(c) => {
                proof {
                    vstd::utf8::char_u32_cast(c, u);
                    assert(dec_char(b@, i as int) == Some((c, j as int)));
                }
                Some((c, j))
            },
        },
    }
}

fn read_str(b: &Vec<u8>, i: usize) -> (r: Option<(String, usize)>)
    ensures
        match r {
            Some((s, j)) => dec_str(b@, i as int) == Some((s@, j as int)),
            None => dec_str(b@, i as int) is None,
        },
{
    match read_le8(b, i) {
        None => None,
        Some((n, j0)) => {
            let mut acc: Vec<char> = Vec::new();
            let mut cur: usize = j0;
            let mut k: u64 = 0;
            while k < n
                invariant
                    0 <= k <= n,
                    dec_uint(b@, i as int, 8) == Some((n as int, j0 as int)),
                    match dec_chars(b@, cur as int, (n - k) as nat) {
                        Some((s2, e)) => dec_chars(b@, j0 as int, n as nat) == Some(
                            (acc@ + s2, e),
                        ),
                        None => dec_chars(b@, j0 as int, n as nat) is None,
                    },
                decreases n - k,
            {
                match read_char(b, cur) {
                    None => {
                        return None;
                    },
                    Some((c, j2)) => {
                        proof {
                            let m1 = (n - k - 1) as nat;
                            if dec_chars(b@, j2 as int, m1) is Some {
                                let p = dec_chars(b@, j2 as int, m1)->Some_0;
                                assert(acc@ + (seq![c] + p.0) =~= acc@.push(c) + p.0);
                            }
                        }
                        acc.push(c);
                        cur = j2;
                        k = k + 1;
                    },
                }
            }
            proof {
                assert(dec_chars(b@, cur as int, 0) == Some((Seq::<char>::empty(), cur as int)));
                assert(acc@ + Seq::<char>::empty() =~= acc@);
            }
            let s = chars_to_string(&acc);
            Some((s, cur))
        },
    }
}

fn read_ts(b: &Vec<u8>, i: usize) -> (r: Option<(Timestamp, usize)>)
    ensures
        match r {
            Some((t, j)) => dec_ts(b@, i as int) == Some((t, j as int)),
            None => dec_ts(b@, i as int) is None,
        },
{
    if b.len() < 28 || i > b.len() - 28 {
        return None;
    }
    let r1 = read_le4(b, i);
    let r2 = read_le4(b, i + 4);
    let r3 = read_le4(b, i + 8);
    let r4 = read_le4(b, i + 12);
    let r5 = read_le4(b, i + 16);
    let r6 = read_le4(b, i + 20);
    let r7 = read_le4(b, i + 24);
    match (r1, r2, r3, r4, r5, r6, r7) {
        (
            Some((y, _)),
            Some((mo, _)),
            Some((d, _)),
            Some((h, _)),
            Some((mi, _)),
            Some((se, _)),
            Some((off, _)),
        ) => {
            let t = Timestamp {
                year: ((y as i64) - 2147483648) as i32,
                month: mo,
                day: d,
                hour: h,
                minute: mi,
                second: se,
                offset_seconds: ((off as i64) - 2147483648) as i32,
            };
            Some((t, i + 28))
        },
        _ => {
            proof {
                assert(false);
            }
            None
        },
    }
}

fn read_strs(b: &Vec<u8>, i: usize) -> (r: Option<(Vec<String>, usize)>)
    ensures
        match r {
            Some((v, j)) => dec_strs(b@, i as int) == Some(
                (crate::record::strings_view(v@), j as int),
            ),
            None => dec_strs(b@, i as int) is None,
        },
{
    match read_le8(b, i) {
        None => None,
        Some((n, j0)) => {
            let mut acc: Vec<String> = Vec::new();
            let mut cur: usize = j0;
            let mut k: u64 = 0;
            while k < n
                invariant
                    0 <= k <= n,
                    dec_uint(b@, i as int, 8) == Some((n as int, j0 as int)),
                    match dec_strs_items(b@, cur as int, (n - k) as nat) {
                        Some((v2, e)) => dec_strs_items(b@, j0 as int, n as nat) == Some(
                            (crate::record::strings_view(acc@) + v2, e),
                        ),
                        None => dec_strs_items(b@, j0 as int, n as nat) is None,
                    },
                decreases n - k,
            {
                match read_str(b, cur) {
                    None => {
                        return None;
                    },
                    Some((s, j2)) => {
                        proof {
                            let m1 = (n - k - 1) as nat;
                            assert(crate::record::strings_view(acc@.push(s))
                                =~= crate::record::strings_view(acc@).push(s@));
                            if dec_strs_items(b@, j2 as int, m1) is Some {
                                let p = dec_strs_items(b@, j2 as int, m1)->Some_0;
                                assert(crate::record::strings_view(acc@) + (seq![s@] + p.0)
                                    =~= crate::record::strings_view(acc@).push(s@) + p.0);
                            }
                        }
                        acc.push(s);
                        cur = j2;
                        k = k + 1;
                    },
                }
            }
            proof {
                assert(dec_strs_items(b@, cur as int, 0) == Some(
                    (Seq::<Seq<char>>::empty(), cur as int),
                ));
                assert(crate::record::strings_view(acc@) + Seq::<Seq<char>>::empty()
                    =~= crate::record::strings_view(acc@));
            }
            Some((acc, cur))
        },
    }
}

fn read_opt_str(b: &Vec<u8>, i: usize) -> (r: Option<(Option<String>, usize)>)
    ensures
        match r {
            Some((o, j)) => dec_opt_str(b@, i as int) == Some(
                (
                    match o {
                        Some(s) => Some(s@),
                        None => None,
                    },
                    j as int,
                ),
            ),
            None => dec_opt_str(b@, i as int) is None,
        },
{
    match read_tag(b, i) {
        None => None,
        Some((tag, j)) => {
            if tag == 0 {
                Some((None, j))
            } else if tag == 1 {
                match read_str(b, j) {
                    None => None,
                    Some((s, k)) => Some((Some(s), k)),
                }
            } else {
                None
            }
        },
    }
}

fn read_opt_ts(b: &Vec<u8>, i: usize) -> (r: Option<(Option<Timestamp>, usize)>)
    ensures
        match r {
            Some((o, j)) => dec_opt_ts(b@, i as int) == Some((o, j as int)),
            None => dec_opt_ts(b@, i as int) is None,
        },
{
    match read_tag(b, i) {
        None => None,
        Some((tag, j)) => {
            if tag == 0 {
                Some((None, j))
            } else if tag == 1 {
                match read_ts(b, j) {
                    None => None,
                    Some((t, k)) => Some((Some(t), k)),
                }
            } else {
                None
            }
        },
    }
}

fn read_opt_strs(b: &Vec<u8>, i: usize) -> (r: Option<(Option<Vec<String>>, usize)>)
    ensures
        match r {
            Some((o, j)) => dec_opt_strs(b@, i as int) == Some(
                (
                    match o {
                        Some(v) => Some(crate::record::strings_view(v@)),
                        None => None,
                    },
                    j as int,
                ),
            ),
            None => dec_opt_strs(b@, i as int) is None,
        },
{
    match read_tag(b, i) {
        None => None,
        Some((tag, j)) => {
            if tag == 0 {
                Some((None, j))
            } else if tag == 1 {
                match read_strs(b, j) {
                    None => None,
                    Some((v, k)) => Some((Some(v), k)),
                }
            } else {
                None
            }
        },
    }
}

/// Parses a record back from its binary form: succeeds exactly on complete,
/// well-formed encodings that carry the supported schema version, and then
/// returns the record they stand for.
pub fn decode_record(bytes: &Vec<u8>) -> (r: Result<NewsData, CodecError>)
    ensures
        match dec_record(bytes@) {
            Some(m) => r matches Ok(rec) && rec@ == m,
            None => r matches Err(e) && e == CodecError::Malformed,
        },
{
    let (ver, i1) = match read_le4(bytes, 0) {
        Some(p) => p,
        None => {
            return Err(CodecError::Malformed);
        },
    };
    if ver != 1 {
        return Err(CodecError::Malformed);
    }
    let (title, i2) = match read_str(bytes, i1) {
        Some(p) => p,
        None => {
            return Err(CodecError::Malformed);
        },
    };
    let (authors, i3) = match read_opt_strs(bytes, i2) {
        Some(p) => p,
        None => {
            return Err(CodecError::Malformed);
        },
    };
    let (published, i4) = match read_opt_ts(bytes, i3) {
        Some(p) => p,
        None => {
            return Err(CodecError::Malformed);
        },
    };
    let (updated, i5) = match read_opt_ts(bytes, i4) {
        Some(p) => p,
        None => {
            return Err(CodecError::Malformed);
        },
    };
    let (byline, i6) = match read_opt_str(bytes, i5) {
        Some(p) => p,
        None => {
            return Err(CodecError::Malformed);
        },
    };
    let (content, i7) = match read_str(bytes, i6) {
        Some(p) => p,
        None => {
            return Err(CodecError::Malformed);
        },
    };
    let (tags, i8) = match read_strs(bytes, i7) {
        Some(p) => p,
        None => {
            return Err(CodecError::Malformed);
        },
    };
    if i8 != bytes.len() {
        return Err(CodecError::Malformed);
    }
    let rec = NewsData {
        title,
        authors,
        timestamp_published: published,
        timestamp_updated: updated,
        byline,
        content,
        tags,
        version: ver,
    };
    proof {
        assert(rec@ =~~= dec_record(bytes@)->Some_0);
    }
    Ok(rec)
}

} // verus!
