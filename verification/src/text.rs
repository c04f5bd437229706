//! Deterministic pretty serialization of documents to bytes.
//!
//! Two-space indentation, `": "` separators, raw UTF-8 string content with
//! the standard escapes; the output of a write never holds a comment.

use vstd::prelude::*;
use vstd::utf8::encode_utf8;
use crate::json::{Json, JsonV, EntriesV, jv_seq, jv_entries, lemma_jv_seq_len, lemma_jv_seq_index,
    lemma_jv_entries_len, lemma_jv_entries_index};

verus! {

broadcast use vstd::std_specs::vec::group_vec_axioms;

/// The escape of one byte inside a string literal.
pub open spec fn escape_byte(b: u8) -> Seq<u8> {
    if b == 34 {
        seq![92u8, 34u8]
    } else if b == 92 {
        seq![92u8, 92u8]
    } else if b == 8 {
        seq![92u8, 98u8]
    } else if b == 12 {
        seq![92u8, 102u8]
    } else if b == 10 {
        seq![92u8, 110u8]
    } else if b == 13 {
        seq![92u8, 114u8]
    } else if b == 9 {
        seq![92u8, 116u8]
    } else if b < 32 {
        seq![92u8, 117u8, 48u8, 48u8, hex_digit(b / 16), hex_digit(b % 16)]
    } else {
        seq![b]
    }
}

/// Lower-case hexadecimal digit for a value below sixteen.
pub open spec fn hex_digit(n: u8) -> u8 {
    if n < 10 {
        (48 + n) as u8
    } else {
        (87 + n) as u8
    }
}

/// All bytes of a string body, escaped.
pub open spec fn escaped_bytes(bs: Seq<u8>) -> Seq<u8>
    decreases bs,
{
    if bs.len() == 0 {
        Seq::empty()
    } else {
        escaped_bytes(bs.drop_last()) + escape_byte(bs.last())
    }
}

/// The serialized form of a string: quoted, escaped UTF-8.
pub open spec fn str_text(s: Seq<char>) -> Seq<u8> {
    seq![34u8] + escaped_bytes(encode_utf8(s)) + seq![34u8]
}

/// One level of indentation.
pub open spec fn ind() -> Seq<u8> {
    seq![32u8, 32u8]
}

/// The serialized bytes of a value, with enclosing indentation `pre`.
pub open spec fn text_of(v: JsonV, pre: Seq<u8>) -> Seq<u8>
    decreases v, 0nat,
{
    match v {
        JsonV::Null => seq![110u8, 117u8, 108u8, 108u8],
        JsonV::Bool(b) => if b {
            seq![116u8, 114u8, 117u8, 101u8]
        } else {
            seq![102u8, 97u8, 108u8, 115u8, 101u8]
        },
        JsonV::Num(s) => encode_utf8(s),
        JsonV::Str(s) => str_text(s),
        JsonV::Arr(els) => if els.len() == 0 {
            seq![91u8, 93u8]
        } else {
            seq![91u8, 10u8] + arr_items_text(els, pre + ind()) + seq![10u8] + pre + seq![93u8]
        },
        JsonV::Obj(es) => if es.len() == 0 {
            seq![123u8, 125u8]
        } else {
            seq![123u8, 10u8] + obj_items_text(es, pre + ind()) + seq![10u8] + pre + seq![125u8]
        },
    }
}

/// Array items, one per line at indentation `pre`, comma-separated.
pub open spec fn arr_items_text(els: Seq<JsonV>, pre: Seq<u8>) -> Seq<u8>
    decreases els, 1nat,
{
    if els.len() == 0 {
        Seq::empty()
    } else if els.len() == 1 {
        pre + text_of(els[0], pre)
    } else {
        arr_items_text(els.drop_last(), pre) + seq![44u8, 10u8] + pre + text_of(els.last(), pre)
    }
}

/// Object entries, one per line at indentation `pre`, comma-separated.
pub open spec fn obj_items_text(es: EntriesV, pre: Seq<u8>) -> Seq<u8>
    decreases es, 1nat,
{
    if es.len() == 0 {
        Seq::empty()
    } else if es.len() == 1 {
        pre + str_text(es[0].0) + seq![58u8, 32u8] + text_of(es[0].1, pre)
    } else {
        obj_items_text(es.drop_last(), pre) + seq![44u8, 10u8] + pre + str_text(es.last().0) + seq![
            58u8,
            32u8,
        ] + text_of(es.last().1, pre)
    }
}

/// The serialized bytes of a whole document.
pub open spec fn json_text(v: JsonV) -> Seq<u8> {
    text_of(v, Seq::empty())
}

/// Appends the bytes of `src` to `out`.
#[verifier::loop_isolation(false)]
pub fn push_bytes(out: &mut Vec<u8>, src: &Vec<u8>)
    ensures
        final(out)@ == old(out)@ + src@,
{
    let n = src.len();
    let mut i: usize = 0;
    while i < n
        invariant
            0 <= i <= n,
            out@ == old(out)@ + src@.take(i as int),
        decreases n - i,
    {
        out.push(src[i]);
        proof {
            assert(out@ =~= old(out)@ + src@.take(i + 1));
        }
        i = i + 1;
    }
    proof {
        assert(old(out)@ + src@.take(n as int) =~= old(out)@ + src@);
    }
}

/// Appends the UTF-8 bytes of `s` to `out`.
pub fn push_str_bytes(out: &mut Vec<u8>, s: &str)
    ensures
        final(out)@ == old(out)@ + encode_utf8(s@),
{
    let b = s.as_bytes_vec();
    push_bytes(out, &b);
}

/// Appends the serialized (quoted, escaped) form of `s` to `out`.
#[verifier::loop_isolation(false)]
pub fn push_str_text(out: &mut Vec<u8>, s: &str)
    ensures
        final(out)@ == old(out)@ + str_text(s@),
{
    let b = s.as_bytes_vec();
    out.push(34);
    let ghost start = out@;
    let n = b.len();
    let mut i: usize = 0;
    while i < n
        invariant
            0 <= i <= n,
            out@ == start + escaped_bytes(b@.take(i as int)),
        decreases n - i,
    {
        let ghost cur = out@;
        let c = b[i];
        if c == 34 || c == 92 {
            out.push(92);
            out.push(c);
        } else if c == 8 {
            out.push(92);
            out.push(98);
        } else if c == 12 {
            out.push(92);
            out.push(102);
        } else if c == 10 {
            out.push(92);
            out.push(110);
        } else if c == 13 {
            out.push(92);
            out.push(114);
        } else if c == 9 {
            out.push(92);
            out.push(116);
        } else if c < 32 {
            out.push(92);
            out.push(117);
            out.push(48);
            out.push(48);
            let hi = c / 16;
            let lo = c % 16;
            out.push(if hi < 10 { 48 + hi } else { 87 + hi });
            out.push(if lo < 10 { 48 + lo } else { 87 + lo });
        } else {
            out.push(c);
        }
        proof {
            assert(out@ =~= cur + escape_byte(b@[i as int]));
            assert(b@.take(i + 1).drop_last() =~= b@.take(i as int));
            assert(b@.take(i + 1).last() == b@[i as int]);
            assert(out@ =~= start + escaped_bytes(b@.take(i + 1)));
        }
        i = i + 1;
    }
    out.push(34);
    proof {
        assert(b@.take(n as int) =~= b@);
        assert(final(out)@ =~= old(out)@ + str_text(s@));
    }
}

/// Serializes `j` into `out` with enclosing indentation `pre`.
#[verifier::loop_isolation(false)]
#[verifier::rlimit(80)]
pub fn write_value(j: &Json, pre: &Vec<u8>, out: &mut Vec<u8>)
    ensures
        final(out)@ == old(out)@ + text_of(j.jv(), pre@),
    decreases j,
{
    match j {
        Json::Null => {
            out.push(110);
            out.push(117);
            out.push(108);
            out.push(108);
            proof {
                assert(out@ =~= old(out)@ + text_of(j.jv(), pre@));
            }
        },
        Json::Bool(b) => {
            if *b {
                out.push(116);
                out.push(114);
                out.push(117);
                out.push(101);
            } else {
                out.push(102);
                out.push(97);
                out.push(108);
                out.push(115);
                out.push(101);
            }
            proof {
                assert(out@ =~= old(out)@ + text_of(j.jv(), pre@));
            }
        },
        Json::Num(s) => {
            push_str_bytes(out, s.as_str());
        },
        Json::Str(s) => {
            push_str_text(out, s.as_str());
        },
        Json::Arr(els) => {
            if els.len() == 0 {
                out.push(91);
                out.push(93);
                proof {
                    assert(out@ =~= old(out)@ + text_of(j.jv(), pre@));
                }
            } else {
                let mut inner: Vec<u8> = Vec::new();
                push_bytes(&mut inner, pre);
                inner.push(32);
                inner.push(32);
                proof {
                    assert(inner@ =~= pre@ + ind());
                }
                out.push(91);
                out.push(10);
                let ghost start = out@;
                let n = els.len();
                let mut i: usize = 0;
                while i < n
                    invariant
                        1 <= n == els@.len(),
                        0 <= i <= n,
                        inner@ == pre@ + ind(),
                        i == 0 ==> out@ == start,
                        i > 0 ==> out@ == start + arr_items_text(jv_seq(els@).take(i as int), inner@),
                    decreases n - i,
                {
                    proof {
                        lemma_jv_seq_len(els@);
                        lemma_jv_seq_index(els@, i as int);
                    }
                    if i > 0 {
                        out.push(44);
                        out.push(10);
                    }
                    push_bytes(out, &inner);
                    let ghost mid = out@;
                    write_value(&els[i], &inner, out);
                    proof {
                        let items = jv_seq(els@);
                        assert(items.take(i + 1).drop_last() =~= items.take(i as int));
                        assert(items.take(i + 1).last() == items[i as int]);
                        assert(out@ =~= start + arr_items_text(items.take(i + 1), inner@));
                    }
                    i = i + 1;
                }
                out.push(10);
                push_bytes(out, pre);
                out.push(93);
                proof {
                    lemma_jv_seq_len(els@);
                    assert(jv_seq(els@).take(n as int) =~= jv_seq(els@));
                    assert(out@ =~= old(out)@ + text_of(j.jv(), pre@));
                }
            }
        },
        Json::Obj(es) => {
            if es.len() == 0 {
                out.push(123);
                out.push(125);
                proof {
                    assert(out@ =~= old(out)@ + text_of(j.jv(), pre@));
                }
            } else {
                let mut inner: Vec<u8> = Vec::new();
                push_bytes(&mut inner, pre);
                inner.push(32);
                inner.push(32);
                proof {
                    assert(inner@ =~= pre@ + ind());
                }
                out.push(123);
                out.push(10);
                let ghost start = out@;
                let n = es.len();
                let mut i: usize = 0;
                while i < n
                    invariant
                        1 <= n == es@.len(),
                        0 <= i <= n,
                        inner@ == pre@ + ind(),
                        i == 0 ==> out@ == start,
                        i > 0 ==> out@ == start + obj_items_text(
                            jv_entries(es@).take(i as int),
                            inner@,
                        ),
                    decreases n - i,
                {
                    proof {
                        lemma_jv_entries_len(es@);
                        lemma_jv_entries_index(es@, i as int);
                    }
                    if i > 0 {
                        out.push(44);
                        out.push(10);
                    }
                    push_bytes(out, &inner);
                    push_str_text(out, es[i].0.as_str());
                    out.push(58);
                    out.push(32);
                    write_value(&es[i].1, &inner, out);
                    proof {
                        let items = jv_entries(es@);
                        assert(items.take(i + 1).drop_last() =~= items.take(i as int));
                        assert(items.take(i + 1).last() == items[i as int]);
                        assert(out@ =~= start + obj_items_text(items.take(i + 1), inner@));
                    }
                    i = i + 1;
                }
                out.push(10);
                push_bytes(out, pre);
                out.push(125);
                proof {
                    lemma_jv_entries_len(es@);
                    assert(jv_entries(es@).take(n as int) =~= jv_entries(es@));
                    assert(out@ =~= old(out)@ + text_of(j.jv(), pre@));
                }
            }
        },
    }
}

/// Serializes a whole document.
pub fn json_to_bytes(j: &Json) -> (r: Vec<u8>)
    ensures
        r@ == json_text(j.jv()),
{
    let pre: Vec<u8> = Vec::new();
    let mut out: Vec<u8> = Vec::new();
    write_value(j, &pre, &mut out);
    proof {
        assert(out@ =~= json_text(j.jv()));
    }
    out
}


// ---------------------------------------------------------------------------
// Decimal number text
// ---------------------------------------------------------------------------

/// The decimal digits of a number, as bytes.
pub open spec fn dec_bytes(n: nat) -> Seq<u8>
    decreases n,
{
    if n < 10 {
        seq![(48 + n) as u8]
    } else {
        dec_bytes(n / 10).push((48 + n % 10) as u8)
    }
}

/// The numeric value of a digit string.
pub open spec fn dec_val(bs: Seq<u8>) -> nat
    decreases bs,
{
    if bs.len() == 0 {
        0
    } else {
        dec_val(bs.drop_last()) * 10 + (if 48 <= bs.last() <= 57 {
            (bs.last() - 48) as nat
        } else {
            0
        })
    }
}

/// All bytes are decimal digits.
pub open spec fn all_digits(bs: Seq<u8>) -> bool {
    forall|i: int| 0 <= i < bs.len() ==> 48 <= #[trigger] bs[i] <= 57
}

/// Relies on the standard decimal `Display` of `u32`: the digit string of
/// the value.
#[verifier::external_body]
pub(crate) fn u32_to_string(n: u32) -> (r: String)
    ensures
        r@ == dec_chars(n as nat),
{
    n.to_string()
}

/// Reads a base-ten number out of a text: `Some` exactly when the text is
/// one or more digits and its value fits an unsigned sixty-four-bit word.
#[verifier::loop_isolation(false)]
pub fn parse_u64_digits(s: &str) -> (r: Option<u64>)
    ensures
        match r {
            Option::Some(v) => {
                &&& all_digits(encode_utf8(s@))
                &&& encode_utf8(s@).len() > 0
                &&& v == dec_val(encode_utf8(s@))
            },
            Option::None => !(all_digits(encode_utf8(s@)) && encode_utf8(s@).len() > 0 && dec_val(
                encode_utf8(s@),
            ) <= u64::MAX),
        },
{
    let bs = s.as_bytes_vec();
    let n = bs.len();
    if n == 0 {
        return Option::None;
    }
    let mut val: u64 = 0;
    let mut i: usize = 0;
    while i < n
        invariant
            0 <= i <= n,
            all_digits(bs@.take(i as int)),
            val == dec_val(bs@.take(i as int)),
        decreases n - i,
    {
        let b = bs[i];
        if b < 48 || b > 57 {
            proof {
                assert(bs@.take(n as int) =~= bs@);
                assert(!all_digits(bs@));
            }
            return Option::None;
        }
        let d = (b - 48) as u64;
        if val > 0xffff_ffff_ffff_ffffu64 / 10 || (val == 0xffff_ffff_ffff_ffffu64 / 10 && d
            > 0xffff_ffff_ffff_ffffu64 % 10) {
            proof {
                assert(bs@.take(i + 1).drop_last() =~= bs@.take(i as int));
                assert(bs@.take(i + 1).last() == bs@[i as int]);
                lemma_dec_val_monotone(bs@, i + 1);
                assert(dec_val(bs@.take(i + 1)) > u64::MAX);
            }
            return Option::None;
        }
        val = val * 10 + d;
        proof {
            assert(bs@.take(i + 1).drop_last() =~= bs@.take(i as int));
            assert(bs@.take(i + 1).last() == bs@[i as int]);
        }
        i = i + 1;
    }
    proof {
        assert(bs@.take(n as int) =~= bs@);
    }
    Option::Some(val)
}

/// A longer digit prefix never has a smaller value.
proof fn lemma_dec_val_monotone(bs: Seq<u8>, k: int)
    requires
        0 < k <= bs.len(),
    ensures
        dec_val(bs.take(k)) >= dec_val(bs.take(k - 1)),
        dec_val(bs) >= dec_val(bs.take(k)),
    decreases bs.len() - k,
{
    assert(bs.take(k).drop_last() =~= bs.take(k - 1));
    if k < bs.len() {
        lemma_dec_val_monotone(bs, k + 1);
        assert(bs.take(k + 1).drop_last() =~= bs.take(k));
    } else {
        assert(bs.take(k) =~= bs);
    }
}


/// The decimal digits of a number, as characters.
pub open spec fn dec_chars(n: nat) -> Seq<char>
    decreases n,
{
    if n < 10 {
        seq![((48 + n) as u8) as char]
    } else {
        dec_chars(n / 10).push(((48 + n % 10) as u8) as char)
    }
}

/// An ASCII scalar encodes to its own single byte.
proof fn lemma_ascii_scalar_byte(v: u32)
    requires
        v < 128,
    ensures
        vstd::utf8::leading_byte_width_1(v) == v as u8,
{
    assert((v & 0x7F) as u8 == v as u8) by (bit_vector)
        requires
            v < 128u32,
    ;
}

/// Appending a character appends its encoding.
pub proof fn lemma_encode_push(a: Seq<char>, c: char)
    ensures
        encode_utf8(a.push(c)) == encode_utf8(a) + vstd::utf8::encode_scalar(c as u32),
    decreases a,
{
    if a.len() == 0 {
        let s1 = a.push(c);
        assert(s1.len() == 1);
        assert(s1[0] == c);
        assert(s1.drop_first() =~= Seq::<char>::empty());
        assert(encode_utf8(Seq::<char>::empty()) == Seq::<u8>::empty());
        assert(encode_utf8(s1) == vstd::utf8::encode_scalar(c as u32) + encode_utf8(
            Seq::<char>::empty(),
        ));
        assert(vstd::utf8::encode_scalar(c as u32) + Seq::<u8>::empty()
            =~= vstd::utf8::encode_scalar(c as u32));
        assert(encode_utf8(a) == Seq::<u8>::empty());
        assert(encode_utf8(a) + vstd::utf8::encode_scalar(c as u32)
            =~= vstd::utf8::encode_scalar(c as u32));
    } else {
        assert(a.push(c)[0] == a[0]);
        assert(a.push(c).drop_first() =~= a.drop_first().push(c));
        lemma_encode_push(a.drop_first(), c);
        assert(encode_utf8(a.push(c)) =~= encode_utf8(a) + vstd::utf8::encode_scalar(c as u32));
    }
}

/// The digit characters encode to exactly the digit bytes, which are all
/// digits and read back as the number.
pub proof fn lemma_dec_chars_bytes(n: nat)
    ensures
        encode_utf8(dec_chars(n)) == dec_bytes(n),
        all_digits(dec_bytes(n)),
        dec_bytes(n).len() > 0,
        dec_val(dec_bytes(n)) == n,
    decreases n,
{
    if n < 10 {
        let c = ((48 + n) as u8) as char;
        assert(c as u32 == 48 + n);
        assert(dec_chars(n)[0] == c);
        assert(dec_chars(n).drop_first() =~= Seq::<char>::empty());
        assert(vstd::utf8::has_width_1_encoding(c as u32));
        lemma_ascii_scalar_byte(c as u32);
        assert(vstd::utf8::encode_scalar(c as u32) =~= seq![(48 + n) as u8]);
        assert(dec_chars(n) =~= Seq::<char>::empty().push(c));
        lemma_encode_push(Seq::<char>::empty(), c);
        assert(encode_utf8(Seq::<char>::empty()) == Seq::<u8>::empty());
        assert(encode_utf8(dec_chars(n)) =~= dec_bytes(n));
        assert(dec_bytes(n).drop_last() =~= Seq::<u8>::empty());
        assert(dec_val(dec_bytes(n).drop_last()) == 0);
        assert(dec_bytes(n).last() == (48 + n) as u8);
        assert(dec_val(dec_bytes(n)) == n);
    } else {
        lemma_dec_chars_bytes(n / 10);
        let c = ((48 + n % 10) as u8) as char;
        assert(c as u32 == 48 + n % 10);
        lemma_encode_push(dec_chars(n / 10), c);
        assert(vstd::utf8::has_width_1_encoding(c as u32));
        lemma_ascii_scalar_byte(c as u32);
        assert(vstd::utf8::encode_scalar(c as u32) =~= seq![(48 + n % 10) as u8]);
        assert(encode_utf8(dec_chars(n)) =~= dec_bytes(n / 10).push((48 + n % 10) as u8));
        assert(dec_bytes(n) =~= dec_bytes(n / 10).push((48 + n % 10) as u8));
        assert(dec_bytes(n).drop_last() =~= dec_bytes(n / 10));
        assert(dec_val(dec_bytes(n)) == n);
    }
}


// ---------------------------------------------------------------------------
// No comment form
// ---------------------------------------------------------------------------

/// No byte of `bs` is the slash byte, the byte every comment marker
/// (`//`, `/*`, `*/`) opens or closes with.
pub open spec fn no_slash(bs: Seq<u8>) -> bool {
    forall|i: int| 0 <= i < bs.len() ==> bs[i] != 47u8
}

/// All of a document's texts (strings, keys, number literals) are free of
/// the slash byte.
pub open spec fn jv_no_slash(v: JsonV) -> bool
    decreases v, 0nat,
{
    match v {
        JsonV::Null => true,
        JsonV::Bool(_) => true,
        JsonV::Num(s) => no_slash(encode_utf8(s)),
        JsonV::Str(s) => no_slash(encode_utf8(s)),
        JsonV::Arr(els) => arr_no_slash(els),
        JsonV::Obj(es) => obj_no_slash(es),
    }
}

/// Slash-free texts, over an array's elements.
pub open spec fn arr_no_slash(els: Seq<JsonV>) -> bool
    decreases els, 1nat,
{
    if els.len() == 0 {
        true
    } else {
        arr_no_slash(els.drop_last()) && jv_no_slash(els.last())
    }
}

/// Slash-free texts, over an object's keys and values.
pub open spec fn obj_no_slash(es: EntriesV) -> bool
    decreases es, 1nat,
{
    if es.len() == 0 {
        true
    } else {
        obj_no_slash(es.drop_last()) && no_slash(encode_utf8(es.last().0)) && jv_no_slash(
            es.last().1,
        )
    }
}

proof fn lemma_no_slash_concat(a: Seq<u8>, b: Seq<u8>)
    requires
        no_slash(a),
        no_slash(b),
    ensures
        no_slash(a + b),
{
    assert forall|i: int| 0 <= i < (a + b).len() implies (a + b)[i] != 47u8 by {
        if i < a.len() {
            assert((a + b)[i] == a[i]);
        } else {
            assert((a + b)[i] == b[i - a.len()]);
        }
    }
}

proof fn lemma_escaped_no_slash(bs: Seq<u8>)
    requires
        no_slash(bs),
    ensures
        no_slash(escaped_bytes(bs)),
    decreases bs,
{
    if bs.len() > 0 {
        assert(no_slash(bs.drop_last()));
        lemma_escaped_no_slash(bs.drop_last());
        let b = bs.last();
        assert(b != 47u8);
        assert(no_slash(escape_byte(b)));
        lemma_no_slash_concat(escaped_bytes(bs.drop_last()), escape_byte(b));
    }
}

proof fn lemma_str_text_no_slash(s: Seq<char>)
    requires
        no_slash(encode_utf8(s)),
    ensures
        no_slash(str_text(s)),
{
    lemma_escaped_no_slash(encode_utf8(s));
    lemma_no_slash_concat(seq![34u8], escaped_bytes(encode_utf8(s)));
    lemma_no_slash_concat(seq![34u8] + escaped_bytes(encode_utf8(s)), seq![34u8]);
}

proof fn lemma_text_of_no_slash(v: JsonV, pre: Seq<u8>)
    requires
        jv_no_slash(v),
        no_slash(pre),
    ensures
        no_slash(text_of(v, pre)),
    decreases v, 0nat,
{
    match v {
        JsonV::Null => {},
        JsonV::Bool(_) => {},
        JsonV::Num(s) => {},
        JsonV::Str(s) => {
            lemma_str_text_no_slash(s);
        },
        JsonV::Arr(els) => {
            if els.len() > 0 {
                lemma_no_slash_concat(pre, ind());
                lemma_arr_items_no_slash(els, pre + ind());
                lemma_no_slash_concat(seq![91u8, 10u8], arr_items_text(els, pre + ind()));
                lemma_no_slash_concat(
                    seq![91u8, 10u8] + arr_items_text(els, pre + ind()),
                    seq![10u8],
                );
                lemma_no_slash_concat(
                    seq![91u8, 10u8] + arr_items_text(els, pre + ind()) + seq![10u8],
                    pre,
                );
                lemma_no_slash_concat(
                    seq![91u8, 10u8] + arr_items_text(els, pre + ind()) + seq![10u8] + pre,
                    seq![93u8],
                );
            }
        },
        JsonV::Obj(es) => {
            if es.len() > 0 {
                lemma_no_slash_concat(pre, ind());
                lemma_obj_items_no_slash(es, pre + ind());
                lemma_no_slash_concat(seq![123u8, 10u8], obj_items_text(es, pre + ind()));
                lemma_no_slash_concat(
                    seq![123u8, 10u8] + obj_items_text(es, pre + ind()),
                    seq![10u8],
                );
                lemma_no_slash_concat(
                    seq![123u8, 10u8] + obj_items_text(es, pre + ind()) + seq![10u8],
                    pre,
                );
                lemma_no_slash_concat(
                    seq![123u8, 10u8] + obj_items_text(es, pre + ind()) + seq![10u8] + pre,
                    seq![125u8],
                );
            }
        },
    }
}

proof fn lemma_arr_items_no_slash(els: Seq<JsonV>, pre: Seq<u8>)
    requires
        arr_no_slash(els),
        no_slash(pre),
    ensures
        no_slash(arr_items_text(els, pre)),
    decreases els, 1nat,
{
    if els.len() == 1 {
        lemma_text_of_no_slash(els[0], pre);
        lemma_no_slash_concat(pre, text_of(els[0], pre));
    } else if els.len() > 1 {
        lemma_arr_items_no_slash(els.drop_last(), pre);
        lemma_text_of_no_slash(els.last(), pre);
        lemma_no_slash_concat(arr_items_text(els.drop_last(), pre), seq![44u8, 10u8]);
        lemma_no_slash_concat(arr_items_text(els.drop_last(), pre) + seq![44u8, 10u8], pre);
        lemma_no_slash_concat(
            arr_items_text(els.drop_last(), pre) + seq![44u8, 10u8] + pre,
            text_of(els.last(), pre),
        );
    }
}

proof fn lemma_obj_items_no_slash(es: EntriesV, pre: Seq<u8>)
    requires
        obj_no_slash(es),
        no_slash(pre),
    ensures
        no_slash(obj_items_text(es, pre)),
    decreases es, 1nat,
{
    if es.len() == 1 {
        lemma_str_text_no_slash(es[0].0);
        lemma_text_of_no_slash(es[0].1, pre);
        lemma_no_slash_concat(pre, str_text(es[0].0));
        lemma_no_slash_concat(pre + str_text(es[0].0), seq![58u8, 32u8]);
        lemma_no_slash_concat(pre + str_text(es[0].0) + seq![58u8, 32u8], text_of(es[0].1, pre));
    } else if es.len() > 1 {
        lemma_obj_items_no_slash(es.drop_last(), pre);
        lemma_str_text_no_slash(es.last().0);
        lemma_text_of_no_slash(es.last().1, pre);
        lemma_no_slash_concat(obj_items_text(es.drop_last(), pre), seq![44u8, 10u8]);
        lemma_no_slash_concat(obj_items_text(es.drop_last(), pre) + seq![44u8, 10u8], pre);
        lemma_no_slash_concat(
            obj_items_text(es.drop_last(), pre) + seq![44u8, 10u8] + pre,
            str_text(es.last().0),
        );
        lemma_no_slash_concat(
            obj_items_text(es.drop_last(), pre) + seq![44u8, 10u8] + pre + str_text(es.last().0),
            seq![58u8, 32u8],
        );
        lemma_no_slash_concat(
            obj_items_text(es.drop_last(), pre) + seq![44u8, 10u8] + pre + str_text(es.last().0)
                + seq![58u8, 32u8],
            text_of(es.last().1, pre),
        );
    }
}

/// The serializer's grammar has no comment form: every comment marker
/// needs a slash byte, and a write emits one only where a document text
/// itself carries one.  So serializing a document whose texts are free of
/// the slash byte yields bytes without a single slash — in particular,
/// re-serializing a document read from a commented file can never
/// reintroduce a comment of its own.
pub proof fn lemma_serializer_adds_no_comment_marker(v: JsonV)
    requires
        jv_no_slash(v),
    ensures
        no_slash(json_text(v)),
{
    lemma_text_of_no_slash(v, Seq::empty());
}

} // verus!

