//! The JSON texts of zookies and of cached check outcomes, in the one
//! canonical layout this library writes: no spaces, fields in fixed order.
use vstd::prelude::*;
use vstd::utf8::*;

use crate::decimal::{
    decimal_bytes, lemma_decimal_ascii, lemma_int_round_trip, parse_i64, read_i64, write_decimal,
};
use crate::escape::{
    escape_bytes, lemma_ascii_valid, lemma_escape_valid, lemma_string_round_trip,
    parse_string_body, read_string_body, write_escaped,
};
use crate::zookie::{Zookie, ZookieMetadata, ZookieModel};

verus! {

/// The bytes of `{"timestamp_micros":`.
pub open spec fn ts_open_text() -> Seq<u8> {
    seq![0x7bu8, 0x22u8, 0x74u8, 0x69u8, 0x6du8, 0x65u8, 0x73u8, 0x74u8, 0x61u8, 0x6du8, 0x70u8, 0x5fu8, 0x6du8, 0x69u8, 0x63u8, 0x72u8, 0x6fu8, 0x73u8, 0x22u8, 0x3au8]
}

fn ts_open_bytes() -> (r: &'static [u8])
    ensures
        r@ == ts_open_text(),
{
    &[0x7bu8, 0x22u8, 0x74u8, 0x69u8, 0x6du8, 0x65u8, 0x73u8, 0x74u8, 0x61u8, 0x6du8, 0x70u8, 0x5fu8, 0x6du8, 0x69u8, 0x63u8, 0x72u8, 0x6fu8, 0x73u8, 0x22u8, 0x3au8]
}

/// The bytes of `,"metadata":`.
pub open spec fn metadata_key_text() -> Seq<u8> {
    seq![0x2cu8, 0x22u8, 0x6du8, 0x65u8, 0x74u8, 0x61u8, 0x64u8, 0x61u8, 0x74u8, 0x61u8, 0x22u8, 0x3au8]
}

fn metadata_key_bytes() -> (r: &'static [u8])
    ensures
        r@ == metadata_key_text(),
{
    &[0x2cu8, 0x22u8, 0x6du8, 0x65u8, 0x74u8, 0x61u8, 0x64u8, 0x61u8, 0x74u8, 0x61u8, 0x22u8, 0x3au8]
}

/// The bytes of `null`.
pub open spec fn null_text() -> Seq<u8> {
    seq![0x6eu8, 0x75u8, 0x6cu8, 0x6cu8]
}

fn null_bytes() -> (r: &'static [u8])
    ensures
        r@ == null_text(),
{
    &[0x6eu8, 0x75u8, 0x6cu8, 0x6cu8]
}

/// The bytes of `{"node_id":`.
pub open spec fn node_open_text() -> Seq<u8> {
    seq![0x7bu8, 0x22u8, 0x6eu8, 0x6fu8, 0x64u8, 0x65u8, 0x5fu8, 0x69u8, 0x64u8, 0x22u8, 0x3au8]
}

fn node_open_bytes() -> (r: &'static [u8])
    ensures
        r@ == node_open_text(),
{
    &[0x7bu8, 0x22u8, 0x6eu8, 0x6fu8, 0x64u8, 0x65u8, 0x5fu8, 0x69u8, 0x64u8, 0x22u8, 0x3au8]
}

/// The bytes of `,"transaction_id":`.
pub open spec fn transaction_key_text() -> Seq<u8> {
    seq![0x2cu8, 0x22u8, 0x74u8, 0x72u8, 0x61u8, 0x6eu8, 0x73u8, 0x61u8, 0x63u8, 0x74u8, 0x69u8, 0x6fu8, 0x6eu8, 0x5fu8, 0x69u8, 0x64u8, 0x22u8, 0x3au8]
}

fn transaction_key_bytes() -> (r: &'static [u8])
    ensures
        r@ == transaction_key_text(),
{
    &[0x2cu8, 0x22u8, 0x74u8, 0x72u8, 0x61u8, 0x6eu8, 0x73u8, 0x61u8, 0x63u8, 0x74u8, 0x69u8, 0x6fu8, 0x6eu8, 0x5fu8, 0x69u8, 0x64u8, 0x22u8, 0x3au8]
}

/// The bytes of `}`.
pub open spec fn close_text() -> Seq<u8> {
    seq![0x7du8]
}

fn close_bytes() -> (r: &'static [u8])
    ensures
        r@ == close_text(),
{
    &[0x7du8]
}

/// The bytes of `{"allowed":`.
pub open spec fn allowed_open_text() -> Seq<u8> {
    seq![0x7bu8, 0x22u8, 0x61u8, 0x6cu8, 0x6cu8, 0x6fu8, 0x77u8, 0x65u8, 0x64u8, 0x22u8, 0x3au8]
}

fn allowed_open_bytes() -> (r: &'static [u8])
    ensures
        r@ == allowed_open_text(),
{
    &[0x7bu8, 0x22u8, 0x61u8, 0x6cu8, 0x6cu8, 0x6fu8, 0x77u8, 0x65u8, 0x64u8, 0x22u8, 0x3au8]
}

/// The bytes of `true`.
pub open spec fn true_text() -> Seq<u8> {
    seq![0x74u8, 0x72u8, 0x75u8, 0x65u8]
}

fn true_bytes() -> (r: &'static [u8])
    ensures
        r@ == true_text(),
{
    &[0x74u8, 0x72u8, 0x75u8, 0x65u8]
}

/// The bytes of `false`.
pub open spec fn false_text() -> Seq<u8> {
    seq![0x66u8, 0x61u8, 0x6cu8, 0x73u8, 0x65u8]
}

fn false_bytes() -> (r: &'static [u8])
    ensures
        r@ == false_text(),
{
    &[0x66u8, 0x61u8, 0x6cu8, 0x73u8, 0x65u8]
}

/// The bytes of `,"cached_at":`.
pub open spec fn cached_at_key_text() -> Seq<u8> {
    seq![0x2cu8, 0x22u8, 0x63u8, 0x61u8, 0x63u8, 0x68u8, 0x65u8, 0x64u8, 0x5fu8, 0x61u8, 0x74u8, 0x22u8, 0x3au8]
}

fn cached_at_key_bytes() -> (r: &'static [u8])
    ensures
        r@ == cached_at_key_text(),
{
    &[0x2cu8, 0x22u8, 0x63u8, 0x61u8, 0x63u8, 0x68u8, 0x65u8, 0x64u8, 0x5fu8, 0x61u8, 0x74u8, 0x22u8, 0x3au8]
}

/// The bytes of `,"original_zookie":`.
pub open spec fn original_key_text() -> Seq<u8> {
    seq![0x2cu8, 0x22u8, 0x6fu8, 0x72u8, 0x69u8, 0x67u8, 0x69u8, 0x6eu8, 0x61u8, 0x6cu8, 0x5fu8, 0x7au8, 0x6fu8, 0x6fu8, 0x6bu8, 0x69u8, 0x65u8, 0x22u8, 0x3au8]
}

fn original_key_bytes() -> (r: &'static [u8])
    ensures
        r@ == original_key_text(),
{
    &[0x2cu8, 0x22u8, 0x6fu8, 0x72u8, 0x69u8, 0x67u8, 0x69u8, 0x6eu8, 0x61u8, 0x6cu8, 0x5fu8, 0x7au8, 0x6fu8, 0x6fu8, 0x6bu8, 0x69u8, 0x65u8, 0x22u8, 0x3au8]
}

/// `s` without the leading `p`, if it starts with `p`.
pub open spec fn strip(s: Seq<u8>, p: Seq<u8>) -> Option<Seq<u8>> {
    if s.len() >= p.len() && s.take(p.len() as int) == p {
        Some(s.skip(p.len() as int))
    } else {
        None
    }
}

proof fn lemma_strip(p: Seq<u8>, rest: Seq<u8>)
    ensures
        strip(p + rest, p) == Some(rest),
{
    assert((p + rest).take(p.len() as int) =~= p);
    assert((p + rest).skip(p.len() as int) =~= rest);
}

proof fn lemma_strip_fails(s: Seq<u8>, p: Seq<u8>)
    requires
        s.len() > 0,
        p.len() > 0,
        s[0] != p[0],
    ensures
        strip(s, p) is None,
{
    if s.len() >= p.len() && s.take(p.len() as int) == p {
        assert(s.take(p.len() as int)[0] == s[0]);
    }
}

/// Relies on `String::from_utf8`: it succeeds exactly on valid UTF-8, whose
/// characters it returns.
#[verifier::external_body]
fn string_from_utf8(v: Vec<u8>) -> (r: Option<String>)
    ensures
        r is Some <==> valid_utf8(v@),
        r matches Some(s) ==> s@ == decode_utf8(v@),
{
    String::from_utf8(v).ok()
}

fn push_bytes(out: &mut Vec<u8>, bytes: &[u8])
    ensures
        final(out)@ == old(out)@ + bytes@,
{
    let mut i: usize = 0;
    while i < bytes.len()
        invariant
            i <= bytes@.len(),
            out@ == old(out)@ + bytes@.take(i as int),
        decreases bytes@.len() - i,
    {
        out.push(bytes[i]);
        proof {
            assert(bytes@.take(i + 1) =~= bytes@.take(i as int).push(bytes@[i as int]));
        }
        i += 1;
    }
    proof {
        assert(bytes@.take(i as int) =~= bytes@);
    }
}

/// Where `lit` ends, if `b` holds it at `pos`.
fn match_at(b: &[u8], pos: usize, lit: &[u8]) -> (r: Option<usize>)
    requires
        pos <= b@.len(),
    ensures
        match r {
            Some(p) => p == pos + lit@.len() && p <= b@.len() && strip(b@.skip(pos as int), lit@)
                == Some(b@.skip(p as int)),
            None => strip(b@.skip(pos as int), lit@) is None,
        },
{
    if b.len() - pos < lit.len() {
        return None;
    }
    let n = b.len();
    let mut i: usize = 0;
    while i < lit.len()
        invariant
            n == b@.len(),
            pos + lit@.len() <= b@.len(),
            i <= lit@.len(),
            forall|j: int| 0 <= j < i ==> b@[pos + j] == lit@[j],
        decreases lit@.len() - i,
    {
        if b[pos + i] != lit[i] {
            proof {
                assert(b@.skip(pos as int).take(lit@.len() as int)[i as int] != lit@[i as int]);
            }
            return None;
        }
        i += 1;
    }
    proof {
        assert(b@.skip(pos as int).take(lit@.len() as int) =~= lit@);
        assert(b@.skip(pos as int).skip(lit@.len() as int) =~= b@.skip(pos + lit@.len()));
    }
    Some(pos + lit.len())
}

/// An optional string: `null`, or its UTF-8 bytes escaped between quotes.
pub open spec fn opt_text(o: Option<Seq<char>>) -> Seq<u8> {
    match o {
        None => null_text(),
        Some(s) => seq![0x22u8] + escape_bytes(encode_utf8(s)) + seq![0x22u8],
    }
}

pub open spec fn parse_opt(b: Seq<u8>) -> Option<(Option<Seq<char>>, Seq<u8>)> {
    match strip(b, null_text()) {
        Some(r) => Some((None, r)),
        None => if b.len() > 0 && b[0] == 0x22 {
            match parse_string_body(b.skip(1)) {
                Some((raw, r)) => if valid_utf8(raw) {
                    Some((Some(decode_utf8(raw)), r))
                } else {
                    None
                },
                None => None,
            }
        } else {
            None
        },
    }
}

/// The metadata of a zookie: `null`, or `{"node_id":..,"transaction_id":..}`.
pub open spec fn meta_text(m: Option<(Option<Seq<char>>, Option<Seq<char>>)>) -> Seq<u8> {
    match m {
        None => null_text(),
        Some((a, c)) => node_open_text() + opt_text(a) + transaction_key_text() + opt_text(c)
            + close_text(),
    }
}

pub open spec fn parse_meta(b: Seq<u8>) -> Option<
    (Option<(Option<Seq<char>>, Option<Seq<char>>)>, Seq<u8>),
> {
    match strip(b, null_text()) {
        Some(r) => Some((None, r)),
        None => match strip(b, node_open_text()) {
            None => None,
            Some(b1) => match parse_opt(b1) {
                None => None,
                Some((a, b2)) => match strip(b2, transaction_key_text()) {
                    None => None,
                    Some(b3) => match parse_opt(b3) {
                        None => None,
                        Some((c, b4)) => match strip(b4, close_text()) {
                            None => None,
                            Some(b5) => Some((Some((a, c)), b5)),
                        },
                    },
                },
            },
        },
    }
}

/// The JSON text of a zookie:
/// `{"timestamp_micros":N,"metadata":null}` or with the metadata object.
pub open spec fn zookie_text(z: ZookieModel) -> Seq<u8> {
    ts_open_text() + decimal_bytes(z.0 as int) + metadata_key_text() + meta_text(z.1)
        + close_text()
}

/// The zookie that a JSON text stands for; nothing may follow it.
pub open spec fn parse_zookie_text(b: Seq<u8>) -> Option<ZookieModel> {
    match strip(b, ts_open_text()) {
        None => None,
        Some(b1) => match parse_i64(b1) {
            None => None,
            Some((ts, b2)) => match strip(b2, metadata_key_text()) {
                None => None,
                Some(b3) => match parse_meta(b3) {
                    None => None,
                    Some((m, b4)) => match strip(b4, close_text()) {
                        None => None,
                        Some(b5) => if b5.len() == 0 {
                            Some((ts, m))
                        } else {
                            None
                        },
                    },
                },
            },
        },
    }
}

proof fn lemma_opt_round_trip(o: Option<Seq<char>>, rest: Seq<u8>)
    ensures
        parse_opt(opt_text(o) + rest) == Some((o, rest)),
{
    match o {
        None => {
            lemma_strip(null_text(), rest);
        },
        Some(s) => {
            let raw = encode_utf8(s);
            let b = opt_text(o) + rest;
            lemma_strip_fails(b, null_text());
            assert(b.skip(1) =~= escape_bytes(raw) + seq![0x22u8] + rest);
            lemma_string_round_trip(raw, rest);
            encode_utf8_valid_utf8(s);
            encode_utf8_decode_utf8(s);
        },
    }
}

proof fn lemma_meta_round_trip(m: Option<(Option<Seq<char>>, Option<Seq<char>>)>, rest: Seq<u8>)
    ensures
        parse_meta(meta_text(m) + rest) == Some((m, rest)),
{
    match m {
        None => {
            lemma_strip(null_text(), rest);
        },
        Some((a, c)) => {
            let tail4 = close_text() + rest;
            let tail3 = opt_text(c) + tail4;
            let tail2 = transaction_key_text() + tail3;
            let tail1 = opt_text(a) + tail2;
            let b = node_open_text() + tail1;
            assert(meta_text(m) + rest =~= b);
            lemma_strip_fails(b, null_text());
            lemma_strip(node_open_text(), tail1);
            lemma_opt_round_trip(a, tail2);
            lemma_strip(transaction_key_text(), tail3);
            lemma_opt_round_trip(c, tail4);
            lemma_strip(close_text(), rest);
        },
    }
}

/// The JSON text of a zookie reads back as that zookie.
pub proof fn lemma_zookie_text_round_trip(z: ZookieModel)
    ensures
        parse_zookie_text(zookie_text(z)) == Some(z),
{
    let e = Seq::<u8>::empty();
    let tail3 = close_text();
    let tail2 = meta_text(z.1) + tail3;
    let tail1 = metadata_key_text() + tail2;
    let b0 = decimal_bytes(z.0 as int) + tail1;
    let b = ts_open_text() + b0;
    assert(zookie_text(z) =~= b);
    lemma_strip(ts_open_text(), b0);
    lemma_int_round_trip(z.0, tail1);
    lemma_strip(metadata_key_text(), tail2);
    lemma_meta_round_trip(z.1, tail3);
    assert(tail3 =~= close_text() + e);
    lemma_strip(close_text(), e);
}

fn write_opt(out: &mut Vec<u8>, o: &Option<String>)
    ensures
        final(out)@ == old(out)@ + opt_text(crate::hierarchy::opt_view(*o)),
{
    match o {
        None => push_bytes(out, null_bytes()),
        Some(s) => {
            out.push(0x22);
            let ghost mid = out@;
            write_escaped(out, s.as_str().as_bytes());
            out.push(0x22);
            proof {
                assert(final(out)@ =~= old(out)@ + opt_text(crate::hierarchy::opt_view(*o)));
            }
        },
    }
}

fn read_opt(b: &[u8], pos: usize) -> (r: Option<(Option<String>, usize)>)
    requires
        pos <= b@.len(),
    ensures
        match r {
            Some((o, p)) => p <= b@.len() && parse_opt(b@.skip(pos as int)) == Some(
                (crate::hierarchy::opt_view(o), b@.skip(p as int)),
            ),
            None => parse_opt(b@.skip(pos as int)) is None,
        },
{
    if let Some(p) = match_at(b, pos, null_bytes()) {
        return Some((None, p));
    }
    if pos < b.len() && b[pos] == 0x22 {
        proof {
            assert(b@.skip(pos as int).skip(1) =~= b@.skip(pos + 1));
        }
        match read_string_body(b, pos + 1) {
            None => None,
            Some((raw, p)) => {
                match string_from_utf8(raw) {
                    Some(s) => Some((Some(s), p)),
                    None => None,
                }
            },
        }
    } else {
        None
    }
}

fn write_meta(out: &mut Vec<u8>, m: &Option<ZookieMetadata>)
    ensures
        final(out)@ == old(out)@ + meta_text(
            match *m {
                Some(x) => Some(x.view()),
                None => None,
            },
        ),
{
    match m {
        None => push_bytes(out, null_bytes()),
        Some(x) => {
            push_bytes(out, node_open_bytes());
            write_opt(out, &x.node_id);
            push_bytes(out, transaction_key_bytes());
            write_opt(out, &x.transaction_id);
            push_bytes(out, close_bytes());
            proof {
                assert(final(out)@ =~= old(out)@ + meta_text(Some(x.view())));
            }
        },
    }
}

fn read_meta(b: &[u8], pos: usize) -> (r: Option<(Option<ZookieMetadata>, usize)>)
    requires
        pos <= b@.len(),
    ensures
        match r {
            Some((m, p)) => p <= b@.len() && parse_meta(b@.skip(pos as int)) == Some(
                (
                    match m {
                        Some(x) => Some(x.view()),
                        None => None,
                    },
                    b@.skip(p as int),
                ),
            ),
            None => parse_meta(b@.skip(pos as int)) is None,
        },
{
    if let Some(p) = match_at(b, pos, null_bytes()) {
        return Some((None, p));
    }
    let pos1 = match match_at(b, pos, node_open_bytes()) {
        Some(p) => p,
        None => return None,
    };
    let (node_id, pos2) = match read_opt(b, pos1) {
        Some(x) => x,
        None => return None,
    };
    let pos3 = match match_at(b, pos2, transaction_key_bytes()) {
        Some(p) => p,
        None => return None,
    };
    let (transaction_id, pos4) = match read_opt(b, pos3) {
        Some(x) => x,
        None => return None,
    };
    let pos5 = match match_at(b, pos4, close_bytes()) {
        Some(p) => p,
        None => return None,
    };
    Some((Some(ZookieMetadata { node_id, transaction_id }), pos5))
}

/// The JSON text of a zookie.
pub fn write_zookie(z: &Zookie) -> (r: Vec<u8>)
    ensures
        r@ == zookie_text(z.view()),
{
    let mut out: Vec<u8> = Vec::new();
    push_bytes(&mut out, ts_open_bytes());
    write_decimal(&mut out, z.timestamp_micros);
    push_bytes(&mut out, metadata_key_bytes());
    write_meta(&mut out, &z.metadata);
    push_bytes(&mut out, close_bytes());
    proof {
        assert(out@ =~= zookie_text(z.view()));
    }
    out
}

/// Reads the JSON text of a zookie.
pub fn read_zookie(b: &[u8]) -> (r: Option<Zookie>)
    ensures
        match r {
            Some(z) => parse_zookie_text(b@) == Some(z.view()),
            None => parse_zookie_text(b@) is None,
        },
{
    proof {
        assert(b@.skip(0) =~= b@);
    }
    let pos1 = match match_at(b, 0, ts_open_bytes()) {
        Some(p) => p,
        None => return None,
    };
    let (timestamp_micros, pos2) = match read_i64(b, pos1) {
        Some(x) => x,
        None => return None,
    };
    let pos3 = match match_at(b, pos2, metadata_key_bytes()) {
        Some(p) => p,
        None => return None,
    };
    let (metadata, pos4) = match read_meta(b, pos3) {
        Some(x) => x,
        None => return None,
    };
    let pos5 = match match_at(b, pos4, close_bytes()) {
        Some(p) => p,
        None => return None,
    };
    if pos5 == b.len() {
        Some(Zookie { timestamp_micros, metadata })
    } else {
        None
    }
}

/// The JSON text of a cached check outcome:
/// `{"allowed":B,"cached_at":N,"original_zookie":"Z"}`.
pub open spec fn cached_text(allowed: bool, cached_at: i64, original_zookie: Seq<char>) -> Seq<u8> {
    allowed_open_text() + (if allowed {
        true_text()
    } else {
        false_text()
    }) + cached_at_key_text() + decimal_bytes(cached_at as int) + original_key_text() + opt_text(
        Some(original_zookie),
    ) + close_text()
}

pub open spec fn parse_bool(b: Seq<u8>) -> Option<(bool, Seq<u8>)> {
    match strip(b, true_text()) {
        Some(r) => Some((true, r)),
        None => match strip(b, false_text()) {
            Some(r) => Some((false, r)),
            None => None,
        },
    }
}

/// The cached outcome that a JSON text stands for; nothing may follow it.
pub open spec fn parse_cached_text(b: Seq<u8>) -> Option<(bool, i64, Seq<char>)> {
    match strip(b, allowed_open_text()) {
        None => None,
        Some(b1) => match parse_bool(b1) {
            None => None,
            Some((allowed, b2)) => match strip(b2, cached_at_key_text()) {
                None => None,
                Some(b3) => match parse_i64(b3) {
                    None => None,
                    Some((at, b4)) => match strip(b4, original_key_text()) {
                        None => None,
                        Some(b5) => match parse_opt(b5) {
                            Some((Some(z), b6)) => match strip(b6, close_text()) {
                                Some(b7) => if b7.len() == 0 {
                                    Some((allowed, at, z))
                                } else {
                                    None
                                },
                                None => None,
                            },
                            _ => None,
                        },
                    },
                },
            },
        },
    }
}

/// The JSON text of a cached check outcome reads back as that outcome.
pub proof fn lemma_cached_text_round_trip(allowed: bool, cached_at: i64, z: Seq<char>)
    ensures
        parse_cached_text(cached_text(allowed, cached_at, z)) == Some((allowed, cached_at, z)),
{
    let e = Seq::<u8>::empty();
    let t6 = close_text();
    let t5 = opt_text(Some(z)) + t6;
    let t4 = original_key_text() + t5;
    let t3 = decimal_bytes(cached_at as int) + t4;
    let t2 = cached_at_key_text() + t3;
    let bt = if allowed {
        true_text()
    } else {
        false_text()
    };
    let t1 = bt + t2;
    let b = allowed_open_text() + t1;
    assert(cached_text(allowed, cached_at, z) =~= b);
    lemma_strip(allowed_open_text(), t1);
    if allowed {
        lemma_strip(true_text(), t2);
    } else {
        lemma_strip_fails(t1, true_text());
        lemma_strip(false_text(), t2);
    }
    lemma_strip(cached_at_key_text(), t3);
    lemma_int_round_trip(cached_at, t4);
    lemma_strip(original_key_text(), t5);
    lemma_opt_round_trip(Some(z), t6);
    assert(t6 =~= close_text() + e);
    lemma_strip(close_text(), e);
}

/// The JSON text of a cached check outcome is valid UTF-8.
pub proof fn lemma_cached_text_valid(allowed: bool, cached_at: i64, z: Seq<char>)
    ensures
        valid_utf8(cached_text(allowed, cached_at, z)),
{
    let q = seq![0x22u8];
    let lits = seq![
        allowed_open_text(),
        true_text(),
        false_text(),
        cached_at_key_text(),
        original_key_text(),
        close_text(),
        q,
    ];
    assert forall|j: int| 0 <= j < lits.len() implies valid_utf8(#[trigger] lits[j]) by {
        let l = lits[j];
        assert forall|i: int| 0 <= i < l.len() implies #[trigger] l[i] < 0x80 by {}
        lemma_ascii_valid(l);
    }
    let bt = if allowed {
        true_text()
    } else {
        false_text()
    };
    assert(valid_utf8(lits[0]) && valid_utf8(lits[1]) && valid_utf8(lits[2]) && valid_utf8(lits[3]));
    assert(valid_utf8(lits[4]) && valid_utf8(lits[5]) && valid_utf8(lits[6]));
    assert(valid_utf8(bt));
    lemma_decimal_ascii(cached_at);
    lemma_ascii_valid(decimal_bytes(cached_at as int));
    encode_utf8_valid_utf8(z);
    lemma_escape_valid(encode_utf8(z));
    let e = escape_bytes(encode_utf8(z));
    valid_utf8_concat(q, e);
    valid_utf8_concat(q + e, q);
    let s1 = allowed_open_text() + bt;
    valid_utf8_concat(allowed_open_text(), bt);
    let s2 = s1 + cached_at_key_text();
    valid_utf8_concat(s1, cached_at_key_text());
    let s3 = s2 + decimal_bytes(cached_at as int);
    valid_utf8_concat(s2, decimal_bytes(cached_at as int));
    let s4 = s3 + original_key_text();
    valid_utf8_concat(s3, original_key_text());
    let s5 = s4 + opt_text(Some(z));
    assert(opt_text(Some(z)) == q + e + q);
    valid_utf8_concat(s4, opt_text(Some(z)));
    valid_utf8_concat(s5, close_text());
}

/// The JSON text of a cached check outcome, as bytes.
pub fn write_cached(allowed: bool, cached_at: i64, original_zookie: &String) -> (r: Vec<u8>)
    ensures
        r@ == cached_text(allowed, cached_at, original_zookie@),
{
    let mut out: Vec<u8> = Vec::new();
    push_bytes(&mut out, allowed_open_bytes());
    if allowed {
        push_bytes(&mut out, true_bytes());
    } else {
        push_bytes(&mut out, false_bytes());
    }
    push_bytes(&mut out, cached_at_key_bytes());
    write_decimal(&mut out, cached_at);
    push_bytes(&mut out, original_key_bytes());
    let z = Some(original_zookie.clone());
    write_opt(&mut out, &z);
    push_bytes(&mut out, close_bytes());
    proof {
        assert(out@ =~= cached_text(allowed, cached_at, original_zookie@));
    }
    out
}

/// Reads the JSON text of a cached check outcome.
pub fn read_cached(b: &[u8]) -> (r: Option<(bool, i64, String)>)
    ensures
        match r {
            Some((a, t, z)) => parse_cached_text(b@) == Some((a, t, z@)),
            None => parse_cached_text(b@) is None,
        },
{
    proof {
        assert(b@.skip(0) =~= b@);
    }
    let pos1 = match match_at(b, 0, allowed_open_bytes()) {
        Some(p) => p,
        None => return None,
    };
    let (allowed, pos2) = match match_at(b, pos1, true_bytes()) {
        Some(p) => (true, p),
        None => match match_at(b, pos1, false_bytes()) {
            Some(p) => (false, p),
            None => return None,
        },
    };
    let pos3 = match match_at(b, pos2, cached_at_key_bytes()) {
        Some(p) => p,
        None => return None,
    };
    let (cached_at, pos4) = match read_i64(b, pos3) {
        Some(x) => x,
        None => return None,
    };
    let pos5 = match match_at(b, pos4, original_key_bytes()) {
        Some(p) => p,
        None => return None,
    };
    let (z, pos6) = match read_opt(b, pos5) {
        Some((Some(z), p)) => (z, p),
        _ => return None,
    };
    let pos7 = match match_at(b, pos6, close_bytes()) {
        Some(p) => p,
        None => return None,
    };
    if pos7 == b.len() {
        Some((allowed, cached_at, z))
    } else {
        None
    }
}

/// Text from bytes, when they are UTF-8.
pub fn text_from_bytes(v: Vec<u8>) -> (r: Option<String>)
    ensures
        r is Some <==> valid_utf8(v@),
        r matches Some(s) ==> s@ == decode_utf8(v@) && encode_utf8(s@) == v@,
{
    let ghost bytes = v@;
    let r = string_from_utf8(v);
    proof {
        if r is Some {
            decode_utf8_encode_utf8(bytes);
        }
    }
    r
}

} // verus!
