//! Quoted JSON string content, written and read byte by byte.
use vstd::prelude::*;
use vstd::utf8::*;

verus! {

/// A lowercase hexadecimal digit for `d < 16`.
pub open spec fn hex_digit(d: int) -> u8 {
    if d < 10 {
        (0x30 + d) as u8
    } else {
        (0x61 + d - 10) as u8
    }
}

pub open spec fn is_hex(x: u8) -> bool {
    (0x30 <= x <= 0x39) || (0x61 <= x <= 0x66)
}

pub open spec fn hex_value(x: u8) -> int {
    if x <= 0x39 {
        x - 0x30
    } else {
        x - 0x61 + 10
    }
}

/// How one byte of a string is written between quotes: `"` and `\` behind a
/// backslash, control bytes as `\u00XX`, all others as they are.
pub open spec fn escape_byte(x: u8) -> Seq<u8> {
    if x == 0x22 {
        seq![0x5cu8, 0x22u8]
    } else if x == 0x5c {
        seq![0x5cu8, 0x5cu8]
    } else if x < 0x20 {
        seq![0x5cu8, 0x75u8, 0x30u8, 0x30u8, hex_digit(x as int / 16), hex_digit(x as int % 16)]
    } else {
        seq![x]
    }
}

pub open spec fn escape_bytes(b: Seq<u8>) -> Seq<u8>
    decreases b.len(),
{
    if b.len() == 0 {
        seq![]
    } else {
        escape_byte(b[0]) + escape_bytes(b.drop_first())
    }
}

/// The byte that a one-letter escape `\b`, `\f`, `\n`, `\r`, `\t` or `\/` stands for.
pub open spec fn short_escape(x: u8) -> Option<u8> {
    if x == 0x62 {
        Some(0x08u8)
    } else if x == 0x66 {
        Some(0x0cu8)
    } else if x == 0x6e {
        Some(0x0au8)
    } else if x == 0x72 {
        Some(0x0du8)
    } else if x == 0x74 {
        Some(0x09u8)
    } else if x == 0x2f {
        Some(0x2fu8)
    } else {
        None
    }
}

/// Reads string content up to the closing quote: the bytes it stands for and
/// what follows the quote.
pub open spec fn parse_string_body(b: Seq<u8>) -> Option<(Seq<u8>, Seq<u8>)>
    decreases b.len(),
{
    if b.len() == 0 {
        None
    } else if b[0] == 0x22 {
        Some((seq![], b.skip(1)))
    } else if b[0] == 0x5c {
        if b.len() >= 2 && (b[1] == 0x22 || b[1] == 0x5c) {
            match parse_string_body(b.skip(2)) {
                Some((x, r)) => Some((seq![b[1]] + x, r)),
                None => None,
            }
        } else if b.len() >= 2 && short_escape(b[1]) is Some {
            match parse_string_body(b.skip(2)) {
                Some((x, r)) => Some((seq![short_escape(b[1])->0] + x, r)),
                None => None,
            }
        } else if b.len() >= 6 && b[1] == 0x75 && b[2] == 0x30 && b[3] == 0x30 && is_hex(b[4])
            && is_hex(b[5]) && hex_value(b[4]) * 16 + hex_value(b[5]) < 0x20 {
            match parse_string_body(b.skip(6)) {
                Some((x, r)) => Some((seq![(hex_value(b[4]) * 16 + hex_value(b[5])) as u8] + x, r)),
                None => None,
            }
        } else {
            None
        }
    } else if b[0] < 0x20 {
        None
    } else {
        match parse_string_body(b.skip(1)) {
            Some((x, r)) => Some((seq![b[0]] + x, r)),
            None => None,
        }
    }
}

pub proof fn lemma_escape_concat(a: Seq<u8>, b: Seq<u8>)
    ensures
        escape_bytes(a + b) == escape_bytes(a) + escape_bytes(b),
    decreases a.len(),
{
    if a.len() == 0 {
        assert(a + b =~= b);
    } else {
        assert((a + b).drop_first() =~= a.drop_first() + b);
        lemma_escape_concat(a.drop_first(), b);
        assert(escape_byte(a[0]) + (escape_bytes(a.drop_first()) + escape_bytes(b)) =~= (
        escape_byte(a[0]) + escape_bytes(a.drop_first())) + escape_bytes(b));
    }
}

proof fn lemma_hex_round_trip(x: u8)
    requires
        x < 0x20,
    ensures
        is_hex(hex_digit(x as int / 16)),
        is_hex(hex_digit(x as int % 16)),
        hex_value(hex_digit(x as int / 16)) * 16 + hex_value(hex_digit(x as int % 16)) == x,
{
}

/// Quoted content reads back as the bytes it was written from.
pub proof fn lemma_string_round_trip(x: Seq<u8>, rest: Seq<u8>)
    ensures
        parse_string_body(escape_bytes(x) + seq![0x22u8] + rest) == Some((x, rest)),
    decreases x.len(),
{
    let s = escape_bytes(x) + seq![0x22u8] + rest;
    if x.len() == 0 {
        assert(s =~= seq![0x22u8] + rest);
        assert(s.skip(1) =~= rest);
    } else {
        let tail = escape_bytes(x.drop_first()) + seq![0x22u8] + rest;
        let e = escape_byte(x[0]);
        assert(s =~= e + tail);
        lemma_string_round_trip(x.drop_first(), rest);
        assert(seq![x[0]] + x.drop_first() =~= x);
        if x[0] == 0x22 || x[0] == 0x5c {
            assert(s.skip(2) =~= tail);
        } else if x[0] < 0x20 {
            lemma_hex_round_trip(x[0]);
            assert(s.skip(6) =~= tail);
            assert(s[4] == hex_digit(x[0] as int / 16));
            assert(s[5] == hex_digit(x[0] as int % 16));
        } else {
            assert(s.skip(1) =~= tail);
        }
    }
}

pub fn write_hex_digit(out: &mut Vec<u8>, d: u8)
    requires
        d < 16,
    ensures
        final(out)@ == old(out)@.push(hex_digit(d as int)),
{
    if d < 10 {
        out.push(0x30 + d);
    } else {
        out.push(0x61 + d - 10);
    }
}

/// Appends `s` escaped for use between quotes.
pub fn write_escaped(out: &mut Vec<u8>, s: &[u8])
    ensures
        final(out)@ == old(out)@ + escape_bytes(s@),
{
    let mut i: usize = 0;
    while i < s.len()
        invariant
            i <= s@.len(),
            out@ == old(out)@ + escape_bytes(s@.take(i as int)),
        decreases s@.len() - i,
    {
        let x = s[i];
        let ghost before = out@;
        if x == 0x22 || x == 0x5c {
            out.push(0x5c);
            out.push(x);
        } else if x < 0x20 {
            out.push(0x5c);
            out.push(0x75);
            out.push(0x30);
            out.push(0x30);
            write_hex_digit(out, x / 16);
            write_hex_digit(out, x % 16);
        } else {
            out.push(x);
        }
        proof {
            assert(out@ =~= before + escape_byte(x));
            lemma_escape_concat(s@.take(i as int), seq![x]);
            assert(escape_bytes(seq![x]) =~= escape_byte(x)) by {
                assert(seq![x].drop_first() =~= Seq::<u8>::empty());
                assert(escape_bytes(Seq::<u8>::empty()) == Seq::<u8>::empty());
                assert(escape_byte(x) + Seq::<u8>::empty() =~= escape_byte(x));
            }
            assert(s@.take(i + 1) =~= s@.take(i as int) + seq![x]);
        }
        i += 1;
    }
    proof {
        assert(s@.take(i as int) =~= s@);
    }
}

pub fn short_escape_byte(x: u8) -> (r: Option<u8>)
    ensures
        r == short_escape(x),
{
    if x == 0x62 {
        Some(0x08)
    } else if x == 0x66 {
        Some(0x0c)
    } else if x == 0x6e {
        Some(0x0a)
    } else if x == 0x72 {
        Some(0x0d)
    } else if x == 0x74 {
        Some(0x09)
    } else if x == 0x2f {
        Some(0x2f)
    } else {
        None
    }
}

pub fn byte_is_hex(x: u8) -> (r: bool)
    ensures
        r == is_hex(x),
{
    (0x30 <= x && x <= 0x39) || (0x61 <= x && x <= 0x66)
}

pub fn byte_hex_value(x: u8) -> (r: u8)
    requires
        is_hex(x),
    ensures
        r as int == hex_value(x),
{
    if x <= 0x39 {
        x - 0x30
    } else {
        x - 0x61 + 10
    }
}

/// What follows `x` after the result of a parse, with `x` put in front of its bytes.
pub open spec fn prepend(o: Option<(Seq<u8>, Seq<u8>)>, x: Seq<u8>) -> Option<(Seq<u8>, Seq<u8>)> {
    match o {
        Some((v, r)) => Some((x + v, r)),
        None => None,
    }
}

/// Reads string content at `pos` up to its closing quote.
pub fn read_string_body(b: &[u8], pos: usize) -> (r: Option<(Vec<u8>, usize)>)
    requires
        pos <= b@.len(),
    ensures
        match r {
            Some((v, p)) => p <= b@.len() && parse_string_body(b@.skip(pos as int)) == Some(
                (v@, b@.skip(p as int)),
            ),
            None => parse_string_body(b@.skip(pos as int)) is None,
        },
{
    let mut out: Vec<u8> = Vec::new();
    let mut i: usize = pos;
    loop
        invariant
            pos <= i <= b@.len(),
            parse_string_body(b@.skip(pos as int)) == prepend(
                parse_string_body(b@.skip(i as int)),
                out@,
            ),
        decreases b@.len() - i,
    {
        let ghost rest = b@.skip(i as int);
        let ghost before = out@;
        if i >= b.len() {
            return None;
        }
        let c = b[i];
        proof {
            assert(rest[0] == c);
        }
        if c == 0x22 {
            proof {
                assert(rest.skip(1) =~= b@.skip(i + 1));
                assert(before + Seq::<u8>::empty() =~= before);
            }
            return Some((out, i + 1));
        } else if c == 0x5c {
            if i + 1 < b.len() && (b[i + 1] == 0x22 || b[i + 1] == 0x5c) {
                let e = b[i + 1];
                out.push(e);
                proof {
                    assert(rest[1] == e);
                    assert(rest.skip(2) =~= b@.skip(i + 2));
                    match parse_string_body(b@.skip(i + 2)) {
                        Some((v, r)) => {
                            assert(before + (seq![e] + v) =~= out@ + v);
                        },
                        None => {},
                    }
                }
                i += 2;
            } else if i + 1 < b.len() && short_escape_byte(b[i + 1]).is_some() {
                let e = match short_escape_byte(b[i + 1]) {
                    Some(x) => x,
                    None => 0,
                };
                out.push(e);
                proof {
                    assert(rest[1] == b@[i + 1]);
                    assert(rest.skip(2) =~= b@.skip(i + 2));
                    match parse_string_body(b@.skip(i + 2)) {
                        Some((v, r)) => {
                            assert(before + (seq![e] + v) =~= out@ + v);
                        },
                        None => {},
                    }
                }
                i += 2;
            } else if b.len() - i > 5 && b[i + 1] == 0x75 && b[i + 2] == 0x30 && b[i + 3] == 0x30
                && byte_is_hex(b[i + 4]) && byte_is_hex(b[i + 5]) && byte_hex_value(b[i + 4]) < 2 {
                let v: u8 = byte_hex_value(b[i + 4]) * 16 + byte_hex_value(b[i + 5]);
                out.push(v);
                proof {
                    assert(rest[1] == b@[i + 1] && rest[2] == b@[i + 2] && rest[3] == b@[i + 3]);
                    assert(rest[4] == b@[i + 4] && rest[5] == b@[i + 5]);
                    assert(rest.skip(6) =~= b@.skip(i + 6));
                    match parse_string_body(b@.skip(i + 6)) {
                        Some((w, r)) => {
                            assert(before + (seq![v] + w) =~= out@ + w);
                        },
                        None => {},
                    }
                }
                i += 6;
            } else {
                proof {
                    if i + 5 < b.len() {
                        assert(rest[1] == b@[i + 1] && rest[2] == b@[i + 2] && rest[3]
                            == b@[i + 3]);
                        assert(rest[4] == b@[i + 4] && rest[5] == b@[i + 5]);
                    }
                    if i + 1 < b.len() {
                        assert(rest[1] == b@[i + 1]);
                    }
                }
                return None;
            }
        } else if c < 0x20 {
            return None;
        } else {
            out.push(c);
            proof {
                assert(rest.skip(1) =~= b@.skip(i + 1));
                match parse_string_body(b@.skip(i + 1)) {
                    Some((w, r)) => {
                        assert(before + (seq![c] + w) =~= out@ + w);
                    },
                    None => {},
                }
            }
            i += 1;
        }
    }
}

/// Bytes below 0x80 are valid UTF-8 on their own.
pub proof fn lemma_ascii_valid(b: Seq<u8>)
    requires
        forall|i: int| 0 <= i < b.len() ==> #[trigger] b[i] < 0x80,
    ensures
        valid_utf8(b),
    decreases b.len(),
{
    if b.len() > 0 {
        let x = b[0];
        assert(leading_bits_width_1(x) < 0x80) by (bit_vector)
            requires
                x < 0x80,
        ;
        assert(valid_first_scalar(b));
        let rest = pop_first_scalar(b);
        assert(rest =~= b.subrange(1, b.len() as int));
        lemma_ascii_valid(rest);
    }
}

/// Escaping keeps UTF-8 valid: only single-byte characters are rewritten, and
/// into bytes below 0x80.
pub proof fn lemma_escape_valid(b: Seq<u8>)
    requires
        valid_utf8(b),
    ensures
        valid_utf8(escape_bytes(b)),
    decreases b.len(),
{
    if b.len() > 0 {
        let n = length_of_first_scalar(b);
        let head = b.subrange(0, n);
        let rest = pop_first_scalar(b);
        assert(b =~= head + rest);
        lemma_escape_concat(head, rest);
        assert(rest.len() < b.len());
        lemma_escape_valid(rest);
        if n == 1 {
            let e = escape_byte(b[0]);
            assert(head =~= seq![b[0]]);
            assert(escape_bytes(head) =~= e) by {
                assert(head.drop_first() =~= Seq::<u8>::empty());
                assert(escape_bytes(Seq::<u8>::empty()) == Seq::<u8>::empty());
                assert(e + Seq::<u8>::empty() =~= e);
            }
            assert forall|i: int| 0 <= i < e.len() implies #[trigger] e[i] < 0x80 by {
                if b[0] < 0x20 && b[0] != 0x22 && b[0] != 0x5c {
                    assert(hex_digit(b[0] as int / 16) < 0x80);
                    assert(hex_digit(b[0] as int % 16) < 0x80);
                }
            }
            lemma_ascii_valid(escape_bytes(head));
        } else {
            assert forall|i: int| 0 <= i < head.len() implies #[trigger] head[i] >= 0x80 by {}
            lemma_escape_identity(head);
            assert(valid_first_scalar(head));
            assert(length_of_first_scalar(head) == n);
            assert(pop_first_scalar(head) =~= Seq::<u8>::empty());
            assert(valid_utf8(Seq::<u8>::empty()));
            assert(valid_utf8(head));
        }
        valid_utf8_concat(escape_bytes(head), escape_bytes(rest));
    }
}

/// Bytes from 0x80 up are written as they are.
proof fn lemma_escape_identity(b: Seq<u8>)
    requires
        forall|i: int| 0 <= i < b.len() ==> #[trigger] b[i] >= 0x80,
    ensures
        escape_bytes(b) == b,
    decreases b.len(),
{
    if b.len() > 0 {
        lemma_escape_identity(b.drop_first());
        assert(seq![b[0]] + b.drop_first() =~= b);
    }
}

} // verus!
