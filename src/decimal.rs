//! Signed decimal numbers, written and read byte by byte.
use vstd::prelude::*;

verus! {

pub open spec fn is_digit(x: u8) -> bool {
    0x30 <= x <= 0x39
}

pub open spec fn pow10(k: nat) -> nat
    decreases k,
{
    if k == 0 {
        1
    } else {
        10 * pow10((k - 1) as nat)
    }
}

/// The decimal digits of `n`, most significant first, without leading zeros.
pub open spec fn decimal_digits(n: nat) -> Seq<u8>
    decreases n,
{
    if n < 10 {
        seq![(0x30 + n) as u8]
    } else {
        decimal_digits(n / 10).push((0x30 + n % 10) as u8)
    }
}

/// `n` written in decimal, with a leading `-` when negative.
pub open spec fn decimal_bytes(n: int) -> Seq<u8> {
    if n < 0 {
        seq![0x2du8] + decimal_digits((-n) as nat)
    } else {
        decimal_digits(n as nat)
    }
}

/// The number that a run of decimal digits stands for.
pub open spec fn digits_value(d: Seq<u8>) -> nat
    decreases d.len(),
{
    if d.len() == 0 {
        0
    } else {
        digits_value(d.drop_last()) * 10 + (d.last() - 0x30) as nat
    }
}

/// The length of the run of decimal digits that `b` starts with.
pub open spec fn digit_run(b: Seq<u8>) -> nat
    decreases b.len(),
{
    if b.len() > 0 && is_digit(b[0]) {
        1 + digit_run(b.drop_first())
    } else {
        0
    }
}

/// A run of one to nineteen digits, and what follows it.
pub open spec fn parse_nat(b: Seq<u8>) -> Option<(nat, Seq<u8>)> {
    let k = digit_run(b);
    if k == 0 || k > 19 {
        None
    } else {
        Some((digits_value(b.take(k as int)), b.skip(k as int)))
    }
}

/// A signed decimal number in the range of `i64`, and what follows it.
pub open spec fn parse_i64(b: Seq<u8>) -> Option<(i64, Seq<u8>)> {
    if b.len() > 0 && b[0] == 0x2d {
        match parse_nat(b.skip(1)) {
            Some((v, r)) => if v <= 9223372036854775808 {
                Some(((-v) as i64, r))
            } else {
                None
            },
            None => None,
        }
    } else {
        match parse_nat(b) {
            Some((v, r)) => if v <= 9223372036854775807 {
                Some((v as i64, r))
            } else {
                None
            },
            None => None,
        }
    }
}

proof fn lemma_pow10_facts(k: nat)
    ensures
        pow10(k) >= 1,
        k <= 19 ==> pow10(k) <= pow10(19),
        pow10(19) == 10000000000000000000nat,
    decreases k,
{
    reveal_with_fuel(pow10, 20);
    if k > 0 {
        lemma_pow10_facts((k - 1) as nat);
    }
    if k <= 19 {
        lemma_pow10_le(k, 19);
    }
}

proof fn lemma_pow10_le(a: nat, b: nat)
    requires
        a <= b,
    ensures
        pow10(a) <= pow10(b),
    decreases b,
{
    if a < b {
        lemma_pow10_le(a, (b - 1) as nat);
        lemma_pow10_pos((b - 1) as nat);
    }
}

proof fn lemma_pow10_pos(k: nat)
    ensures
        pow10(k) >= 1,
    decreases k,
{
    if k > 0 {
        lemma_pow10_pos((k - 1) as nat);
    }
}

proof fn lemma_digits_shape(n: nat, k: nat)
    requires
        1 <= k,
        n < pow10(k),
    ensures
        1 <= decimal_digits(n).len() <= k,
        forall|i: int| 0 <= i < decimal_digits(n).len() ==> is_digit(#[trigger] decimal_digits(n)[i]),
        digits_value(decimal_digits(n)) == n,
    decreases n,
{
    if n >= 10 {
        assert(k >= 2) by {
            if k == 1 {
                assert(pow10(1) == 10) by {
                    reveal_with_fuel(pow10, 2);
                }
            }
        }
        assert(n / 10 < pow10((k - 1) as nat)) by (nonlinear_arith)
            requires
                n < pow10(k),
                pow10(k) == 10 * pow10((k - 1) as nat),
        ;
        lemma_digits_shape(n / 10, (k - 1) as nat);
        let d = decimal_digits(n);
        assert(d.drop_last() =~= decimal_digits(n / 10));
        assert(d.last() == (0x30 + n % 10) as u8);
        assert((d.last() - 0x30) as nat == n % 10);
        assert((n / 10) * 10 + n % 10 == n);
        assert(digits_value(d) == digits_value(d.drop_last()) * 10 + (d.last() - 0x30) as nat);
    } else {
        assert(pow10(0) == 1);
        let d = decimal_digits(n);
        assert(d.drop_last() =~= Seq::<u8>::empty());
        assert(digits_value(d.drop_last()) == 0);
        assert(digits_value(d) == digits_value(d.drop_last()) * 10 + (d.last() - 0x30) as nat);
    }
}

proof fn lemma_digit_run_concat(d: Seq<u8>, rest: Seq<u8>)
    requires
        forall|i: int| 0 <= i < d.len() ==> is_digit(#[trigger] d[i]),
    ensures
        digit_run(d + rest) == d.len() + digit_run(rest),
    decreases d.len(),
{
    if d.len() == 0 {
        assert(d + rest =~= rest);
    } else {
        assert((d + rest).drop_first() =~= d.drop_first() + rest);
        lemma_digit_run_concat(d.drop_first(), rest);
    }
}

/// Decimal text reads back as the number it was written from.
pub proof fn lemma_int_round_trip(n: i64, rest: Seq<u8>)
    requires
        rest.len() == 0 || !is_digit(rest[0]),
    ensures
        parse_i64(decimal_bytes(n as int) + rest) == Some((n, rest)),
{
    lemma_pow10_facts(19);
    let m: nat = if n < 0 {
        (-n) as nat
    } else {
        n as nat
    };
    lemma_digits_shape(m, 19);
    let d = decimal_digits(m);
    lemma_digit_run_concat(d, rest);
    assert(digit_run(rest) == 0);
    assert((d + rest).take(d.len() as int) =~= d);
    assert((d + rest).skip(d.len() as int) =~= rest);
    if n < 0 {
        let b = seq![0x2du8] + d + rest;
        assert(b.skip(1) =~= d + rest);
    } else {
        assert(decimal_bytes(n as int) + rest =~= d + rest);
        assert(is_digit(d[0]));
    }
}

/// Appends `n` in decimal.
pub fn write_digits(out: &mut Vec<u8>, n: u64)
    ensures
        final(out)@ == old(out)@ + decimal_digits(n as nat),
    decreases n,
{
    if n >= 10 {
        write_digits(out, n / 10);
    }
    let d: u8 = (n % 10) as u8;
    out.push(0x30 + d);
    proof {
        if n >= 10 {
            assert(old(out)@ + decimal_digits(n as nat) =~= old(out)@ + decimal_digits((n / 10) as nat) + seq![(0x30 + d) as u8]);
        } else {
            assert(final(out)@ =~= old(out)@ + decimal_digits(n as nat));
        }
    }
}

/// Appends `n` in decimal, with a leading `-` when negative.
pub fn write_decimal(out: &mut Vec<u8>, n: i64)
    ensures
        final(out)@ == old(out)@ + decimal_bytes(n as int),
{
    if n < 0 {
        out.push(0x2d);
        let m: u64 = (0 - (n as i128)) as u64;
        let ghost mid = out@;
        write_digits(out, m);
        proof {
            assert(final(out)@ =~= old(out)@ + decimal_bytes(n as int));
        }
    } else {
        write_digits(out, n as u64);
    }
}

/// Reads a run of one to nineteen digits at `pos`.
pub fn read_nat(b: &[u8], pos: usize) -> (r: Option<(u64, usize)>)
    requires
        pos <= b@.len(),
    ensures
        match r {
            Some((v, p)) => pos <= p <= b@.len() && parse_nat(b@.skip(pos as int)) == Some(
                (v as nat, b@.skip(p as int)),
            ),
            None => parse_nat(b@.skip(pos as int)) is None,
        },
{
    let mut i: usize = pos;
    let mut acc: u64 = 0;
    proof {
        lemma_pow10_facts(0);
    }
    while i < b.len() && b[i] >= 0x30 && b[i] <= 0x39
        invariant
            pos <= i <= b@.len(),
            i - pos <= 19,
            forall|j: int| pos <= j < i ==> is_digit(#[trigger] b@[j]),
            acc as nat == digits_value(b@.subrange(pos as int, i as int)),
            acc < pow10((i - pos) as nat),
        decreases b@.len() - i,
    {
        if i - pos == 19 {
            proof {
                let d = b@.subrange(pos as int, i as int + 1);
                assert forall|j: int| 0 <= j < d.len() implies is_digit(#[trigger] d[j]) by {
                    assert(d[j] == b@[pos + j]);
                }
                lemma_digit_run_concat(d, b@.skip(i as int + 1));
                assert(b@.skip(pos as int) =~= d + b@.skip(i as int + 1));
            }
            return None;
        }
        proof {
            lemma_pow10_facts((i - pos) as nat);
            lemma_pow10_facts((i - pos + 1) as nat);
            let k = (i - pos) as nat;
            assert(acc * 10 + 9 < pow10(k + 1)) by (nonlinear_arith)
                requires
                    acc < pow10(k),
                    pow10(k + 1) == 10 * pow10(k),
            ;
            assert(b@.subrange(pos as int, i as int + 1).drop_last() =~= b@.subrange(
                pos as int,
                i as int,
            ));
        }
        acc = acc * 10 + (b[i] - 0x30) as u64;
        i += 1;
    }
    let ghost d = b@.subrange(pos as int, i as int);
    proof {
        assert forall|j: int| 0 <= j < d.len() implies is_digit(#[trigger] d[j]) by {
            assert(d[j] == b@[pos + j]);
        }
        lemma_digit_run_concat(d, b@.skip(i as int));
        assert(b@.skip(pos as int) =~= d + b@.skip(i as int));
        assert(digit_run(b@.skip(i as int)) == 0);
        assert((d + b@.skip(i as int)).take(d.len() as int) =~= d);
        assert((d + b@.skip(i as int)).skip(d.len() as int) =~= b@.skip(i as int));
    }
    if i == pos {
        None
    } else {
        Some((acc, i))
    }
}

/// Reads a signed decimal `i64` at `pos`.
pub fn read_i64(b: &[u8], pos: usize) -> (r: Option<(i64, usize)>)
    requires
        pos <= b@.len(),
    ensures
        match r {
            Some((v, p)) => pos <= p <= b@.len() && parse_i64(b@.skip(pos as int)) == Some(
                (v, b@.skip(p as int)),
            ),
            None => parse_i64(b@.skip(pos as int)) is None,
        },
{
    if pos < b.len() && b[pos] == 0x2d {
        proof {
            assert(b@.skip(pos as int).skip(1) =~= b@.skip(pos + 1));
        }
        match read_nat(b, pos + 1) {
            Some((v, p)) => {
                if v <= 9223372036854775808u64 {
                    Some(((0 - (v as i128)) as i64, p))
                } else {
                    None
                }
            },
            None => None,
        }
    } else {
        match read_nat(b, pos) {
            Some((v, p)) => {
                if v <= 9223372036854775807u64 {
                    Some((v as i64, p))
                } else {
                    None
                }
            },
            None => None,
        }
    }
}

/// Decimal text is plain ASCII.
pub proof fn lemma_decimal_ascii(n: i64)
    ensures
        forall|i: int| 0 <= i < decimal_bytes(n as int).len() ==> #[trigger] decimal_bytes(n as int)[i] < 0x80,
{
    lemma_pow10_facts(19);
    let m: nat = if n < 0 {
        (-n) as nat
    } else {
        n as nat
    };
    lemma_digits_shape(m, 19);
    let d = decimal_digits(m);
    if n < 0 {
        assert forall|i: int| 0 <= i < decimal_bytes(n as int).len() implies #[trigger] decimal_bytes(n as int)[i] < 0x80 by {
            if i > 0 {
                assert(decimal_bytes(n as int)[i] == d[i - 1]);
                assert(is_digit(d[i - 1]));
            }
        }
    } else {
        assert forall|i: int| 0 <= i < decimal_bytes(n as int).len() implies #[trigger] decimal_bytes(n as int)[i] < 0x80 by {
            assert(is_digit(d[i]));
        }
    }
}

} // verus!
