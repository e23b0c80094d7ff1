//! Canonical decimal notation for the `timestamp` field of a frame: the
//! digits a `u64` is written with, and the parser that reads exactly that
//! notation back (no sign, no leading zero, no value above `u64::MAX`).

use vstd::prelude::*;

verus! {

/// `c` is one of the ten decimal digit characters.
pub open spec fn is_digit(c: char) -> bool {
    48 <= c as u32 <= 57
}

/// The digit character for `d` (`0 <= d <= 9`).
pub open spec fn digit_char(d: int) -> char {
    ((48 + d) as u8) as char
}

/// The numeric value of a digit character.
pub open spec fn digit_val(c: char) -> int {
    c as u32 - 48
}

/// The decimal digits of `n`, most significant first, with no leading zero
/// (and the single digit `0` for zero).
pub open spec fn dec_of(n: nat) -> Seq<char>
    decreases n,
{
    if n < 10 {
        seq![digit_char(n as int)]
    } else {
        dec_of(n / 10) + seq![digit_char((n % 10) as int)]
    }
}

/// Left-to-right digit accumulation: reads digits off the front of `s` into
/// `acc`, failing if the value would leave `u64`, and stops at the first
/// non-digit (which stays in the remainder).
pub open spec fn parse_dec_loop(s: Seq<char>, acc: u64) -> Option<(u64, Seq<char>)>
    decreases s.len(),
{
    if s.len() > 0 && is_digit(s[0]) {
        let v = acc * 10 + digit_val(s[0]);
        if v > u64::MAX {
            None
        } else {
            parse_dec_loop(s.drop_first(), v as u64)
        }
    } else {
        Some((acc, s))
    }
}

/// Reads a canonical decimal number off the front of `s`: at least one
/// digit, no leading zero, value within `u64`. Returns the value and the
/// remainder of `s`.
pub open spec fn parse_dec(s: Seq<char>) -> Option<(u64, Seq<char>)> {
    if s.len() == 0 || !is_digit(s[0]) {
        None
    } else if s[0] == '0' {
        if s.len() >= 2 && is_digit(s[1]) {
            None
        } else {
            Some((0u64, s.drop_first()))
        }
    } else {
        parse_dec_loop(s, 0)
    }
}

pub open spec fn pow10(k: nat) -> int
    decreases k,
{
    if k == 0 {
        1
    } else {
        10 * pow10((k - 1) as nat)
    }
}

/// Every character of `dec_of(n)` is a digit, and the first is `0` only for
/// `n == 0`.
pub proof fn lemma_dec_of_shape(n: nat)
    ensures
        dec_of(n).len() >= 1,
        forall|i: int| 0 <= i < dec_of(n).len() ==> is_digit(#[trigger] dec_of(n)[i]),
        n >= 1 ==> dec_of(n)[0] != '0',
    decreases n,
{
    if n < 10 {
        assert(dec_of(n) =~= seq![digit_char(n as int)]);
        assert(is_digit(digit_char(n as int)));
        assert(n >= 1 ==> digit_char(n as int) != '0');
    } else {
        lemma_dec_of_shape(n / 10);
        let head = dec_of(n / 10);
        assert(dec_of(n) =~= head + seq![digit_char((n % 10) as int)]);
        assert(dec_of(n)[0] == head[0]);
        assert(forall|i: int| 0 <= i < dec_of(n).len() ==> #[trigger] dec_of(n)[i] == if i
            < head.len() {
            head[i]
        } else {
            digit_char((n % 10) as int)
        });
        assert(is_digit(digit_char((n % 10) as int)));
    }
}

/// The accumulator form of the parse of `dec_of(m)` followed by anything:
/// the digits of `m` fold into the accumulator exactly, or overflow fails.
pub proof fn lemma_parse_dec_loop_append(m: u64, rest: Seq<char>, acc: u64)
    ensures
        ({
            let full = acc * pow10(dec_of(m as nat).len() as nat) + m;
            parse_dec_loop(dec_of(m as nat) + rest, acc) == if full <= u64::MAX {
                parse_dec_loop(rest, full as u64)
            } else {
                None::<(u64, Seq<char>)>
            }
        }),
    decreases m,
{
    let s = dec_of(m as nat) + rest;
    if m < 10 {
        assert(dec_of(m as nat) =~= seq![digit_char(m as int)]);
        assert(s[0] == digit_char(m as int));
        assert(is_digit(s[0]));
        assert(digit_val(s[0]) == m as int);
        assert(pow10(0) == 1);
        assert(pow10(1) == 10);
        assert(s.drop_first() =~= rest);
        let v = acc * 10 + m;
        if v <= u64::MAX {
            assert(parse_dec_loop(s, acc) == parse_dec_loop(rest, v as u64));
        }
    } else {
        let q = (m / 10) as u64;
        let d = (m % 10) as int;
        let head = dec_of(q as nat);
        let k1 = head.len() as nat;
        assert(dec_of(m as nat) =~= head + seq![digit_char(d)]);
        let mid = seq![digit_char(d)] + rest;
        assert(s =~= head + mid);
        lemma_parse_dec_loop_append(q, mid, acc);
        let full1 = acc * pow10(k1) + q;
        assert(dec_of(m as nat).len() == k1 + 1);
        assert(pow10(k1 + 1) == 10 * pow10(k1));
        let full = acc * pow10(k1 + 1) + m;
        assert(full == full1 * 10 + d) by (nonlinear_arith)
            requires
                full == acc * (10 * pow10(k1)) + m,
                full1 == acc * pow10(k1) + q,
                q == m / 10,
                d == m % 10,
                m >= 10,
        ;
        lemma_dec_of_shape(q as nat);
        assert(pow10(k1) >= 1) by {
            lemma_pow10_pos(k1);
        }
        if full1 > u64::MAX {
            assert(full > u64::MAX) by (nonlinear_arith)
                requires
                    full == full1 * 10 + d,
                    full1 > u64::MAX,
                    d >= 0,
            ;
            assert(parse_dec_loop(s, acc) == None::<(u64, Seq<char>)>);
        } else {
            assert(parse_dec_loop(s, acc) == parse_dec_loop(mid, full1 as u64));
            // one more digit folds in
            assert(mid[0] == digit_char(d));
            assert(is_digit(mid[0]) && digit_val(mid[0]) == d);
            assert(mid.drop_first() =~= rest);
            let v = full1 * 10 + d;
            assert(v == full);
            if full <= u64::MAX {
                assert(parse_dec_loop(mid, full1 as u64) == parse_dec_loop(rest, full as u64));
            } else {
                assert(parse_dec_loop(mid, full1 as u64) == None::<(u64, Seq<char>)>);
            }
        }
    }
}

pub proof fn lemma_pow10_pos(k: nat)
    ensures
        pow10(k) >= 1,
    decreases k,
{
    if k > 0 {
        lemma_pow10_pos((k - 1) as nat);
    }
}

/// Round trip: the canonical digits of `n`, followed by anything that does
/// not begin with a digit, parse back to exactly `n`.
pub proof fn lemma_parse_dec_of(n: u64, rest: Seq<char>)
    requires
        rest.len() == 0 || !is_digit(rest[0]),
    ensures
        parse_dec(dec_of(n as nat) + rest) == Some((n, rest)),
{
    let s = dec_of(n as nat) + rest;
    lemma_dec_of_shape(n as nat);
    assert(s[0] == dec_of(n as nat)[0]);
    assert(is_digit(s[0]));
    if n == 0 {
        assert(dec_of(0) =~= seq![digit_char(0)]);
        assert(s[0] == '0');
        assert(s.len() >= 2 ==> s[1] == rest[0]);
        assert(s.drop_first() =~= rest);
    } else {
        assert(s[0] != '0');
        lemma_parse_dec_loop_append(n, rest, 0);
        assert(0 * pow10(dec_of(n as nat).len() as nat) == 0) by (nonlinear_arith);
        assert(parse_dec_loop(s, 0) == parse_dec_loop(rest, n));
        assert(parse_dec_loop(rest, n) == Some((n, rest)));
    }
}

/// A digit character is read back from its value.
pub proof fn lemma_digit_char_inv(c: char)
    requires
        is_digit(c),
    ensures
        digit_char(digit_val(c)) == c,
{
    crate::chars::lemma_char_eq_by_code(digit_char(digit_val(c)), c);
}

/// The value of a digit string, most significant first.
pub open spec fn dec_val(d: Seq<char>) -> int
    decreases d.len(),
{
    if d.len() == 0 {
        0
    } else {
        dec_val(d.drop_last()) * 10 + digit_val(d.last())
    }
}

/// Prepending a digit adds it at the highest place.
pub proof fn lemma_dec_val_cons(c: char, d: Seq<char>)
    ensures
        dec_val(seq![c] + d) == digit_val(c) * pow10(d.len()) + dec_val(d),
    decreases d.len(),
{
    let w = seq![c] + d;
    if d.len() == 0 {
        assert(w =~= seq![c]);
        assert(w.drop_last() =~= Seq::<char>::empty());
        assert(dec_val(Seq::<char>::empty()) == 0);
        assert(w.last() == c);
        assert(dec_val(w) == digit_val(c));
        assert(pow10(0) == 1);
    } else {
        assert(w.drop_last() =~= seq![c] + d.drop_last());
        assert(w.last() == d.last());
        lemma_dec_val_cons(c, d.drop_last());
        let k = d.drop_last().len() as nat;
        assert(pow10(k + 1) == 10 * pow10(k));
        assert((digit_val(c) * pow10(k) + dec_val(d.drop_last())) * 10 + digit_val(d.last())
            == digit_val(c) * (10 * pow10(k)) + (dec_val(d.drop_last()) * 10 + digit_val(
            d.last(),
        ))) by (nonlinear_arith);
    }
}

/// A digit string's value is non-negative, and at least `pow10(len - 1)`
/// when its first digit is not `0`.
pub proof fn lemma_dec_val_bounds(d: Seq<char>)
    requires
        forall|i: int| 0 <= i < d.len() ==> is_digit(#[trigger] d[i]),
    ensures
        dec_val(d) >= 0,
        d.len() >= 1 && d[0] != '0' ==> dec_val(d) >= pow10((d.len() - 1) as nat),
    decreases d.len(),
{
    if d.len() == 0 {
    } else {
        let d0 = d.drop_last();
        assert(forall|i: int| 0 <= i < d0.len() ==> is_digit(#[trigger] d0[i])) by {
            assert(forall|i: int| 0 <= i < d0.len() ==> d0[i] == d[i]);
        }
        lemma_dec_val_bounds(d0);
        assert(digit_val(d.last()) >= 0);
        assert(dec_val(d0) * 10 >= 0) by (nonlinear_arith)
            requires
                dec_val(d0) >= 0,
        ;
        if d.len() >= 1 && d[0] != '0' {
            if d.len() == 1 {
                assert(d.last() == d[0]);
                assert(digit_val(d[0]) >= 1) by {
                    if digit_val(d[0]) == 0 {
                        lemma_digit_char_inv(d[0]);
                        assert(digit_char(0) == '0');
                    }
                }
                assert(d0.len() == 0);
                assert(pow10(0) == 1);
            } else {
                assert(d0[0] == d[0]);
                assert(dec_val(d0) >= pow10((d0.len() - 1) as nat));
                assert(dec_val(d0) * 10 >= pow10((d0.len() - 1) as nat) * 10) by (nonlinear_arith)
                    requires
                        dec_val(d0) >= pow10((d0.len() - 1) as nat),
                ;
                assert(pow10((d.len() - 1) as nat) == 10 * pow10((d.len() - 2) as nat));
            }
        }
    }
}

/// Uniqueness of the canonical notation: a digit string without a leading
/// zero is `dec_of` of its own value.
pub proof fn lemma_dec_of_val(d: Seq<char>)
    requires
        d.len() >= 1,
        forall|i: int| 0 <= i < d.len() ==> is_digit(#[trigger] d[i]),
        d[0] != '0' || d.len() == 1,
    ensures
        dec_of(dec_val(d) as nat) == d,
    decreases d.len(),
{
    lemma_dec_val_bounds(d);
    if d.len() == 1 {
        assert(d.drop_last() =~= Seq::<char>::empty());
        assert(dec_val(Seq::<char>::empty()) == 0);
        assert(d.last() == d[0]);
        assert(dec_val(d) == digit_val(d[0]));
        assert(0 <= digit_val(d[0]) <= 9);
        lemma_digit_char_inv(d[0]);
        assert(dec_of(dec_val(d) as nat) =~= seq![digit_char(digit_val(d[0]))]);
        assert(dec_of(dec_val(d) as nat) =~= d);
    } else {
        let d0 = d.drop_last();
        let v = digit_val(d.last());
        let n = dec_val(d);
        assert(forall|i: int| 0 <= i < d0.len() ==> is_digit(#[trigger] d0[i])) by {
            assert(forall|i: int| 0 <= i < d0.len() ==> d0[i] == d[i]);
        }
        lemma_dec_val_bounds(d0);
        assert(d0[0] == d[0] && d0[0] != '0');
        assert(dec_val(d0) >= pow10((d0.len() - 1) as nat));
        lemma_pow10_pos((d0.len() - 1) as nat);
        assert(n == dec_val(d0) * 10 + v);
        assert(n >= 10) by (nonlinear_arith)
            requires
                n == dec_val(d0) * 10 + v,
                dec_val(d0) >= 1,
                v >= 0,
        ;
        assert(n / 10 == dec_val(d0) && n % 10 == v) by (nonlinear_arith)
            requires
                n == dec_val(d0) * 10 + v,
                0 <= v < 10,
                dec_val(d0) >= 0,
        ;
        lemma_dec_of_val(d0);
        assert(dec_of(n as nat) == dec_of((n as nat) / 10) + seq![digit_char(((n as nat) % 10) as int)]);
        lemma_digit_char_inv(d.last());
        assert(dec_of(n as nat) =~= d0.push(d.last()));
        assert(d0.push(d.last()) =~= d);
    }
}

/// Soundness of the number parser: whatever it accepts off the front of
/// `s` is the canonical notation of the value it returns, and it stops
/// only at a non-digit.
pub proof fn lemma_parse_dec_loop_sound(s: Seq<char>, acc: u64, n: u64, r: Seq<char>)
    requires
        parse_dec_loop(s, acc) == Some((n, r)),
    ensures
        r.len() <= s.len(),
        s.skip((s.len() - r.len()) as int) == r,
        forall|i: int| 0 <= i < s.len() - r.len() ==> is_digit(#[trigger] s[i]),
        n == acc * pow10((s.len() - r.len()) as nat) + dec_val(s.take((s.len() - r.len()) as int)),
        r.len() == 0 || !is_digit(r[0]),
    decreases s.len(),
{
    if s.len() > 0 && is_digit(s[0]) {
        let v = (acc * 10 + digit_val(s[0])) as u64;
        lemma_parse_dec_loop_sound(s.drop_first(), v, n, r);
        let s1 = s.drop_first();
        let k1 = (s1.len() - r.len()) as nat;
        let d1 = s1.take(k1 as int);
        let d = s.take((s.len() - r.len()) as int);
        assert(d =~= seq![s[0]] + d1);
        assert(s.skip((s.len() - r.len()) as int) =~= s1.skip(k1 as int));
        lemma_dec_val_cons(s[0], d1);
        assert(d1.len() == k1);
        assert(n == v * pow10(k1) + dec_val(d1));
        assert((acc * 10 + digit_val(s[0])) * pow10(k1) + dec_val(d1) == acc * (10 * pow10(k1))
            + (digit_val(s[0]) * pow10(k1) + dec_val(d1))) by (nonlinear_arith);
        assert(pow10(k1 + 1) == 10 * pow10(k1));
        assert(forall|i: int| 0 <= i < s.len() - r.len() ==> is_digit(#[trigger] s[i])) by {
            assert(forall|i: int| 1 <= i < s.len() - r.len() ==> s[i] == s1[i - 1]);
        }
    } else {
        assert(r == s);
        assert(s.take(0) =~= Seq::<char>::empty());
        assert(pow10(0) == 1);
        assert(s.skip(0) =~= s);
    }
}

/// Soundness of [`parse_dec`]: whatever it accepts is the canonical
/// decimal notation of the value it returns, followed by a remainder that
/// does not begin with a digit.
pub proof fn lemma_parse_dec_sound(s: Seq<char>, n: u64, r: Seq<char>)
    requires
        parse_dec(s) == Some((n, r)),
    ensures
        s == dec_of(n as nat) + r,
        r.len() == 0 || !is_digit(r[0]),
{
    if s[0] == '0' {
        assert(n == 0 && r == s.drop_first());
        assert(dec_of(0) =~= seq![digit_char(0)]);
        assert(digit_char(0) == '0');
        assert(s =~= dec_of(0) + r);
    } else {
        lemma_parse_dec_loop_sound(s, 0, n, r);
        let k = (s.len() - r.len()) as int;
        let d = s.take(k);
        assert(0 * pow10(k as nat) == 0) by (nonlinear_arith);
        assert(n == dec_val(d));
        assert(k >= 1) by {
            if k == 0 {
                assert(r == s.skip(0) && s.skip(0) =~= s);
                assert(is_digit(r[0]));
            }
        }
        assert(d[0] == s[0] && d[0] != '0');
        assert(forall|i: int| 0 <= i < d.len() ==> is_digit(#[trigger] d[i]));
        lemma_dec_val_bounds(d);
        lemma_dec_of_val(d);
        assert(s =~= d + s.skip(k));
        assert(s == dec_of(n as nat) + r);
    }
}

/// Appends the canonical decimal digits of `n` to `out`.
pub fn push_dec(out: &mut Vec<char>, n: u64)
    ensures
        final(out)@ == old(out)@ + dec_of(n as nat),
    decreases n,
{
    if n < 10 {
        let c = ((48 + n as u8) as u8) as char;
        assert(c == digit_char(n as int));
        out.push(c);
        assert(out@ =~= old(out)@ + dec_of(n as nat));
    } else {
        push_dec(out, n / 10);
        let c = ((48 + (n % 10) as u8) as u8) as char;
        assert(c == digit_char((n % 10) as int));
        out.push(c);
        assert(out@ =~= old(out)@ + dec_of(n as nat));
    }
}

/// Reads a canonical decimal number from `s` at position `i`, per
/// [`parse_dec`]; returns the value and the position just past the digits.
pub fn parse_dec_exec(s: &[char], i: usize) -> (r: Option<(u64, usize)>)
    requires
        i <= s@.len(),
    ensures
        match r {
            Some(p) => {
                i <= p.1 <= s@.len() && parse_dec(s@.skip(i as int)) == Some(
                    (p.0, s@.skip(p.1 as int)),
                )
            },
            None => parse_dec(s@.skip(i as int)) == None::<(u64, Seq<char>)>,
        },
{
    if i >= s.len() {
        assert(s@.skip(i as int).len() == 0);
        return None;
    }
    let x0 = s[i] as u32;
    assert(s@.skip(i as int)[0] == s@[i as int]);
    if x0 < 48 || x0 > 57 {
        return None;
    }
    if x0 == 48 {
        proof {
            crate::chars::lemma_char_eq_by_code(s@[i as int], '0');
        }
        if i + 1 < s.len() {
            let x1 = s[i + 1] as u32;
            assert(s@.skip(i as int)[1] == s@[i + 1]);
            if 48 <= x1 && x1 <= 57 {
                return None;
            }
        }
        assert(s@.skip(i as int).drop_first() =~= s@.skip(i + 1));
        return Some((0, i + 1));
    }
    let ghost s0 = s@.skip(i as int);
    let mut acc: u64 = 0;
    let mut j: usize = i;
    assert(parse_dec(s0) == parse_dec_loop(s0, 0));
    loop
        invariant
            i <= j <= s@.len(),
            parse_dec_loop(s@.skip(i as int), 0u64) == parse_dec_loop(s@.skip(j as int), acc),
            parse_dec(s@.skip(i as int)) == parse_dec_loop(s@.skip(i as int), 0u64),
        decreases s@.len() - j,
    {
        let ghost sj = s@.skip(j as int);
        if j >= s.len() {
            assert(sj.len() == 0);
            assert(parse_dec_loop(sj, acc) == Some((acc, sj)));
            return Some((acc, j));
        }
        let x = s[j] as u32;
        assert(sj[0] == s@[j as int]);
        if x < 48 || x > 57 {
            assert(!is_digit(sj[0]));
            assert(parse_dec_loop(sj, acc) == Some((acc, sj)));
            return Some((acc, j));
        }
        assert(is_digit(sj[0]));
        let d = (x - 48) as u64;
        assert(digit_val(sj[0]) == d as int);
        let step = match acc.checked_mul(10) {
            Some(t) => t.checked_add(d),
            None => None,
        };
        match step {
            Some(v) => {
                assert(v == acc * 10 + digit_val(sj[0]));
                assert(sj.drop_first() =~= s@.skip(j + 1));
                assert(parse_dec_loop(sj, acc) == parse_dec_loop(s@.skip(j + 1), v));
                acc = v;
                j = j + 1;
            },
            None => {
                assert(acc * 10 + digit_val(sj[0]) > u64::MAX);
                assert(parse_dec_loop(sj, acc) == None::<(u64, Seq<char>)>);
                return None;
            },
        }
    }
}

} // verus!
