//! Canonical notation for a string inside a frame: the escapes a string
//! field is written with (`\"`, `\\`, `\n`, `\r`, `\t`, and `\u00..` for the
//! remaining control characters), and the parser that reads exactly that
//! notation back.

use vstd::prelude::*;
use crate::chars::lemma_char_eq_by_code;

verus! {

/// `c` may stand for itself inside a quoted string.
pub open spec fn is_raw(c: char) -> bool {
    c as u32 >= 32 && c != '"' && c != '\\'
}

/// The lower-case hex digit character for `d` (`0 <= d < 16`).
pub open spec fn hex_char(d: int) -> char {
    if d < 10 {
        ((48 + d) as u8) as char
    } else {
        ((87 + d) as u8) as char
    }
}

/// `c` is a lower-case hex digit character.
pub open spec fn is_hex(c: char) -> bool {
    (48 <= c as u32 <= 57) || (97 <= c as u32 <= 102)
}

/// The numeric value of a lower-case hex digit character.
pub open spec fn hex_val(c: char) -> int {
    if c as u32 <= 57 {
        c as u32 - 48
    } else {
        c as u32 - 87
    }
}

pub proof fn lemma_hex_char(d: int)
    requires
        0 <= d < 16,
    ensures
        is_hex(hex_char(d)),
        hex_val(hex_char(d)) == d,
{
}

/// The character with the low byte of code point `x`.
pub open spec fn code_char(x: u32) -> char {
    ((x as u8) as char)
}

/// A character below code 128 comes back unchanged from its code point.
pub proof fn lemma_small_code_char(c: char)
    requires
        (c as u32) < 128,
    ensures
        code_char(c as u32) == c,
{
    lemma_char_eq_by_code(code_char(c as u32), c);
}

/// The single escaped character `e` after a backslash stands for.
pub open spec fn unescape1(e: char) -> char {
    if e == 'n' {
        '\n'
    } else if e == 'r' {
        '\r'
    } else if e == 't' {
        '\t'
    } else {
        e
    }
}

/// How one character is written inside a quoted string.
pub open spec fn escape_char(c: char) -> Seq<char> {
    if c == '"' {
        seq!['\\', '"']
    } else if c == '\\' {
        seq!['\\', '\\']
    } else if c == '\n' {
        seq!['\\', 'n']
    } else if c == '\r' {
        seq!['\\', 'r']
    } else if c == '\t' {
        seq!['\\', 't']
    } else if (c as u32) < 32 {
        seq!['\\', 'u', '0', '0', hex_char((c as u32 / 16) as int), hex_char((c as u32 % 16) as int)]
    } else {
        seq![c]
    }
}

/// How a whole string is written inside its quotes.
pub open spec fn escape_seq(s: Seq<char>) -> Seq<char>
    decreases s.len(),
{
    if s.len() == 0 {
        Seq::empty()
    } else {
        escape_char(s[0]) + escape_seq(s.drop_first())
    }
}

/// Reads a quoted string's body off the front of `s` (everything after the
/// opening quote), undoing the canonical escapes, up to and including the
/// closing quote. Returns the string and the remainder of `s`.
pub open spec fn parse_jstr(s: Seq<char>) -> Option<(Seq<char>, Seq<char>)>
    decreases s.len(),
{
    if s.len() == 0 {
        None
    } else if s[0] == '"' {
        Some((Seq::empty(), s.drop_first()))
    } else if s[0] == '\\' {
        if s.len() >= 2 && (s[1] == '"' || s[1] == '\\' || s[1] == 'n' || s[1] == 'r' || s[1]
            == 't') {
            match parse_jstr(s.skip(2)) {
                Some(p) => Some((seq![unescape1(s[1])] + p.0, p.1)),
                None => None,
            }
        } else if s.len() >= 6 && s[1] == 'u' && s[2] == '0' && s[3] == '0' && is_hex(s[4])
            && is_hex(s[5]) && ({
            let v = 16 * hex_val(s[4]) + hex_val(s[5]);
            v < 32 && v != 9 && v != 10 && v != 13
        }) {
            match parse_jstr(s.skip(6)) {
                Some(p) => Some(
                    (seq![(((16 * hex_val(s[4]) + hex_val(s[5])) as u8) as char)] + p.0, p.1),
                ),
                None => None,
            }
        } else {
            None
        }
    } else if is_raw(s[0]) {
        match parse_jstr(s.drop_first()) {
            Some(p) => Some((seq![s[0]] + p.0, p.1)),
            None => None,
        }
    } else {
        None
    }
}

/// Escaping a string one character longer appends that character's escape.
pub proof fn lemma_escape_seq_snoc(p: Seq<char>, c: char)
    ensures
        escape_seq(p.push(c)) == escape_seq(p) + escape_char(c),
    decreases p.len(),
{
    if p.len() == 0 {
        assert(escape_seq(Seq::<char>::empty()) == Seq::<char>::empty());
        assert(p =~= Seq::<char>::empty());
        assert(p.push(c)[0] == c);
        assert(p.push(c).drop_first() =~= Seq::<char>::empty());
        assert(escape_seq(p.push(c)) == escape_char(c) + escape_seq(p.push(c).drop_first()));
        assert(escape_char(c) + Seq::<char>::empty() =~= escape_char(c));
        assert(Seq::<char>::empty() + escape_char(c) =~= escape_char(c));
    } else {
        lemma_escape_seq_snoc(p.drop_first(), c);
        assert(p.push(c)[0] == p[0]);
        assert(p.push(c).drop_first() =~= p.drop_first().push(c));
        assert(escape_seq(p.push(c)) == escape_char(p[0]) + escape_seq(p.drop_first().push(c)));
        assert(escape_char(p[0]) + (escape_seq(p.drop_first()) + escape_char(c)) =~= (escape_char(
            p[0],
        ) + escape_seq(p.drop_first())) + escape_char(c));
    }
}

/// A string of characters that need no escape is written as itself.
pub proof fn lemma_escape_plain(s: Seq<char>)
    requires
        forall|i: int| 0 <= i < s.len() ==> is_raw(#[trigger] s[i]),
    ensures
        escape_seq(s) == s,
    decreases s.len(),
{
    if s.len() == 0 {
        assert(escape_seq(s) =~= s);
    } else {
        assert(is_raw(s[0]));
        assert(s[0] as u32 >= 32);
        assert(escape_char(s[0]) =~= seq![s[0]]);
        lemma_escape_plain(s.drop_first());
        assert(escape_seq(s) =~= s);
    }
}

/// Round trip: the canonical spelling of `t`, followed by the closing quote
/// and anything at all, parses back to exactly `t`.
pub proof fn lemma_parse_escape_seq(t: Seq<char>, rest: Seq<char>)
    ensures
        parse_jstr(escape_seq(t) + seq!['"'] + rest) == Some((t, rest)),
    decreases t.len(),
{
    let s = escape_seq(t) + seq!['"'] + rest;
    if t.len() == 0 {
        assert(s =~= seq!['"'] + rest);
        assert(s[0] == '"');
        assert(s.drop_first() =~= rest);
        assert(t =~= Seq::<char>::empty());
    } else {
        let c = t[0];
        let t1 = t.drop_first();
        let tail = escape_seq(t1) + seq!['"'] + rest;
        assert(s =~= escape_char(c) + tail);
        lemma_parse_escape_seq(t1, rest);
        if c == '"' || c == '\\' || c == '\n' || c == '\r' || c == '\t' {
            assert(s[0] == escape_char(c)[0] && s[1] == escape_char(c)[1]);
            assert(s[0] == '\\');
            assert(s.len() >= 2);
            assert(s.skip(2) =~= tail);
            if c == '"' {
                assert(unescape1(s[1]) == c);
            } else if c == '\\' {
                assert(unescape1(s[1]) == c);
            } else if c == '\n' {
                assert(unescape1(s[1]) == c);
            } else if c == '\r' {
                assert(unescape1(s[1]) == c);
            } else {
                assert(unescape1(s[1]) == c);
            }
            assert(seq![c] + t1 =~= t);
        } else if (c as u32) < 32 {
            let hi = c as u32 / 16;
            let lo = c as u32 % 16;
            assert(escape_char(c) =~= seq!['\\', 'u', '0', '0', hex_char(hi as int), hex_char(
                lo as int,
            )]);
            assert(s.len() >= 6);
            assert(s[0] == '\\' && s[1] == 'u' && s[2] == '0' && s[3] == '0');
            assert(s[4] == hex_char(hi as int) && s[5] == hex_char(lo as int));
            lemma_hex_char(hi as int);
            lemma_hex_char(lo as int);
            let v = 16 * hex_val(s[4]) + hex_val(s[5]);
            assert(v == c as u32);
            assert(v != 9 && v != 10 && v != 13) by {
                if c as u32 == 9 {
                    lemma_char_eq_by_code(c, '\t');
                }
                if c as u32 == 10 {
                    lemma_char_eq_by_code(c, '\n');
                }
                if c as u32 == 13 {
                    lemma_char_eq_by_code(c, '\r');
                }
            }
            assert(s[1] != '"');
            assert(s.skip(6) =~= tail);
            assert(((v as u8) as char) == c) by {
                lemma_small_code_char(c);
            }
            assert(seq![c] + t1 =~= t);
        } else {
            assert(is_raw(c));
            assert(escape_char(c) =~= seq![c]);
            assert(s[0] == c);
            assert(s[0] != '"' && s[0] != '\\');
            assert(s.drop_first() =~= tail);
            assert(seq![c] + t1 =~= t);
        }
    }
}

/// A hex digit character is read back from its value.
pub proof fn lemma_hex_char_inv(c: char)
    requires
        is_hex(c),
    ensures
        hex_char(hex_val(c)) == c,
{
    lemma_char_eq_by_code(hex_char(hex_val(c)), c);
}

/// Soundness of the string parser: whatever it accepts off the front of
/// `s` is the canonical spelling of the string it returns, closing quote
/// included.
pub proof fn lemma_parse_jstr_sound(s: Seq<char>, t: Seq<char>, r: Seq<char>)
    requires
        parse_jstr(s) == Some((t, r)),
    ensures
        s == escape_seq(t) + seq!['"'] + r,
    decreases s.len(),
{
    if s[0] == '"' {
        assert(t =~= Seq::<char>::empty());
        assert(escape_seq(t) == Seq::<char>::empty());
        assert(s =~= seq!['"'] + r);
        assert(s =~= escape_seq(t) + seq!['"'] + r);
    } else if s[0] == '\\' {
        if s.len() >= 2 && (s[1] == '"' || s[1] == '\\' || s[1] == 'n' || s[1] == 'r' || s[1]
            == 't') {
            let c = unescape1(s[1]);
            let p = parse_jstr(s.skip(2));
            assert(p is Some);
            let t1 = p->Some_0.0;
            let r1 = p->Some_0.1;
            assert(t == seq![c] + t1 && r == r1);
            lemma_parse_jstr_sound(s.skip(2), t1, r1);
            if s[1] == '"' {
                assert(escape_char(c) =~= seq!['\\', s[1]]);
            } else if s[1] == '\\' {
                assert(escape_char(c) =~= seq!['\\', s[1]]);
            } else if s[1] == 'n' {
                assert(escape_char(c) =~= seq!['\\', s[1]]);
            } else if s[1] == 'r' {
                assert(escape_char(c) =~= seq!['\\', s[1]]);
            } else {
                assert(escape_char(c) =~= seq!['\\', s[1]]);
            }
            assert(t[0] == c && t.drop_first() =~= t1);
            assert(escape_seq(t) == escape_char(c) + escape_seq(t1));
            assert(s =~= seq!['\\', s[1]] + s.skip(2));
            assert(s =~= escape_seq(t) + seq!['"'] + r);
        } else if s.len() >= 6 && s[1] == 'u' && s[2] == '0' && s[3] == '0' && is_hex(s[4])
            && is_hex(s[5]) && ({
            let v = 16 * hex_val(s[4]) + hex_val(s[5]);
            v < 32 && v != 9 && v != 10 && v != 13
        }) {
            let h4 = hex_val(s[4]);
            let h5 = hex_val(s[5]);
            let v = 16 * h4 + h5;
            let c = ((v as u8) as char);
            let p = parse_jstr(s.skip(6));
            assert(p is Some);
            let t1 = p->Some_0.0;
            let r1 = p->Some_0.1;
            assert(t == seq![c] + t1 && r == r1);
            lemma_parse_jstr_sound(s.skip(6), t1, r1);
            assert(0 <= h5 < 16 && 0 <= h4 < 16);
            assert(c as u32 == v);
            assert(c != '"' && c != '\\' && c != '\n' && c != '\r' && c != '\t') by {
                if c == '"' {
                    assert(c as u32 == 34);
                }
                if c == '\\' {
                    assert(c as u32 == 92);
                }
                if c == '\n' {
                    assert(c as u32 == 10);
                }
                if c == '\r' {
                    assert(c as u32 == 13);
                }
                if c == '\t' {
                    assert(c as u32 == 9);
                }
            }
            assert(v / 16 == h4 && v % 16 == h5) by (nonlinear_arith)
                requires
                    v == 16 * h4 + h5,
                    0 <= h5 < 16,
                    0 <= h4,
            ;
            lemma_hex_char_inv(s[4]);
            lemma_hex_char_inv(s[5]);
            assert(escape_char(c) =~= seq!['\\', 'u', '0', '0', s[4], s[5]]);
            assert(t[0] == c && t.drop_first() =~= t1);
            assert(escape_seq(t) == escape_char(c) + escape_seq(t1));
            assert(s =~= seq!['\\', 'u', '0', '0', s[4], s[5]] + s.skip(6));
            assert(s =~= escape_seq(t) + seq!['"'] + r);
        }
    } else {
        let c = s[0];
        assert(is_raw(c));
        let p = parse_jstr(s.drop_first());
        assert(p is Some);
        let t1 = p->Some_0.0;
        let r1 = p->Some_0.1;
        assert(t == seq![c] + t1 && r == r1);
        lemma_parse_jstr_sound(s.drop_first(), t1, r1);
        assert(c != '\n' && c != '\r' && c != '\t') by {
            if c == '\n' {
                assert(c as u32 == 10);
            }
            if c == '\r' {
                assert(c as u32 == 13);
            }
            if c == '\t' {
                assert(c as u32 == 9);
            }
        }
        assert(escape_char(c) =~= seq![c]);
        assert(t[0] == c && t.drop_first() =~= t1);
        assert(escape_seq(t) == escape_char(c) + escape_seq(t1));
        assert(s =~= seq![c] + s.drop_first());
        assert(s =~= escape_seq(t) + seq!['"'] + r);
    }
}

/// Appends the canonical spelling of `s` (without the quotes) to `out`.
pub fn push_escaped(out: &mut Vec<char>, s: &Vec<char>)
    ensures
        final(out)@ == old(out)@ + escape_seq(s@),
{
    let mut k: usize = 0;
    assert(s@.subrange(0, 0) =~= Seq::<char>::empty());
    assert(escape_seq(s@.subrange(0, 0)) =~= Seq::<char>::empty());
    assert(out@ =~= old(out)@ + escape_seq(s@.subrange(0, 0)));
    while k < s.len()
        invariant
            k <= s@.len(),
            out@ == old(out)@ + escape_seq(s@.subrange(0, k as int)),
        decreases s@.len() - k,
    {
        let c = s[k];
        let x = c as u32;
        let ghost pref = s@.subrange(0, k as int);
        proof {
            lemma_escape_seq_snoc(pref, c);
            assert(s@.subrange(0, k + 1) =~= pref.push(c));
        }
        if x == 34 {
            proof {
                lemma_char_eq_by_code(c, '"');
            }
            out.push('\\');
            out.push('"');
            assert(out@ =~= old(out)@ + (escape_seq(pref) + escape_char(c)));
        } else if x == 92 {
            proof {
                lemma_char_eq_by_code(c, '\\');
            }
            out.push('\\');
            out.push('\\');
            assert(out@ =~= old(out)@ + (escape_seq(pref) + escape_char(c)));
        } else if x == 10 {
            proof {
                lemma_char_eq_by_code(c, '\n');
            }
            out.push('\\');
            out.push('n');
            assert(out@ =~= old(out)@ + (escape_seq(pref) + escape_char(c)));
        } else if x == 13 {
            proof {
                lemma_char_eq_by_code(c, '\r');
            }
            out.push('\\');
            out.push('r');
            assert(out@ =~= old(out)@ + (escape_seq(pref) + escape_char(c)));
        } else if x == 9 {
            proof {
                lemma_char_eq_by_code(c, '\t');
            }
            out.push('\\');
            out.push('t');
            assert(out@ =~= old(out)@ + (escape_seq(pref) + escape_char(c)));
        } else if x < 32 {
            let hi = (x / 16) as u8;
            let lo = (x % 16) as u8;
            let hc = ((48 + hi) as u8) as char;
            let lc = (if lo < 10 {
                (48 + lo) as u8
            } else {
                (87 + lo) as u8
            }) as char;
            proof {
                assert(hi < 10);
                assert(hc == hex_char(x as int / 16));
                assert(lc == hex_char(x as int % 16));
            }
            out.push('\\');
            out.push('u');
            out.push('0');
            out.push('0');
            out.push(hc);
            out.push(lc);
            assert(out@ =~= old(out)@ + (escape_seq(pref) + escape_char(c)));
        } else {
            out.push(c);
            assert(escape_char(c) =~= seq![c]);
            assert(out@ =~= old(out)@ + (escape_seq(pref) + escape_char(c)));
        }
        k = k + 1;
    }
    assert(s@.subrange(0, s@.len() as int) =~= s@);
}

/// Reads a quoted string's body from `s` at position `i` (just past the
/// opening quote), per [`parse_jstr`]; returns the string and the position
/// just past the closing quote.
pub fn parse_jstr_exec(s: &[char], i: usize) -> (r: Option<(Vec<char>, usize)>)
    requires
        i <= s@.len(),
    ensures
        match r {
            Some(p) => {
                i <= p.1 <= s@.len() && parse_jstr(s@.skip(i as int)) == Some(
                    (p.0@, s@.skip(p.1 as int)),
                )
            },
            None => parse_jstr(s@.skip(i as int)) == None::<(Seq<char>, Seq<char>)>,
        },
{
    let mut out: Vec<char> = Vec::new();
    let mut j: usize = i;
    loop
        invariant
            i <= j <= s@.len(),
            parse_jstr(s@.skip(i as int)) == (match parse_jstr(s@.skip(j as int)) {
                Some(p) => Some((out@ + p.0, p.1)),
                None => None::<(Seq<char>, Seq<char>)>,
            }),
        decreases s@.len() - j,
    {
        let ghost sj = s@.skip(j as int);
        if j >= s.len() {
            assert(sj.len() == 0);
            return None;
        }
        assert(sj[0] == s@[j as int]);
        let x = s[j] as u32;
        if x == 34 {
            proof {
                lemma_char_eq_by_code(s@[j as int], '"');
                assert(sj.drop_first() =~= s@.skip(j + 1));
                assert(out@ + Seq::<char>::empty() =~= out@);
            }
            return Some((out, j + 1));
        } else if x == 92 {
            proof {
                lemma_char_eq_by_code(s@[j as int], '\\');
            }
            if j + 1 >= s.len() {
                assert(sj.len() < 2);
                return None;
            }
            assert(sj[1] == s@[j + 1]);
            let e = s[j + 1] as u32;
            if e == 34 || e == 92 || e == 110 || e == 114 || e == 116 {
                let c: char = if e == 34 {
                    '"'
                } else if e == 92 {
                    '\\'
                } else if e == 110 {
                    '\n'
                } else if e == 114 {
                    '\r'
                } else {
                    '\t'
                };
                proof {
                    if e == 34 {
                        lemma_char_eq_by_code(s@[j + 1], '"');
                    } else if e == 92 {
                        lemma_char_eq_by_code(s@[j + 1], '\\');
                    } else if e == 110 {
                        lemma_char_eq_by_code(s@[j + 1], 'n');
                    } else if e == 114 {
                        lemma_char_eq_by_code(s@[j + 1], 'r');
                    } else {
                        lemma_char_eq_by_code(s@[j + 1], 't');
                    }
                    assert(unescape1(sj[1]) == c);
                    assert(sj.skip(2) =~= s@.skip(j + 2));
                }
                let ghost out0 = out@;
                out.push(c);
                proof {
                    assert(forall|p0: Seq<char>| out0 + (seq![c] + p0) =~= out@ + p0);
                }
                j = j + 2;
            } else if e == 117 {
                proof {
                    lemma_char_eq_by_code(s@[j + 1], 'u');
                }
                if s.len() - j < 6 {
                    assert(sj.len() < 6);
                    return None;
                }
                assert(sj[2] == s@[j + 2] && sj[3] == s@[j + 3] && sj[4] == s@[j + 4] && sj[5]
                    == s@[j + 5]);
                let h2 = s[j + 2] as u32;
                let h3 = s[j + 3] as u32;
                if h2 != 48 || h3 != 48 {
                    return None;
                }
                proof {
                    lemma_char_eq_by_code(s@[j + 2], '0');
                    lemma_char_eq_by_code(s@[j + 3], '0');
                }
                let h4 = s[j + 4] as u32;
                let h5 = s[j + 5] as u32;
                let ok4 = (48 <= h4 && h4 <= 57) || (97 <= h4 && h4 <= 102);
                let ok5 = (48 <= h5 && h5 <= 57) || (97 <= h5 && h5 <= 102);
                if !ok4 || !ok5 {
                    assert(!is_hex(sj[4]) || !is_hex(sj[5]));
                    return None;
                }
                let v4 = if h4 <= 57 {
                    h4 - 48
                } else {
                    h4 - 87
                };
                let v5 = if h5 <= 57 {
                    h5 - 48
                } else {
                    h5 - 87
                };
                let v = 16 * v4 + v5;
                assert(v == 16 * hex_val(sj[4]) + hex_val(sj[5]));
                if !(v < 32 && v != 9 && v != 10 && v != 13) {
                    return None;
                }
                let c = (v as u8) as char;
                proof {
                    assert(sj.skip(6) =~= s@.skip(j + 6));
                }
                let ghost out0 = out@;
                out.push(c);
                proof {
                    assert(forall|p0: Seq<char>| out0 + (seq![c] + p0) =~= out@ + p0);
                }
                j = j + 6;
            } else {
                assert(!(sj[1] == '"' || sj[1] == '\\' || sj[1] == 'n' || sj[1] == 'r' || sj[1]
                    == 't'));
                assert(sj[1] != 'u');
                return None;
            }
        } else if x >= 32 {
            assert(sj[0] != '"' && sj[0] != '\\');
            assert(is_raw(sj[0]));
            let c = s[j];
            proof {
                assert(sj.drop_first() =~= s@.skip(j + 1));
            }
            let ghost out0 = out@;
            out.push(c);
            proof {
                assert(forall|p0: Seq<char>| out0 + (seq![c] + p0) =~= out@ + p0);
            }
            j = j + 1;
        } else {
            assert(sj[0] != '"' && sj[0] != '\\');
            assert(!is_raw(sj[0]));
            return None;
        }
    }
}

} // verus!
