//! Small bridges between text and its character sequence: every frame is
//! handled in this crate as a `Vec<char>` whose view is the `Seq<char>` the
//! specifications speak of.

use vstd::prelude::*;

verus! {

/// Two characters with the same code point are the same character.
pub proof fn lemma_char_eq_by_code(a: char, b: char)
    requires
        a as u32 == b as u32,
    ensures
        a == b,
{
    vstd::utf8::char_u32_cast(a, a as u32);
    vstd::utf8::char_u32_cast(b, b as u32);
}

/// The characters of `s`, in order.
pub fn str_to_chars(s: &str) -> (v: Vec<char>)
    ensures
        v@ == s@,
{
    let mut it = s.chars();
    let mut v: Vec<char> = Vec::new();
    loop
        invariant
            vstd::std_specs::iter::IteratorSpec::obeys_prophetic_iter_laws(&it),
            v@ + vstd::std_specs::iter::IteratorSpec::remaining(&it) == s@,
        decreases s@.len() - v@.len(),
    {
        broadcast use vstd::string::next_postcondition;

        match it.next() {
            Some(c) => {
                v.push(c);
                assert(v@ + vstd::std_specs::iter::IteratorSpec::remaining(&it) =~= s@);
            },
            None => {
                assert(v@ =~= s@);
                return v;
            },
        }
    }
}

/// The text whose characters are exactly `v`.
///
/// Relies on `String: FromIterator<char>`: collecting characters builds the
/// string holding those characters in order.
#[verifier::external_body]
pub fn chars_to_string(v: &Vec<char>) -> (s: String)
    ensures
        s@ == v@,
{
    v.iter().collect()
}

/// Appends every character of `more` to `out`.
pub fn push_all(out: &mut Vec<char>, more: &Vec<char>)
    ensures
        final(out)@ == old(out)@ + more@,
{
    let mut k: usize = 0;
    while k < more.len()
        invariant
            k <= more@.len(),
            out@ == old(out)@ + more@.subrange(0, k as int),
        decreases more@.len() - k,
    {
        out.push(more[k]);
        assert(out@ =~= old(out)@ + more@.subrange(0, k + 1));
        k = k + 1;
    }
    assert(out@ =~= old(out)@ + more@);
}

/// Whether `a` and `b` hold the same characters.
pub fn chars_eq(a: &Vec<char>, b: &Vec<char>) -> (r: bool)
    ensures
        r == (a@ == b@),
{
    if a.len() != b.len() {
        assert(a@ != b@);
        return false;
    }
    let mut k: usize = 0;
    while k < a.len()
        invariant
            k <= a@.len(),
            a@.len() == b@.len(),
            forall|j: int| 0 <= j < k ==> a@[j] == b@[j],
        decreases a@.len() - k,
    {
        let ca = a[k] as u32;
        let cb = b[k] as u32;
        if ca != cb {
            assert(a@[k as int] != b@[k as int]);
            return false;
        }
        proof {
            lemma_char_eq_by_code(a@[k as int], b@[k as int]);
        }
        k = k + 1;
    }
    assert(a@ =~= b@);
    true
}

} // verus!
