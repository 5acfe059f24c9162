//! Characters and strings: conversions and the lexicographic order on
//! image identifiers.
//!
//! Image file names act as keys of the feature store, ordered by the
//! lexicographic order on their Unicode scalar values. That order decides
//! which image is "first" and therefore serves as the reference.

use vstd::prelude::*;
use vstd::std_specs::iter::IteratorSpec;

verus! {

broadcast use {
    vstd::string::group_string_axioms,
    vstd::utf8::char_u32_cast,
    vstd::utf8::char_is_scalar,
};

/// Strict lexicographic order on character sequences, comparing Unicode
/// scalar values position by position.
pub open spec fn lex_lt(a: Seq<char>, b: Seq<char>) -> bool
    decreases a.len(),
{
    if b.len() == 0 {
        false
    } else if a.len() == 0 {
        true
    } else if a[0] != b[0] {
        (a[0] as u32) < (b[0] as u32)
    } else {
        lex_lt(a.drop_first(), b.drop_first())
    }
}

/// Exactly one of `lex_lt(a, b)`, `a == b`, `lex_lt(b, a)` holds.
pub proof fn lemma_lex_trichotomy(a: Seq<char>, b: Seq<char>)
    ensures
        lex_lt(a, b) || lex_lt(b, a) || a =~= b,
        lex_lt(a, b) ==> !lex_lt(b, a) && !(a =~= b),
        lex_lt(b, a) ==> !lex_lt(a, b) && !(a =~= b),
    decreases a.len(),
{
    if a.len() == 0 || b.len() == 0 {
    } else if a[0] != b[0] {
        vstd::utf8::char_u32_cast(a[0], a[0] as u32);
        vstd::utf8::char_u32_cast(b[0], b[0] as u32);
    } else {
        lemma_lex_trichotomy(a.drop_first(), b.drop_first());
        if a.drop_first() =~= b.drop_first() {
            assert forall|i: int| 0 <= i < a.len() implies a[i] == b[i] by {
                if i > 0 {
                    assert(a.drop_first()[i - 1] == b.drop_first()[i - 1]);
                }
            }
            assert(a =~= b);
        }
        if a =~= b {
            assert(a.drop_first() =~= b.drop_first());
        }
    }
}

/// The lexicographic order is transitive.
pub proof fn lemma_lex_transitive(a: Seq<char>, b: Seq<char>, c: Seq<char>)
    requires
        lex_lt(a, b),
        lex_lt(b, c),
    ensures
        lex_lt(a, c),
    decreases a.len(),
{
    if a.len() == 0 {
    } else if b.len() == 0 {
    } else if c.len() == 0 {
    } else if a[0] == b[0] && b[0] == c[0] {
        lemma_lex_transitive(a.drop_first(), b.drop_first(), c.drop_first());
    }
}

/// The characters of `s`, in order.
pub fn str_to_chars(s: &str) -> (out: Vec<char>)
    ensures
        out@ == s@,
{
    let mut it = s.chars();
    let mut out: Vec<char> = Vec::new();
    loop
        invariant_except_break
            out@ + it.remaining() == s@,
            it.obeys_prophetic_iter_laws(),
            it.decrease() is Some,
        ensures
            out@ == s@,
        decreases it.decrease().unwrap(),
    {
        match it.next() {
            Some(c) => {
                out.push(c);
            },
            None => {
                proof {
                    assert(out@ =~= s@);
                }
                break ;
            },
        }
    }
    out
}

/// Relies on `String::push`: appending one character to the end of a string.
#[verifier::external_body]
pub(crate) fn push_char(s: &mut String, c: char)
    ensures
        final(s)@ == old(s)@.push(c),
{
    s.push(c)
}

/// A string holding exactly the given characters.
pub fn chars_to_string(v: &Vec<char>) -> (out: String)
    ensures
        out@ == v@,
{
    let mut out = String::new();
    let mut i: usize = 0;
    while i < v.len()
        invariant
            i <= v.len(),
            out@ == v@.take(i as int),
        decreases v.len() - i,
    {
        push_char(&mut out, v[i]);
        proof {
            assert(v@.take(i as int).push(v@[i as int]) =~= v@.take(i + 1));
        }
        i = i + 1;
    }
    proof {
        assert(v@.take(v@.len() as int) =~= v@);
    }
    out
}

/// Whether two character lists hold the same characters.
pub(crate) fn chars_eq(a: &Vec<char>, b: &Vec<char>) -> (r: bool)
    ensures
        r == (a@ == b@),
{
    if a.len() != b.len() {
        return false;
    }
    let mut i: usize = 0;
    while i < a.len()
        invariant
            a@.len() == b@.len(),
            i <= a@.len(),
            forall|k: int| 0 <= k < i ==> a@[k] == b@[k],
        decreases a@.len() - i,
    {
        if a[i] != b[i] {
            return false;
        }
        i = i + 1;
    }
    proof {
        assert(a@ =~= b@);
    }
    true
}

/// Decides the lexicographic order on two character sequences.
pub fn chars_lt(a: &Vec<char>, b: &Vec<char>) -> (r: bool)
    ensures
        r == lex_lt(a@, b@),
{
    let mut i: usize = 0;
    let n = if a.len() < b.len() {
        a.len()
    } else {
        b.len()
    };
    proof {
        assert(a@.skip(0) =~= a@);
        assert(b@.skip(0) =~= b@);
    }
    while i < n
        invariant
            i <= n,
            n == if a@.len() < b@.len() {
                a@.len()
            } else {
                b@.len()
            },
            forall|k: int| 0 <= k < i ==> a@[k] == b@[k],
            lex_lt(a@, b@) == lex_lt(a@.skip(i as int), b@.skip(i as int)),
        decreases n - i,
    {
        let ca = a[i];
        let cb = b[i];
        if ca != cb {
            proof {
                lemma_lex_skip_head(a@, b@, i as int);
            }
            return (ca as u32) < (cb as u32);
        }
        proof {
            lemma_lex_skip_step(a@, b@, i as int);
        }
        i = i + 1;
    }
    proof {
        lemma_lex_skip_head(a@, b@, i as int);
    }
    a.len() < b.len()
}

/// Unfolds one comparison step: with equal heads at position `i`, the order
/// from position `i` equals the order from position `i + 1`.
proof fn lemma_lex_skip_step(a: Seq<char>, b: Seq<char>, i: int)
    requires
        0 <= i < a.len(),
        0 <= i < b.len(),
        a[i] == b[i],
    ensures
        lex_lt(a.skip(i), b.skip(i)) == lex_lt(a.skip(i + 1), b.skip(i + 1)),
{
    assert(a.skip(i).drop_first() =~= a.skip(i + 1));
    assert(b.skip(i).drop_first() =~= b.skip(i + 1));
}

/// Evaluates the order from position `i` when one side is exhausted or the
/// heads differ.
proof fn lemma_lex_skip_head(a: Seq<char>, b: Seq<char>, i: int)
    requires
        0 <= i <= a.len(),
        0 <= i <= b.len(),
        i == a.len() || i == b.len() || a[i] != b[i],
    ensures
        i == a.len() && i == b.len() ==> !lex_lt(a.skip(i), b.skip(i)),
        i == a.len() && i < b.len() ==> lex_lt(a.skip(i), b.skip(i)),
        i == b.len() && i < a.len() ==> !lex_lt(a.skip(i), b.skip(i)),
        i < a.len() && i < b.len() && a[i] != b[i] ==> lex_lt(a.skip(i), b.skip(i)) == ((a[i]
            as u32) < (b[i] as u32)),
{
}

/// Decides the lexicographic order on two strings.
pub fn str_lt(a: &str, b: &str) -> (r: bool)
    ensures
        r == lex_lt(a@, b@),
{
    let ca = str_to_chars(a);
    let cb = str_to_chars(b);
    chars_lt(&ca, &cb)
}

} // verus!
