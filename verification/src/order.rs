//! Lexicographic order on strings, used to sort variable names.

use vstd::prelude::*;

verus! {

/// Strict lexicographic order on character sequences: `a` comes before `b`
/// when `a` is a proper prefix of `b`, or when at the first differing
/// position the character of `a` is the smaller one.
pub open spec fn str_lt(a: Seq<char>, b: Seq<char>) -> bool
    decreases a.len(),
{
    if b.len() == 0 {
        false
    } else if a.len() == 0 {
        true
    } else if a[0] != b[0] {
        (a[0] as u32) < (b[0] as u32)
    } else {
        str_lt(a.skip(1), b.skip(1))
    }
}

/// Decides `str_lt` on two string slices.
pub fn str_lt_exec(a: &str, b: &str) -> (r: bool)
    ensures
        r == str_lt(a@, b@),
{
    let alen = a.unicode_len();
    let blen = b.unicode_len();
    let mut i: usize = 0;
    proof {
        assert(a@.skip(0) =~= a@);
        assert(b@.skip(0) =~= b@);
    }
    loop
        invariant
            i <= alen,
            i <= blen,
            alen == a@.len(),
            blen == b@.len(),
            str_lt(a@, b@) == str_lt(a@.skip(i as int), b@.skip(i as int)),
        decreases alen - i,
    {
        if i == blen {
            return false;
        }
        if i == alen {
            return true;
        }
        let ca = a.get_char(i);
        let cb = b.get_char(i);
        if ca != cb {
            return (ca as u32) < (cb as u32);
        }
        proof {
            assert(a@.skip(i as int).skip(1) =~= a@.skip(i + 1));
            assert(b@.skip(i as int).skip(1) =~= b@.skip(i + 1));
        }
        i = i + 1;
    }
}

/// `str_lt` is irreflexive.
pub proof fn lemma_str_lt_irreflexive(a: Seq<char>)
    ensures
        !str_lt(a, a),
    decreases a.len(),
{
    if a.len() > 0 {
        lemma_str_lt_irreflexive(a.skip(1));
    }
}

/// `str_lt` is total: two sequences are equal or ordered one way.
pub proof fn lemma_str_lt_trichotomy(a: Seq<char>, b: Seq<char>)
    ensures
        str_lt(a, b) || str_lt(b, a) || a == b,
    decreases a.len(),
{
    if a.len() == 0 && b.len() == 0 {
        assert(a =~= b);
    } else if a.len() > 0 && b.len() > 0 && a[0] == b[0] {
        lemma_str_lt_trichotomy(a.skip(1), b.skip(1));
        if a.skip(1) == b.skip(1) {
            assert(a.skip(1).len() == a.len() - 1);
            assert(b.skip(1).len() == b.len() - 1);
            assert(a.len() == b.len());
            assert forall|i: int| 0 <= i < a.len() implies a[i] == b[i] by {
                if i >= 1 {
                    assert(a[i] == a.skip(1)[i - 1]);
                    assert(b[i] == b.skip(1)[i - 1]);
                }
            }
            assert(a =~= b);
        }
    } else if a.len() > 0 && b.len() > 0 {
        assert((a[0] as u32) != (b[0] as u32)) by {
            if (a[0] as u32) == (b[0] as u32) {
                vstd::utf8::char_u32_cast(a[0], a[0] as u32);
                vstd::utf8::char_u32_cast(b[0], b[0] as u32);
            }
        }
    }
}

/// `str_lt` is transitive.
pub proof fn lemma_str_lt_transitive(a: Seq<char>, b: Seq<char>, c: Seq<char>)
    requires
        str_lt(a, b),
        str_lt(b, c),
    ensures
        str_lt(a, c),
    decreases a.len(),
{
    if a.len() > 0 && b.len() > 0 && c.len() > 0 && a[0] == b[0] && b[0] == c[0] {
        lemma_str_lt_transitive(a.skip(1), b.skip(1), c.skip(1));
    }
}

} // verus!
