//! Variable discovery: sorting and deduplicating the collected names.

use vstd::prelude::*;
use crate::order::{
    str_lt, str_lt_exec, lemma_str_lt_irreflexive, lemma_str_lt_transitive,
    lemma_str_lt_trichotomy,
};

verus! {

/// A sequence of names is strictly sorted: any earlier name is
/// lexicographically below any later one. This also rules out duplicates.
pub open spec fn sorted_strict(s: Seq<Seq<char>>) -> bool {
    forall|i: int, j: int| 0 <= i < j < s.len() ==> str_lt(s[i], s[j])
}

/// A strictly sorted sequence holds no name twice.
pub proof fn lemma_sorted_strict_no_dup(s: Seq<Seq<char>>)
    requires
        sorted_strict(s),
    ensures
        forall|i: int, j: int| 0 <= i < j < s.len() ==> s[i] != s[j],
{
    assert forall|i: int, j: int| 0 <= i < j < s.len() implies s[i] != s[j] by {
        if s[i] == s[j] {
            lemma_str_lt_irreflexive(s[i]);
        }
    }
}

/// Inserts `name` into the strictly sorted `out`, keeping it sorted and
/// adding nothing when the name is already present.
fn insert_sorted(out: &mut Vec<String>, name: &String)
    requires
        sorted_strict(old(out).deep_view()),
    ensures
        sorted_strict(final(out).deep_view()),
        forall|x: Seq<char>|
            final(out).deep_view().contains(x) <==> (old(out).deep_view().contains(x) || x
                == name@),
{
    let ghost orig: Seq<Seq<char>> = out.deep_view();
    let mut k: usize = 0;
    while k < out.len() && str_lt_exec(out[k].as_str(), name.as_str())
        invariant
            k <= out.len(),
            out.deep_view() == orig,
            sorted_strict(orig),
            forall|i: int| 0 <= i < k ==> str_lt(orig[i], name@),
        decreases out.len() - k,
    {
        k = k + 1;
    }
    if k < out.len() && out[k].eq(name) {
        proof {
            assert(orig[k as int] == name@);
            assert(forall|x: Seq<char>|
                out.deep_view().contains(x) <==> (orig.contains(x) || x == name@));
        }
        return ;
    }
    proof {
        if k < out.len() {
            lemma_str_lt_trichotomy(orig[k as int], name@);
        }
    }
    out.insert(k, name.clone());
    proof {
        let cur = out.deep_view();
        assert(out@[k as int]@ == name@);
        assert(cur =~= orig.insert(k as int, name@)) by {
            assert(out@ =~= old(out)@.insert(k as int, out@[k as int]));
            assert forall|i: int| 0 <= i < cur.len() implies cur[i] == orig.insert(
                k as int,
                name@,
            )[i] by {
                if i < k {
                    assert(out@[i] == old(out)@[i]);
                } else if i > k {
                    assert(out@[i] == old(out)@[i - 1]);
                }
            }
        }
        assert forall|i: int, j: int| 0 <= i < j < cur.len() implies str_lt(cur[i], cur[j]) by {
            if j < k {
                assert(str_lt(orig[i], orig[j]));
            } else if i < k && j == k {
                assert(str_lt(orig[i], name@));
            } else if i < k && j > k {
                assert(str_lt(orig[i], orig[j - 1]));
            } else if i == k && j > k {
                // name@ is below every element from position k on
                assert(!str_lt(orig[k as int], name@) && orig[k as int] != name@);
                lemma_str_lt_trichotomy(orig[k as int], name@);
                assert(str_lt(name@, orig[k as int]));
                if j - 1 > k {
                    lemma_str_lt_transitive(name@, orig[k as int], orig[j - 1]);
                } else {
                    assert(cur[j] == orig[k as int]);
                }
            } else {
                assert(str_lt(orig[i - 1], orig[j - 1]));
            }
        }
        assert forall|x: Seq<char>|
            cur.contains(x) <==> (orig.contains(x) || x == name@) by {
            if cur.contains(x) {
                let i = choose|i: int| 0 <= i < cur.len() && cur[i] == x;
                if i < k {
                    assert(orig[i] == x);
                } else if i == k {
                    assert(x == name@);
                } else {
                    assert(orig[i - 1] == x);
                }
            }
            if orig.contains(x) {
                let i = choose|i: int| 0 <= i < orig.len() && orig[i] == x;
                if i < k {
                    assert(cur[i] == x);
                } else {
                    assert(cur[i + 1] == x);
                }
            }
            if x == name@ {
                assert(cur[k as int] == x);
            }
        }
    }
}

/// Sorts the collected variable names and removes duplicates: the ordering
/// step of the Variable Extractor. The result is strictly sorted and holds
/// exactly the names of the input, each once.
pub fn sort_dedup(names: &Vec<String>) -> (r: Vec<String>)
    ensures
        sorted_strict(r.deep_view()),
        forall|x: Seq<char>| r.deep_view().contains(x) <==> names.deep_view().contains(x),
{
    let mut out: Vec<String> = Vec::new();
    let n = names.len();
    for idx in 0..n
        invariant
            n == names@.len(),
            sorted_strict(out.deep_view()),
            forall|x: Seq<char>|
                out.deep_view().contains(x) <==> (exists|i: int|
                    0 <= i < idx && names.deep_view()[i] == x),
    {
        insert_sorted(&mut out, &names[idx]);
        proof {
            assert(names.deep_view()[idx as int] == names@[idx as int]@);
            assert forall|x: Seq<char>|
                out.deep_view().contains(x) <==> (exists|i: int|
                    0 <= i < idx + 1 && names.deep_view()[i] == x) by {
                if exists|i: int| 0 <= i < idx + 1 && names.deep_view()[i] == x {
                    let i = choose|i: int| 0 <= i < idx + 1 && names.deep_view()[i] == x;
                }
            }
        }
    }
    proof {
        assert forall|x: Seq<char>|
            out.deep_view().contains(x) <==> names.deep_view().contains(x) by {
            if names.deep_view().contains(x) {
                let i = choose|i: int| 0 <= i < names.deep_view().len() && names.deep_view()[i] == x;
                assert(0 <= i < n && names.deep_view()[i] == x);
            }
        }
    }
    out
}

/// The extractor's output is determined by the set of names alone: two
/// strictly sorted sequences with the same members are equal, whatever
/// order or repetition the names were collected in.
pub proof fn lemma_sorted_dedup_unique(a: Seq<Seq<char>>, b: Seq<Seq<char>>)
    requires
        sorted_strict(a),
        sorted_strict(b),
        forall|x: Seq<char>| a.contains(x) <==> b.contains(x),
    ensures
        a == b,
    decreases a.len(),
{
    if a.len() == 0 {
        if b.len() > 0 {
            assert(b.contains(b[0]));
            assert(a.contains(b[0]));
        }
        assert(a =~= b);
    } else if b.len() == 0 {
        assert(a.contains(a[0]));
        assert(b.contains(a[0]));
    } else {
        // The heads are both the least member of the common set.
        assert(a.contains(a[0]));
        assert(b.contains(a[0]));
        assert(b.contains(b[0]));
        assert(a.contains(b[0]));
        let i = choose|i: int| 0 <= i < a.len() && a[i] == b[0];
        let j = choose|j: int| 0 <= j < b.len() && b[j] == a[0];
        if i > 0 && j > 0 {
            assert(str_lt(a[0], a[i]));
            assert(str_lt(b[0], b[j]));
            lemma_str_lt_transitive(a[0], b[0], a[0]);
            lemma_str_lt_irreflexive(a[0]);
        }
        assert(a[0] == b[0]);
        // The tails hold the same members.
        let at = a.skip(1);
        let bt = b.skip(1);
        assert forall|x: Seq<char>| at.contains(x) <==> bt.contains(x) by {
            lemma_skip_contains(a, x);
            lemma_skip_contains(b, x);
        }
        assert(sorted_strict(at)) by {
            assert(forall|p: int, q: int|
                0 <= p < q < at.len() ==> at[p] == a[p + 1] && at[q] == a[q + 1]);
        }
        assert(sorted_strict(bt)) by {
            assert(forall|p: int, q: int|
                0 <= p < q < bt.len() ==> bt[p] == b[p + 1] && bt[q] == b[q + 1]);
        }
        lemma_sorted_dedup_unique(at, bt);
        assert forall|p: int| 0 <= p < a.len() implies a[p] == b[p] by {
            if p > 0 {
                assert(a[p] == at[p - 1] && b[p] == bt[p - 1]);
            }
        }
        assert(a =~= b);
    }
}

/// In a strictly sorted sequence, the members of the tail are exactly the
/// members other than the head.
proof fn lemma_skip_contains(s: Seq<Seq<char>>, x: Seq<char>)
    requires
        sorted_strict(s),
        s.len() > 0,
    ensures
        s.skip(1).contains(x) <==> (s.contains(x) && x != s[0]),
{
    let t = s.skip(1);
    assert(forall|i: int| 0 <= i < t.len() ==> t[i] == s[i + 1]);
    if t.contains(x) {
        let i = choose|i: int| 0 <= i < t.len() && t[i] == x;
        assert(s[i + 1] == x);
        if x == s[0] {
            assert(str_lt(s[0], s[i + 1]));
            lemma_str_lt_irreflexive(s[0]);
        }
    }
    if s.contains(x) && x != s[0] {
        let i = choose|i: int| 0 <= i < s.len() && s[i] == x;
        assert(i > 0);
        assert(t[i - 1] == x);
    }
}

} // verus!
