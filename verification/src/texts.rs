//! Operations on lists of texts: views, membership, sorting.

use vstd::prelude::*;
use crate::text::{seq_lt, seq_le, sorted_texts, text_lt, text_eq, lemma_seq_lt_total,
    lemma_seq_le_transitive};

verus! {

/// The character sequences of a list of strings.
pub open spec fn texts_view(v: Seq<String>) -> Seq<Seq<char>> {
    v.map_values(|s: String| s@)
}

/// Strictly ascending: sorted and without repetition.
pub open spec fn strictly_sorted(s: Seq<Seq<char>>) -> bool {
    forall|i: int, j: int| 0 <= i < j < s.len() ==> seq_lt(#[trigger] s[i], #[trigger] s[j])
}

/// Whether `v` holds a string equal to `s`.
pub fn contains_text(v: &Vec<String>, s: &str) -> (r: bool)
    ensures
        r == texts_view(v@).contains(s@),
{
    let mut i: usize = 0;
    while i < v.len()
        invariant
            i <= v.len(),
            forall|k: int| 0 <= k < i ==> v@[k]@ != s@,
        decreases v.len() - i,
    {
        if text_eq(v[i].as_str(), s) {
            assert(texts_view(v@)[i as int] == s@);
            return true;
        }
        i += 1;
    }
    assert forall|k: int| 0 <= k < texts_view(v@).len() implies texts_view(v@)[k] != s@ by {
        assert(texts_view(v@)[k] == v@[k]@);
    }
    false
}

/// Whether two lists of strings hold equal texts in the same order.
pub fn texts_equal(a: &Vec<String>, b: &Vec<String>) -> (r: bool)
    ensures
        r == (texts_view(a@) == texts_view(b@)),
{
    if a.len() != b.len() {
        assert(texts_view(a@).len() != texts_view(b@).len());
        return false;
    }
    let mut i: usize = 0;
    while i < a.len()
        invariant
            a.len() == b.len(),
            i <= a.len(),
            forall|k: int| 0 <= k < i ==> a@[k]@ == b@[k]@,
        decreases a.len() - i,
    {
        if !text_eq(a[i].as_str(), b[i].as_str()) {
            assert(texts_view(a@)[i as int] != texts_view(b@)[i as int]);
            return false;
        }
        i += 1;
    }
    assert(texts_view(a@) =~= texts_view(b@));
    true
}

/// A copy of a list of strings.
pub fn copy_texts(v: &Vec<String>) -> (r: Vec<String>)
    ensures
        texts_view(r@) == texts_view(v@),
{
    let mut out: Vec<String> = Vec::new();
    let mut i: usize = 0;
    while i < v.len()
        invariant
            i <= v.len(),
            out@.len() == i,
            forall|k: int| 0 <= k < i ==> out@[k]@ == v@[k]@,
        decreases v.len() - i,
    {
        out.push(v[i].clone());
        i += 1;
    }
    assert(texts_view(out@) =~= texts_view(v@));
    out
}

/// Pushing a string pushes its text.
pub proof fn lemma_push_view(v: Seq<String>)
    ensures
        forall|x: String| #[trigger] texts_view(v.push(x)) == texts_view(v).push(x@),
{
    assert forall|x: String| #[trigger] texts_view(v.push(x)) == texts_view(v).push(x@) by {
        assert(texts_view(v.push(x)) =~= texts_view(v).push(x@));
    }
}

/// Membership after a push: the old elements and the new one.
pub proof fn lemma_push_contains<A>(s: Seq<A>, x: A)
    ensures
        forall|y: A| #[trigger] s.push(x).contains(y) <==> (s.contains(y) || y == x),
{
    assert forall|y: A| #[trigger] s.push(x).contains(y) <==> (s.contains(y) || y == x) by {
        if s.push(x).contains(y) {
            let k = choose|k: int| 0 <= k < s.push(x).len() && s.push(x)[k] == y;
            if k < s.len() {
                assert(s[k] == y);
            }
        }
        if s.contains(y) {
            let k = choose|k: int| 0 <= k < s.len() && s[k] == y;
            assert(s.push(x)[k] == y);
        }
        if y == x {
            assert(s.push(x)[s.len() as int] == y);
        }
    }
}

/// Pushing an element that is not there keeps a sequence free of repetition.
pub proof fn lemma_push_distinct<A>(s: Seq<A>, x: A)
    requires
        s.no_duplicates(),
        !s.contains(x),
    ensures
        s.push(x).no_duplicates(),
        forall|y: A| #[trigger] s.push(x).contains(y) <==> (s.contains(y) || y == x),
{
    lemma_push_contains(s, x);
    let t = s.push(x);
    assert forall|i: int, j: int| 0 <= i < t.len() && 0 <= j < t.len() && i != j implies t[i]
        != t[j] by {
        if i == s.len() {
            assert(s[j] == t[j]);
        } else if j == s.len() {
            assert(s[i] == t[i]);
        } else {
            assert(s[i] == t[i] && s[j] == t[j]);
        }
    }
}

/// A sorted list with the same elements as a list without repetition is
/// strictly ascending.
pub proof fn lemma_sorted_distinct_strict(r: Seq<Seq<char>>, orig: Seq<Seq<char>>)
    requires
        sorted_texts(r),
        r.to_multiset() == orig.to_multiset(),
        orig.no_duplicates(),
    ensures
        strictly_sorted(r),
        r.no_duplicates(),
{
    orig.lemma_multiset_has_no_duplicates();
    r.lemma_multiset_has_no_duplicates_conv();
    assert forall|i: int, j: int| 0 <= i < j < r.len() implies seq_lt(
        #[trigger] r[i],
        #[trigger] r[j],
    ) by {
        assert(r[i] != r[j]);
    }
}

/// Sorts a list of strings in ascending order (`slice::sort`).
pub fn sort_texts(v: Vec<String>) -> (r: Vec<String>)
    ensures
        sorted_texts(texts_view(r@)),
        texts_view(r@).to_multiset() == texts_view(v@).to_multiset(),
        r@.len() == v@.len(),
{
    let mut out: Vec<String> = Vec::new();
    let ghost orig = texts_view(v@);
    let n = v.len();
    let mut i: usize = 0;
    assert(texts_view(out@) =~= orig.take(0));
    while i < n
        invariant
            n == v@.len(),
            orig == texts_view(v@),
            i <= n,
            sorted_texts(texts_view(out@)),
            out@.len() == i,
            texts_view(out@).to_multiset() == orig.take(i as int).to_multiset(),
        decreases n - i,
    {
        let x = v[i].clone();
        let ghost xv = x@;
        // position: after every element not greater than x
        let mut p: usize = 0;
        while p < out.len() && !text_lt(x.as_str(), out[p].as_str())
            invariant
                p <= out@.len(),
                forall|k: int| 0 <= k < p ==> seq_le(#[trigger] out@[k]@, xv),
                xv == x@,
            decreases out@.len() - p,
        {
            proof {
                lemma_seq_lt_total(x@, out@[p as int]@);
            }
            p += 1;
        }
        let ghost old_out = texts_view(out@);
        // build the new list: out[..p] + [x] + out[p..]
        let mut next: Vec<String> = Vec::new();
        let mut k: usize = 0;
        while k < p
            invariant
                k <= p <= out@.len(),
                next@.len() == k,
                forall|m: int| 0 <= m < k ==> next@[m]@ == out@[m]@,
            decreases p - k,
        {
            next.push(out[k].clone());
            k += 1;
        }
        next.push(x);
        let mut k2: usize = p;
        while k2 < out.len()
            invariant
                p <= k2 <= out@.len(),
                next@.len() == k2 + 1,
                forall|m: int| 0 <= m < p ==> next@[m]@ == out@[m]@,
                next@[p as int]@ == xv,
                forall|m: int| p < m <= k2 ==> next@[m]@ == out@[m - 1]@,
            decreases out@.len() - k2,
        {
            next.push(out[k2].clone());
            k2 += 1;
        }
        proof {
            let nv = texts_view(next@);
            assert(nv =~= old_out.take(p as int) + seq![xv] + old_out.skip(p as int));
            // sortedness
            assert forall|a: int, b: int| 0 <= a < b < nv.len() implies seq_le(
                #[trigger] nv[a],
                #[trigger] nv[b],
            ) by {
                if b < p {
                    assert(nv[a] == old_out[a] && nv[b] == old_out[b]);
                } else if b == p {
                    assert(nv[a] == old_out[a]);
                    assert(seq_le(out@[a]@, xv));
                } else if a == p {
                    assert(nv[b] == old_out[b - 1]);
                    if p < old_out.len() {
                        assert(seq_lt(xv, out@[p as int]@));
                        if b - 1 > p {
                            assert(seq_le(old_out[p as int], old_out[b - 1]));
                            lemma_seq_le_transitive(xv, old_out[p as int], old_out[b - 1]);
                        }
                    }
                } else if a < p {
                    assert(nv[a] == old_out[a] && nv[b] == old_out[b - 1]);
                } else {
                    assert(nv[a] == old_out[a - 1] && nv[b] == old_out[b - 1]);
                }
            }
            // multiset
            vstd::seq_lib::lemma_multiset_commutative(old_out.take(p as int) + seq![xv], old_out.skip(p as int));
            vstd::seq_lib::lemma_multiset_commutative(old_out.take(p as int), seq![xv]);
            vstd::seq_lib::lemma_multiset_commutative(old_out.take(p as int), old_out.skip(p as int));
            assert(old_out =~= old_out.take(p as int) + old_out.skip(p as int));
            assert(orig.take(i + 1) =~= orig.take(i as int).push(xv));
            vstd::seq_lib::lemma_multiset_commutative(orig.take(i as int), seq![xv]);
            assert(orig.take(i as int).push(xv) =~= orig.take(i as int) + seq![xv]);
        }
        out = next;
        i += 1;
    }
    assert(orig.take(n as int) =~= orig);
    out
}

} // verus!
