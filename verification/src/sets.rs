//! Lists of names used as sets.
use vstd::prelude::*;

use crate::env::names_view;

verus! {

/// Holds for the names that occur in `b`.
pub open spec fn found_in(b: Seq<Seq<char>>) -> spec_fn(Seq<char>) -> bool {
    |x: Seq<char>| b.contains(x)
}

/// Holds for the names that do not occur in `a`.
pub open spec fn missing_from(a: Seq<Seq<char>>) -> spec_fn(Seq<char>) -> bool {
    |x: Seq<char>| !a.contains(x)
}

fn contains_string(list: &[String], x: &String) -> (r: bool)
    ensures
        r == names_view(list@).contains(x@),
{
    let n = list.len();
    let mut i: usize = 0;
    while i < n
        invariant
            n == list@.len(),
            i <= n,
            forall|j: int| 0 <= j < i ==> list@[j]@ != x@,
        decreases n - i,
    {
        if list[i] == *x {
            proof {
                assert(names_view(list@)[i as int] == x@);
            }
            return true;
        }
        i = i + 1;
    }
    proof {
        assert forall|j: int| 0 <= j < names_view(list@).len() implies names_view(list@)[j] != x@ by {
            assert(names_view(list@)[j] == list@[j]@);
        }
    }
    false
}

/// Takes the intersection of two sets: the names of `a` that occur in `b`, in
/// the order of `a`.
pub fn compute_intersection<'a>(a: &'a [String], b: &'a [String]) -> (r: Vec<&'a String>)
    ensures
        r@.map_values(|s: &String| s@) == names_view(a@).filter(found_in(names_view(b@))),
{
    let ghost pred = found_in(names_view(b@));
    let mut intersection: Vec<&'a String> = Vec::new();
    let n = a.len();
    let mut i: usize = 0;
    while i < n
        invariant
            n == a@.len(),
            i <= n,
            pred == found_in(names_view(b@)),
            intersection@.map_values(|s: &String| s@) == names_view(a@).take(i as int).filter(pred),
        decreases n - i,
    {
        let ghost before = intersection@;
        let keep = contains_string(b, &a[i]);
        if keep {
            intersection.push(&a[i]);
        }
        proof {
            reveal(Seq::filter);
            let t = names_view(a@).take(i + 1);
            assert(t.drop_last() =~= names_view(a@).take(i as int));
            assert(t.last() == a@[i as int]@);
            if keep {
                assert(intersection@.map_values(|s: &String| s@) =~= before.map_values(
                    |s: &String| s@,
                ).push(a@[i as int]@));
            } else {
                assert(intersection@ == before);
            }
        }
        i = i + 1;
    }
    proof {
        assert(names_view(a@).take(n as int) =~= names_view(a@));
    }
    intersection
}

/// Takes the union of two sets: all names of `a`, then the names of `b` that do
/// not occur in `a`.
pub fn compute_union(a: &[String], b: &[String]) -> (r: Vec<String>)
    ensures
        names_view(r@) == names_view(a@) + names_view(b@).filter(missing_from(names_view(a@))),
{
    let ghost pred = missing_from(names_view(a@));
    let mut c: Vec<String> = Vec::new();
    let n = a.len();
    let mut i: usize = 0;
    while i < n
        invariant
            n == a@.len(),
            i <= n,
            names_view(c@) =~= names_view(a@).take(i as int),
        decreases n - i,
    {
        c.push(a[i].clone());
        proof {
            assert(names_view(a@).take(i + 1) =~= names_view(a@).take(i as int).push(a@[i as int]@));
        }
        i = i + 1;
    }
    proof {
        assert(names_view(a@).take(n as int) =~= names_view(a@));
    }
    let m = b.len();
    let mut k: usize = 0;
    while k < m
        invariant
            m == b@.len(),
            k <= m,
            pred == missing_from(names_view(a@)),
            names_view(c@) == names_view(a@) + names_view(b@).take(k as int).filter(pred),
        decreases m - k,
    {
        let ghost before = c@;
        let present = contains_string(a, &b[k]);
        if !present {
            c.push(b[k].clone());
        }
        proof {
            reveal(Seq::filter);
            let t = names_view(b@).take(k + 1);
            assert(t.drop_last() =~= names_view(b@).take(k as int));
            assert(t.last() == b@[k as int]@);
            if !present {
                assert(names_view(c@) =~= names_view(before).push(b@[k as int]@));
                assert(names_view(a@) + names_view(b@).take(k as int).filter(pred).push(
                    b@[k as int]@,
                ) =~= (names_view(a@) + names_view(b@).take(k as int).filter(pred)).push(
                    b@[k as int]@,
                ));
            } else {
                assert(c@ == before);
            }
        }
        k = k + 1;
    }
    proof {
        assert(names_view(b@).take(m as int) =~= names_view(b@));
    }
    c
}

/// A name is in the intersection exactly when it is in both sets.
pub proof fn law_intersection_members(a: Seq<Seq<char>>, b: Seq<Seq<char>>, x: Seq<char>)
    ensures
        a.filter(found_in(b)).contains(x) <==> (a.contains(x) && b.contains(x)),
{
    let f = a.filter(found_in(b));
    if f.contains(x) {
        a.lemma_filter_contains_rev(found_in(b), x);
        let j = choose|j: int| 0 <= j < f.len() && f[j] == x;
        a.lemma_filter_pred(found_in(b), j);
    }
    if a.contains(x) && b.contains(x) {
        let i = choose|i: int| 0 <= i < a.len() && a[i] == x;
        a.lemma_filter_contains(found_in(b), i);
    }
}

/// A name is in the union exactly when it is in one of the sets.
pub proof fn law_union_members(a: Seq<Seq<char>>, b: Seq<Seq<char>>, x: Seq<char>)
    ensures
        (a + b.filter(missing_from(a))).contains(x) <==> (a.contains(x) || b.contains(x)),
{
    let f = b.filter(missing_from(a));
    let u = a + f;
    if u.contains(x) {
        let j = choose|j: int| 0 <= j < u.len() && u[j] == x;
        if j >= a.len() {
            assert(f[j - a.len()] == x);
            b.lemma_filter_contains_rev(missing_from(a), x);
        }
    }
    if a.contains(x) {
        let i = choose|i: int| 0 <= i < a.len() && a[i] == x;
        assert(u[i] == x);
    } else if b.contains(x) {
        let i = choose|i: int| 0 <= i < b.len() && b[i] == x;
        b.lemma_filter_contains(missing_from(a), i);
        let j = choose|j: int| 0 <= j < f.len() && f[j] == x;
        assert(u[a.len() + j] == x);
    }
}


proof fn lemma_filter_no_duplicates(s: Seq<Seq<char>>, pred: spec_fn(Seq<char>) -> bool)
    requires
        s.no_duplicates(),
    ensures
        s.filter(pred).no_duplicates(),
    decreases s.len(),
{
    reveal(Seq::filter);
    if s.len() > 0 {
        let front = s.drop_last();
        assert(front.no_duplicates()) by {
            assert forall|i: int, j: int|
                0 <= i < front.len() && 0 <= j < front.len() && i != j implies front[i]
                != front[j] by {
                assert(front[i] == s[i] && front[j] == s[j]);
            }
        }
        lemma_filter_no_duplicates(front, pred);
        let f = front.filter(pred);
        if pred(s.last()) {
            if f.contains(s.last()) {
                front.lemma_filter_contains_rev(pred, s.last());
                let k = choose|k: int| 0 <= k < front.len() && front[k] == s.last();
                assert(s[k] == s[s.len() - 1]);
            }
            assert forall|i: int, j: int|
                0 <= i < f.push(s.last()).len() && 0 <= j < f.push(s.last()).len() && i != j
                implies f.push(s.last())[i] != f.push(s.last())[j] by {
                if i == f.len() {
                    assert(f.push(s.last())[j] == f[j]);
                } else if j == f.len() {
                    assert(f.push(s.last())[i] == f[i]);
                } else {
                    assert(f.push(s.last())[i] == f[i] && f.push(s.last())[j] == f[j]);
                }
            }
        }
    }
}

/// The union of two sets without repeated names has no repeated names.
pub proof fn law_union_distinct(a: Seq<Seq<char>>, b: Seq<Seq<char>>)
    requires
        a.no_duplicates(),
        b.no_duplicates(),
    ensures
        (a + b.filter(missing_from(a))).no_duplicates(),
{
    let f = b.filter(missing_from(a));
    lemma_filter_no_duplicates(b, missing_from(a));
    assert forall|i: int, j: int| 0 <= i < a.len() && 0 <= j < f.len() implies a[i] != f[j] by {
        b.lemma_filter_pred(missing_from(a), j);
        assert(a.contains(a[i]));
    }
    vstd::seq_lib::lemma_no_dup_in_concat(a, f);
}

} // verus!
