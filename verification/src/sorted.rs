//! Strings in their natural order, and sorted duplicate-free lists of strings
//! (the iteration order of an ordered set of strings).
use vstd::prelude::*;
use crate::text::char_views;

verus! {

/// `a` comes before `b` in lexicographic order of code points.
/// This is the order of `String` and `str`: they compare their UTF-8 bytes,
/// and UTF-8 orders encoded strings as their code points are ordered.
pub open spec fn lex_lt(a: Seq<char>, b: Seq<char>) -> bool
    decreases a.len(),
{
    if a.len() == 0 {
        b.len() > 0
    } else if b.len() == 0 {
        false
    } else if a[0] != b[0] {
        (a[0] as int) < (b[0] as int)
    } else {
        lex_lt(a.drop_first(), b.drop_first())
    }
}

/// Every element comes strictly before every later one: the sequence is sorted
/// and holds no element twice.
pub open spec fn strictly_sorted(s: Seq<Seq<char>>) -> bool {
    forall|i: int, j: int| 0 <= i < j < s.len() ==> lex_lt(#[trigger] s[i], #[trigger] s[j])
}

pub proof fn lemma_lex_irreflexive(a: Seq<char>)
    ensures
        !lex_lt(a, a),
    decreases a.len(),
{
    if a.len() > 0 {
        lemma_lex_irreflexive(a.drop_first());
    }
}

pub proof fn lemma_lex_asymmetric(a: Seq<char>, b: Seq<char>)
    requires
        lex_lt(a, b),
    ensures
        !lex_lt(b, a),
    decreases a.len(),
{
    if a.len() > 0 && b.len() > 0 && a[0] == b[0] {
        lemma_lex_asymmetric(a.drop_first(), b.drop_first());
    }
}

pub proof fn lemma_lex_transitive(a: Seq<char>, b: Seq<char>, c: Seq<char>)
    requires
        lex_lt(a, b),
        lex_lt(b, c),
    ensures
        lex_lt(a, c),
    decreases a.len(),
{
    if a.len() > 0 && b.len() > 0 && c.len() > 0 && a[0] == b[0] && b[0] == c[0] {
        lemma_lex_transitive(a.drop_first(), b.drop_first(), c.drop_first());
    }
}

pub proof fn lemma_lex_total(a: Seq<char>, b: Seq<char>)
    requires
        a != b,
    ensures
        lex_lt(a, b) || lex_lt(b, a),
    decreases a.len(),
{
    if a.len() > 0 && b.len() > 0 && a[0] == b[0] {
        if a.drop_first() == b.drop_first() {
            assert(a =~= seq![a[0]] + a.drop_first());
            assert(b =~= seq![b[0]] + b.drop_first());
        }
        lemma_lex_total(a.drop_first(), b.drop_first());
    } else if a.len() == 0 && b.len() == 0 {
        assert(a =~= b);
    }
}

/// Two strictly sorted sequences that hold the same elements are equal.
pub proof fn lemma_sorted_unique(s: Seq<Seq<char>>, t: Seq<Seq<char>>)
    requires
        strictly_sorted(s),
        strictly_sorted(t),
        s.to_set() == t.to_set(),
    ensures
        s == t,
    decreases s.len(),
{
    if s.len() == 0 {
        if t.len() > 0 {
            assert(t.to_set().contains(t[0]));
            assert(!s.to_set().contains(t[0]));
        }
        assert(s =~= t);
    } else if t.len() == 0 {
        assert(s.to_set().contains(s[0]));
        assert(!t.to_set().contains(s[0]));
    } else {
        // the last elements are the greatest ones, so they agree
        let x = s.last();
        let y = t.last();
        assert(s.to_set().contains(x));
        assert(t.to_set().contains(y));
        assert(t.contains(x));
        assert(s.contains(y));
        let i = choose|i: int| 0 <= i < t.len() && t[i] == x;
        let j = choose|j: int| 0 <= j < s.len() && s[j] == y;
        if x != y {
            assert(i != t.len() - 1);
            assert(j != s.len() - 1);
            assert(lex_lt(t[i], t[t.len() - 1]));
            assert(lex_lt(s[j], s[s.len() - 1]));
            lemma_lex_asymmetric(x, y);
            assert(false);
        }
        let s2 = s.drop_last();
        let t2 = t.drop_last();
        assert forall|z: Seq<char>| s2.to_set().contains(z) implies t2.to_set().contains(z) by {
            let k = choose|k: int| 0 <= k < s2.len() && s2[k] == z;
            assert(lex_lt(s[k], s[s.len() - 1]));
            lemma_lex_irreflexive(z);
            assert(s.to_set().contains(z));
            assert(t.contains(z));
            let m = choose|m: int| 0 <= m < t.len() && t[m] == z;
            assert(m != t.len() - 1);
            assert(t2[m] == z);
        }
        assert forall|z: Seq<char>| t2.to_set().contains(z) implies s2.to_set().contains(z) by {
            let k = choose|k: int| 0 <= k < t2.len() && t2[k] == z;
            assert(lex_lt(t[k], t[t.len() - 1]));
            lemma_lex_irreflexive(z);
            assert(t.to_set().contains(z));
            assert(s.contains(z));
            let m = choose|m: int| 0 <= m < s.len() && s[m] == z;
            assert(m != s.len() - 1);
            assert(s2[m] == z);
        }
        assert(s2.to_set() =~= t2.to_set());
        lemma_sorted_unique(s2, t2);
        assert(s =~= s2.push(x));
        assert(t =~= t2.push(y));
    }
}

/// The outcome of comparing two strings.
pub enum Comparison {
    Less,
    Equal,
    Greater,
}

/// Compares `a` with `b` in the order `lex_lt`.
pub fn compare_chars(a: &Vec<char>, b: &Vec<char>) -> (res: Comparison)
    ensures
        res is Less <==> lex_lt(a@, b@),
        res is Equal <==> a@ == b@,
        res is Greater <==> lex_lt(b@, a@),
{
    let mut i: usize = 0;
    proof {
        assert(a@.skip(0) =~= a@);
        assert(b@.skip(0) =~= b@);
    }
    while i < a.len() && i < b.len() && a[i] == b[i]
        invariant
            i <= a@.len(),
            i <= b@.len(),
            a@.take(i as int) == b@.take(i as int),
            lex_lt(a@, b@) == lex_lt(a@.skip(i as int), b@.skip(i as int)),
            lex_lt(b@, a@) == lex_lt(b@.skip(i as int), a@.skip(i as int)),
        decreases a@.len() - i,
    {
        assert(a@.skip(i as int).drop_first() =~= a@.skip(i + 1));
        assert(b@.skip(i as int).drop_first() =~= b@.skip(i + 1));
        assert(a@.take(i + 1) =~= a@.take(i as int).push(a@[i as int]));
        assert(b@.take(i + 1) =~= b@.take(i as int).push(b@[i as int]));
        i = i + 1;
    }
    let ghost sa = a@.skip(i as int);
    let ghost sb = b@.skip(i as int);
    if i == a.len() && i == b.len() {
        assert(a@ =~= a@.take(i as int));
        assert(b@ =~= b@.take(i as int));
        proof {
            lemma_lex_irreflexive(a@);
        }
        Comparison::Equal
    } else if i == a.len() {
        assert(sa.len() == 0 && sb.len() > 0);
        assert(a@.len() != b@.len());
        Comparison::Less
    } else if i == b.len() {
        assert(sb.len() == 0 && sa.len() > 0);
        assert(a@.len() != b@.len());
        Comparison::Greater
    } else {
        let ca = a[i];
        let cb = b[i];
        assert(sa[0] == ca && sb[0] == cb);
        assert(ca != cb);
        assert(a@[i as int] != b@[i as int]);
        if ca < cb {
            assert((ca as int) < (cb as int));
            Comparison::Less
        } else {
            assert((cb as int) < (ca as int));
            Comparison::Greater
        }
    }
}

/// Adds `x` to the sorted duplicate-free list `v`, keeping it sorted and
/// duplicate-free (what inserting into an ordered set does).
pub fn insert_sorted(v: &mut Vec<Vec<char>>, x: Vec<char>)
    requires
        strictly_sorted(char_views(old(v)@)),
    ensures
        strictly_sorted(char_views(final(v)@)),
        char_views(final(v)@).to_set() == char_views(old(v)@).to_set().insert(x@),
{
    let ghost xs = x@;
    let mut i: usize = 0;
    let mut found = false;
    while i < v.len()
        invariant_except_break
            i <= v@.len(),
            forall|k: int| 0 <= k < i ==> lex_lt(#[trigger] char_views(v@)[k], xs),
            strictly_sorted(char_views(v@)),
            x@ == xs,
            !found,
        ensures
            i <= v@.len(),
            forall|k: int| 0 <= k < i ==> lex_lt(#[trigger] char_views(v@)[k], xs),
            strictly_sorted(char_views(v@)),
            x@ == xs,
            found ==> i < v@.len() && char_views(v@)[i as int] == xs,
            !found && i < v@.len() ==> lex_lt(xs, char_views(v@)[i as int]),
        decreases v@.len() - i,
    {
        match compare_chars(&v[i], &x) {
            Comparison::Less => {
                i = i + 1;
            },
            Comparison::Equal => {
                found = true;
                break ;
            },
            Comparison::Greater => {
                break ;
            },
        }
    }
    let ghost old_views = char_views(v@);
    if found {
        assert(old_views.to_set().insert(xs) =~= old_views.to_set());
    } else {
        v.insert(i, x);
        let ghost new_views = char_views(v@);
        assert(new_views =~= old_views.insert(i as int, xs));
        assert forall|a: int, b: int| 0 <= a < b < new_views.len() implies lex_lt(
            #[trigger] new_views[a],
            #[trigger] new_views[b],
        ) by {
            if b < i {
            } else if b == i {
            } else if a < i {
                assert(new_views[b] == old_views[b - 1]);
                if b - 1 > i {
                    assert(lex_lt(old_views[i as int], old_views[b - 1]));
                    lemma_lex_transitive(xs, old_views[i as int], old_views[b - 1]);
                }
                lemma_lex_transitive(new_views[a], xs, new_views[b]);
            } else if a == i {
                assert(new_views[b] == old_views[b - 1]);
                if b - 1 > i {
                    assert(lex_lt(old_views[i as int], old_views[b - 1]));
                    lemma_lex_transitive(xs, old_views[i as int], old_views[b - 1]);
                }
            } else {
                assert(new_views[a] == old_views[a - 1]);
                assert(new_views[b] == old_views[b - 1]);
            }
        }
        assert forall|z: Seq<char>| new_views.to_set().contains(z) <==> old_views.to_set().insert(
            xs,
        ).contains(z) by {
            if new_views.contains(z) {
                let k = choose|k: int| 0 <= k < new_views.len() && new_views[k] == z;
                if k < i {
                    assert(old_views[k] == z);
                } else if k > i {
                    assert(old_views[k - 1] == z);
                }
            }
            if old_views.contains(z) {
                let k = choose|k: int| 0 <= k < old_views.len() && old_views[k] == z;
                if k < i {
                    assert(new_views[k] == z);
                } else {
                    assert(new_views[k + 1] == z);
                }
            }
            if z == xs {
                assert(new_views[i as int] == z);
            }
        }
        assert(new_views.to_set() =~= old_views.to_set().insert(xs));
    }
}

/// The elements of `set`, in ascending order, each once.
pub open spec fn sorted_elements(set: Set<Seq<char>>) -> Seq<Seq<char>> {
    choose|s: Seq<Seq<char>>| strictly_sorted(s) && s.to_set() == set
}

/// A strictly sorted sequence is the sorted list of its elements.
pub proof fn lemma_sorted_elements(s: Seq<Seq<char>>, set: Set<Seq<char>>)
    requires
        strictly_sorted(s),
        s.to_set() == set,
    ensures
        sorted_elements(set) == s,
{
    assert(strictly_sorted(s) && s.to_set() == set);
    let t = sorted_elements(set);
    lemma_sorted_unique(t, s);
}

/// Inserts every element of `items` into the sorted duplicate-free list `v`.
pub fn insert_all_sorted(v: &mut Vec<Vec<char>>, items: &Vec<Vec<char>>)
    requires
        strictly_sorted(char_views(old(v)@)),
    ensures
        strictly_sorted(char_views(final(v)@)),
        char_views(final(v)@).to_set() == char_views(old(v)@).to_set() + char_views(
            items@,
        ).to_set(),
{
    let ghost start = char_views(v@).to_set();
    let mut i: usize = 0;
    assert(char_views(items@).take(0).to_set() =~= Set::<Seq<char>>::empty());
    assert(start + Set::<Seq<char>>::empty() =~= start);
    while i < items.len()
        invariant
            i <= items@.len(),
            strictly_sorted(char_views(v@)),
            char_views(v@).to_set() == start + char_views(items@).take(i as int).to_set(),
        decreases items@.len() - i,
    {
        let x = items[i].clone();
        insert_sorted(v, x);
        let ghost pre = char_views(items@).take(i as int);
        let ghost post = char_views(items@).take(i + 1);
        let ghost last = items@[i as int]@;
        assert(post =~= pre.push(last));
        assert forall|z: Seq<char>| post.contains(z) <==> (pre.contains(z) || z == last) by {
            if post.contains(z) {
                let k = choose|k: int| 0 <= k < post.len() && post[k] == z;
                if k < pre.len() {
                    assert(pre[k] == z);
                }
            }
            if pre.contains(z) {
                let k = choose|k: int| 0 <= k < pre.len() && pre[k] == z;
                assert(post[k] == z);
            }
            if z == last {
                assert(post[i as int] == z);
            }
        }
        assert(post.to_set() =~= pre.to_set().insert(last));
        assert(char_views(v@).to_set() =~= start + char_views(items@).take(i + 1).to_set());
        i = i + 1;
    }
    assert(char_views(items@).take(items@.len() as int) =~= char_views(items@));
}

} // verus!
