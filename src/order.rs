//! The order of providers by name.

use vstd::prelude::*;
use vstd::string::StrSliceExecFns;
use crate::provider::ProviderView;

verus! {

/// Lexicographic order on names, character by character: `a` sorts strictly before `b`.
pub open spec fn name_lt(a: Seq<char>, b: Seq<char>) -> bool
    decreases a.len(),
{
    if a.len() == 0 {
        b.len() > 0
    } else if b.len() == 0 {
        false
    } else if a[0] != b[0] {
        (a[0] as u32) < (b[0] as u32)
    } else {
        name_lt(a.drop_first(), b.drop_first())
    }
}

/// Whether the name `a` sorts strictly before the name `b`.
pub fn name_less(a: &str, b: &str) -> (r: bool)
    ensures
        r == name_lt(a@, b@),
{
    let n = a.unicode_len();
    let m = b.unicode_len();
    let mut i: usize = 0;
    assert(a@.skip(0) =~= a@);
    assert(b@.skip(0) =~= b@);
    while i < n && i < m
        invariant
            n == a@.len(),
            m == b@.len(),
            i <= n,
            i <= m,
            name_lt(a@, b@) == name_lt(a@.skip(i as int), b@.skip(i as int)),
        decreases n - i,
    {
        let x = a.get_char(i);
        let y = b.get_char(i);
        assert(a@.skip(i as int)[0] == x);
        assert(b@.skip(i as int)[0] == y);
        if x != y {
            return (x as u32) < (y as u32);
        }
        assert(a@.skip(i as int).drop_first() =~= a@.skip(i + 1));
        assert(b@.skip(i as int).drop_first() =~= b@.skip(i + 1));
        i = i + 1;
    }
    i == n && i < m
}

/// `p` inserted into `s` after every provider whose name does not sort after its own.
pub open spec fn insert_by_name(s: Seq<ProviderView>, p: ProviderView) -> Seq<ProviderView>
    decreases s.len(),
{
    if s.len() == 0 {
        seq![p]
    } else if name_lt(p.name, s.last().name) {
        insert_by_name(s.drop_last(), p).push(s.last())
    } else {
        s.push(p)
    }
}

/// The providers ordered by name; providers of equal names keep their order.
pub open spec fn sort_by_name(s: Seq<ProviderView>) -> Seq<ProviderView>
    decreases s.len(),
{
    if s.len() == 0 {
        s
    } else {
        insert_by_name(sort_by_name(s.drop_last()), s.last())
    }
}

/// No provider of `s` has a name that sorts before that of an earlier one.
pub open spec fn sorted_by_name(s: Seq<ProviderView>) -> bool {
    forall|i: int, j: int| 0 <= i < j < s.len() ==> !name_lt(#[trigger] s[j].name, #[trigger] s[i].name)
}

/// Inserting at position `j`, where the names before do not sort after `p`'s
/// and all from `j` on do, is what `insert_by_name` does.
pub proof fn lemma_insert_at(s: Seq<ProviderView>, p: ProviderView, j: int)
    requires
        0 <= j <= s.len(),
        forall|k: int| j <= k < s.len() ==> name_lt(p.name, #[trigger] s[k].name),
        j == 0 || !name_lt(p.name, s[j - 1].name),
    ensures
        insert_by_name(s, p) == s.insert(j, p),
    decreases s.len(),
{
    if s.len() == 0 {
        assert(s.insert(j, p) =~= seq![p]);
    } else if j == s.len() {
        assert(s.insert(j, p) =~= s.push(p));
    } else {
        assert(name_lt(p.name, s.last().name));
        lemma_insert_at(s.drop_last(), p, j);
        assert(s.drop_last().insert(j, p).push(s.last()) =~= s.insert(j, p));
    }
}

/// No name sorts strictly before itself.
pub proof fn lemma_name_lt_irreflexive(a: Seq<char>)
    ensures
        !name_lt(a, a),
    decreases a.len(),
{
    if a.len() > 0 {
        lemma_name_lt_irreflexive(a.drop_first());
    }
}

/// Of two names, at most one sorts strictly before the other.
pub proof fn lemma_name_lt_asymmetric(a: Seq<char>, b: Seq<char>)
    ensures
        !(name_lt(a, b) && name_lt(b, a)),
    decreases a.len(),
{
    if a.len() > 0 && b.len() > 0 && a[0] == b[0] {
        lemma_name_lt_asymmetric(a.drop_first(), b.drop_first());
    }
}

/// Different characters have different codes.
proof fn lemma_char_code_injective(x: char, y: char)
    requires
        x != y,
    ensures
        x as u32 != y as u32,
{
}

/// Two different names are ordered one way or the other.
pub proof fn lemma_name_lt_total(a: Seq<char>, b: Seq<char>)
    ensures
        a == b || name_lt(a, b) || name_lt(b, a),
    decreases a.len(),
{
    if a.len() == 0 {
        if b.len() == 0 {
            assert(a =~= b);
        }
    } else if b.len() > 0 {
        if a[0] != b[0] {
            lemma_char_code_injective(a[0], b[0]);
        } else {
            lemma_name_lt_total(a.drop_first(), b.drop_first());
            if a.drop_first() == b.drop_first() {
                assert(a.len() == a.drop_first().len() + 1);
                assert(b.len() == b.drop_first().len() + 1);
                assert forall|i: int| 0 <= i < a.len() implies a[i] == b[i] by {
                    if i > 0 {
                        assert(a[i] == a.drop_first()[i - 1]);
                        assert(b[i] == b.drop_first()[i - 1]);
                    }
                }
                assert(a =~= b);
            }
        }
    }
}

/// The strict order on names is transitive.
pub proof fn lemma_name_lt_transitive(a: Seq<char>, b: Seq<char>, c: Seq<char>)
    requires
        name_lt(a, b),
        name_lt(b, c),
    ensures
        name_lt(a, c),
    decreases a.len(),
{
    if a.len() > 0 && a[0] == b[0] && b[0] == c[0] {
        lemma_name_lt_transitive(a.drop_first(), b.drop_first(), c.drop_first());
    }
}

/// Inserting adds exactly the one provider.
pub proof fn lemma_insert_contents(s: Seq<ProviderView>, p: ProviderView)
    ensures
        insert_by_name(s, p).to_multiset() == s.to_multiset().insert(p),
    decreases s.len(),
{
    broadcast use vstd::seq_lib::group_to_multiset_ensures;

    if s.len() == 0 {
        assert(seq![p] =~= s.push(p));
    } else if name_lt(p.name, s.last().name) {
        lemma_insert_contents(s.drop_last(), p);
        assert(s.drop_last().push(s.last()) =~= s);
        assert(insert_by_name(s, p).to_multiset() =~= s.to_multiset().insert(p));
    }
}

/// Inserting into a sequence ordered by name keeps it ordered.
pub proof fn lemma_insert_sorted(s: Seq<ProviderView>, p: ProviderView)
    requires
        sorted_by_name(s),
    ensures
        sorted_by_name(insert_by_name(s, p)),
    decreases s.len(),
{
    broadcast use vstd::seq_lib::group_to_multiset_ensures;

    let r = insert_by_name(s, p);
    if s.len() == 0 {
    } else if name_lt(p.name, s.last().name) {
        let dl = s.drop_last();
        let last = s.last();
        let q = insert_by_name(dl, p);
        assert(sorted_by_name(dl)) by {
            assert forall|i: int, j: int| 0 <= i < j < dl.len() implies !name_lt(#[trigger] dl[j].name, #[trigger] dl[i].name) by {
                assert(dl[i] == s[i] && dl[j] == s[j]);
            }
        }
        lemma_insert_sorted(dl, p);
        lemma_insert_contents(dl, p);
        assert forall|i: int, j: int| 0 <= i < j < r.len() implies !name_lt(#[trigger] r[j].name, #[trigger] r[i].name) by {
            if j == r.len() - 1 {
                let x = q[i];
                assert(q.to_multiset().count(x) > 0);
                if x == p {
                    lemma_name_lt_asymmetric(p.name, last.name);
                } else {
                    assert(dl.to_multiset().count(x) > 0);
                    let k = choose|k: int| 0 <= k < dl.len() && dl[k] == x;
                    assert(s[k] == x && s[s.len() - 1] == last);
                }
            } else {
                assert(r[i] == q[i] && r[j] == q[j]);
            }
        }
    } else {
        let last = s.last();
        assert forall|i: int, j: int| 0 <= i < j < r.len() implies !name_lt(#[trigger] r[j].name, #[trigger] r[i].name) by {
            if j == r.len() - 1 {
                let x = s[i];
                assert(r[i] == x && r[j] == p);
                if name_lt(p.name, x.name) {
                    if i < s.len() - 1 {
                        assert(!name_lt(s[s.len() - 1].name, s[i].name));
                    } else {
                        lemma_name_lt_irreflexive(x.name);
                    }
                    lemma_name_lt_total(last.name, p.name);
                    if last.name != p.name {
                        lemma_name_lt_transitive(last.name, p.name, x.name);
                    }
                }
            } else {
                assert(r[i] == s[i] && r[j] == s[j]);
            }
        }
    }
}

/// Sorting by name orders the providers by name and keeps each of them.
pub proof fn lemma_sort_by_name(s: Seq<ProviderView>)
    ensures
        sorted_by_name(sort_by_name(s)),
        sort_by_name(s).to_multiset() == s.to_multiset(),
    decreases s.len(),
{
    broadcast use vstd::seq_lib::group_to_multiset_ensures;

    if s.len() > 0 {
        lemma_sort_by_name(s.drop_last());
        lemma_insert_sorted(sort_by_name(s.drop_last()), s.last());
        lemma_insert_contents(sort_by_name(s.drop_last()), s.last());
        assert(s.drop_last().push(s.last()) =~= s);
    }
}

/// Where no two different providers share a name, two sequences ordered by
/// name that hold the same providers are equal.
pub proof fn lemma_sorted_unique(s1: Seq<ProviderView>, s2: Seq<ProviderView>)
    requires
        sorted_by_name(s1),
        sorted_by_name(s2),
        s1.to_multiset() == s2.to_multiset(),
        forall|x: ProviderView, y: ProviderView|
            s1.contains(x) && s1.contains(y) && x.name == y.name ==> x == y,
    ensures
        s1 == s2,
    decreases s1.len(),
{
    broadcast use vstd::seq_lib::group_to_multiset_ensures;

    if s1.len() == 0 {
        assert(s2.to_multiset().len() == 0);
        assert(s1 =~= s2);
    } else {
        let n1 = s1.len() - 1;
        let n2 = s2.len() - 1;
        let x1 = s1[n1];
        let x2 = s2[n2];
        assert(s1.to_multiset().count(x1) > 0);
        assert(s2.contains(x1));
        let k2 = choose|k: int| 0 <= k < s2.len() && s2[k] == x1;
        assert(s2.to_multiset().count(x2) > 0);
        assert(s1.contains(x2));
        let k1 = choose|k: int| 0 <= k < s1.len() && s1[k] == x2;
        if k2 < n2 {
            assert(!name_lt(s2[n2].name, s2[k2].name));
        } else {
            lemma_name_lt_irreflexive(x1.name);
        }
        if k1 < n1 {
            assert(!name_lt(s1[n1].name, s1[k1].name));
        } else {
            lemma_name_lt_irreflexive(x2.name);
        }
        lemma_name_lt_total(x1.name, x2.name);
        assert(x1 == x2);
        let d1 = s1.drop_last();
        let d2 = s2.drop_last();
        assert(d1 =~= s1.remove(n1));
        assert(d2 =~= s2.remove(n2));
        assert(sorted_by_name(d1)) by {
            assert forall|i: int, j: int| 0 <= i < j < d1.len() implies !name_lt(#[trigger] d1[j].name, #[trigger] d1[i].name) by {
                assert(d1[i] == s1[i] && d1[j] == s1[j]);
            }
        }
        assert(sorted_by_name(d2)) by {
            assert forall|i: int, j: int| 0 <= i < j < d2.len() implies !name_lt(#[trigger] d2[j].name, #[trigger] d2[i].name) by {
                assert(d2[i] == s2[i] && d2[j] == s2[j]);
            }
        }
        assert forall|x: ProviderView, y: ProviderView|
            d1.contains(x) && d1.contains(y) && x.name == y.name implies x == y by {
            let i = choose|i: int| 0 <= i < d1.len() && d1[i] == x;
            let j = choose|j: int| 0 <= j < d1.len() && d1[j] == y;
            assert(s1[i] == x && s1[j] == y);
            assert(s1.contains(x) && s1.contains(y));
        }
        lemma_sorted_unique(d1, d2);
        assert(s1 =~= d1.push(x1));
        assert(s2 =~= d2.push(x2));
    }
}

} // verus!
