use vstd::prelude::*;

use crate::names::{chars_le, lemma_chars_le_total, lemma_chars_le_trans, str_le};

verus! {

/// Items ordered by a name.
pub trait Keyed {
    spec fn key(&self) -> Seq<char>;

    fn key_str(&self) -> (r: &str)
        ensures
            r@ == self.key(),
    ;
}

/// `x` inserted into `s` after the last item whose name is not greater.
pub open spec fn insert_sorted<T: Keyed>(s: Seq<T>, x: T) -> Seq<T>
    decreases s.len(),
{
    if s.len() == 0 {
        seq![x]
    } else if chars_le(s.last().key(), x.key()) {
        s.push(x)
    } else {
        insert_sorted(s.drop_last(), x).push(s.last())
    }
}

/// `s` ordered by name; items with equal names keep their order.
pub open spec fn sort_by_key<T: Keyed>(s: Seq<T>) -> Seq<T>
    decreases s.len(),
{
    if s.len() == 0 {
        s
    } else {
        insert_sorted(sort_by_key(s.drop_last()), s.last())
    }
}

/// The names of `s` do not decrease.
pub open spec fn is_sorted<T: Keyed>(s: Seq<T>) -> bool {
    forall|i: int, j: int| 0 <= i < j < s.len() ==> chars_le(#[trigger] s[i].key(), #[trigger] s[j].key())
}

proof fn lemma_insert_sorted<T: Keyed>(s: Seq<T>, x: T)
    requires
        is_sorted(s),
    ensures
        is_sorted(insert_sorted(s, x)),
        insert_sorted(s, x).len() == s.len() + 1,
        forall|i: int| 0 <= i < insert_sorted(s, x).len() ==> #[trigger] insert_sorted(s, x)[i] == x
            || s.contains(insert_sorted(s, x)[i]),
    decreases s.len(),
{
    if s.len() == 0 {
    } else if chars_le(s.last().key(), x.key()) {
        let r = s.push(x);
        assert forall|i: int, j: int| 0 <= i < j < r.len() implies chars_le(
            #[trigger] r[i].key(),
            #[trigger] r[j].key(),
        ) by {
            if j == s.len() {
                if i < s.len() - 1 {
                    lemma_chars_le_trans(s[i].key(), s.last().key(), x.key());
                }
            }
        }
        assert forall|i: int| 0 <= i < r.len() implies #[trigger] r[i] == x || s.contains(r[i]) by {
            if i < s.len() {
                assert(s[i] == r[i]);
            }
        }
    } else {
        let t = s.drop_last();
        assert(is_sorted(t)) by {
            assert forall|i: int, j: int| 0 <= i < j < t.len() implies chars_le(
                #[trigger] t[i].key(),
                #[trigger] t[j].key(),
            ) by {
                assert(t[i] == s[i] && t[j] == s[j]);
            }
        }
        lemma_insert_sorted(t, x);
        let u = insert_sorted(t, x);
        let r = u.push(s.last());
        lemma_chars_le_total(s.last().key(), x.key());
        assert forall|i: int| 0 <= i < u.len() implies chars_le(#[trigger] u[i].key(), s.last().key()) by {
            if u[i] != x {
                assert(t.contains(u[i]));
                let k = choose|k: int| 0 <= k < t.len() && t[k] == u[i];
                assert(s[k] == u[i]);
                assert(chars_le(s[k].key(), s[s.len() - 1].key()));
            }
        }
        assert forall|i: int, j: int| 0 <= i < j < r.len() implies chars_le(
            #[trigger] r[i].key(),
            #[trigger] r[j].key(),
        ) by {
            if j == u.len() {
                assert(r[i] == u[i]);
            } else {
                assert(r[i] == u[i] && r[j] == u[j]);
            }
        }
        assert forall|i: int| 0 <= i < r.len() implies #[trigger] r[i] == x || s.contains(r[i]) by {
            if i < u.len() {
                if u[i] != x {
                    assert(t.contains(u[i]));
                    let k = choose|k: int| 0 <= k < t.len() && t[k] == u[i];
                    assert(s[k] == u[i]);
                }
            } else {
                assert(s[s.len() - 1] == r[i]);
            }
        }
    }
}

/// Sorting by name gives items in name order.
pub proof fn lemma_sort_is_sorted<T: Keyed>(s: Seq<T>)
    ensures
        is_sorted(sort_by_key(s)),
        sort_by_key(s).len() == s.len(),
    decreases s.len(),
{
    if s.len() > 0 {
        lemma_sort_is_sorted(s.drop_last());
        lemma_insert_sorted(sort_by_key(s.drop_last()), s.last());
    }
}

/// Items already in name order are left as they are.
pub proof fn lemma_sort_of_sorted<T: Keyed>(s: Seq<T>)
    requires
        is_sorted(s),
    ensures
        sort_by_key(s) == s,
    decreases s.len(),
{
    if s.len() > 0 {
        let t = s.drop_last();
        assert(is_sorted(t)) by {
            assert forall|i: int, j: int| 0 <= i < j < t.len() implies chars_le(
                #[trigger] t[i].key(),
                #[trigger] t[j].key(),
            ) by {
                assert(t[i] == s[i] && t[j] == s[j]);
            }
        }
        lemma_sort_of_sorted(t);
        if t.len() > 0 {
            assert(chars_le(s[t.len() - 1].key(), s[s.len() - 1].key()));
        }
        assert(t.push(s.last()) =~= s);
    }
}

/// Sorting twice sorts once.
pub proof fn lemma_sort_idempotent<T: Keyed>(s: Seq<T>)
    ensures
        sort_by_key(sort_by_key(s)) == sort_by_key(s),
{
    lemma_sort_is_sorted(s);
    lemma_sort_of_sorted(sort_by_key(s));
}

/// Inserts `x` into `v` where `insert_sorted` puts it.
fn insert_by_key<T: Keyed>(v: &mut Vec<T>, x: T)
    ensures
        final(v)@ == insert_sorted(old(v)@, x),
{
    let ghost s = v@;
    let mut j: usize = v.len();
    assert(s.take(j as int) =~= s);
    assert(s.skip(j as int) =~= Seq::<T>::empty());
    while j > 0 && !str_le(v[j - 1].key_str(), x.key_str())
        invariant
            v@ == s,
            j <= s.len(),
            insert_sorted(s, x) == insert_sorted(s.take(j as int), x) + s.skip(j as int),
        decreases j,
    {
        proof {
            let t = s.take(j as int);
            assert(t.last() == s[j - 1]);
            assert(t.drop_last() =~= s.take(j - 1));
            assert(insert_sorted(t, x) == insert_sorted(s.take(j - 1), x).push(s[j - 1]));
            assert(s.skip(j - 1) =~= seq![s[j - 1]] + s.skip(j as int));
            assert(insert_sorted(s.take(j - 1), x).push(s[j - 1]) + s.skip(j as int) =~= insert_sorted(
                s.take(j - 1),
                x,
            ) + s.skip(j - 1));
        }
        j = j - 1;
    }
    proof {
        let t = s.take(j as int);
        if j > 0 {
            assert(t.last() == s[j - 1]);
            assert(insert_sorted(t, x) == t.push(x));
        } else {
            assert(insert_sorted(t, x) == seq![x]);
            assert(t =~= Seq::<T>::empty());
        }
        assert(insert_sorted(s, x) =~= s.insert(j as int, x));
    }
    v.insert(j, x);
}

/// Orders `v` by name; items with equal names keep their order.
pub fn sort_by_name<T: Keyed>(v: Vec<T>) -> (r: Vec<T>)
    ensures
        r@ == sort_by_key(v@),
{
    let ghost s = v@;
    let mut rest = v;
    let mut out: Vec<T> = Vec::new();
    let mut i: usize = 0;
    assert(s.take(0) =~= Seq::<T>::empty());
    assert(s.skip(0) =~= s);
    assert(s.len() == rest.len());
    while rest.len() > 0
        invariant
            s.len() <= usize::MAX,
            i + rest@.len() == s.len(),
            rest@ == s.skip(i as int),
            out@ == sort_by_key(s.take(i as int)),
        decreases rest.len(),
    {
        let x = rest.remove(0);
        proof {
            assert(x == s[i as int]);
            assert(s.take(i + 1).drop_last() =~= s.take(i as int));
            assert(s.take(i + 1).last() == x);
            assert(rest@ =~= s.skip(i + 1));
        }
        insert_by_key(&mut out, x);
        i = i + 1;
    }
    assert(s.take(i as int) =~= s);
    out
}

} // verus!
