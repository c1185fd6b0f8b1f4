//! Small sequence facts shared by the project and scheduler proofs.

use vstd::prelude::*;

verus! {

broadcast use vstd::seq_lib::group_seq_properties;

/// Dropping the first element keeps a sequence duplicate-free.
pub proof fn lemma_skip_keeps_no_duplicates<A>(s: Seq<A>)
    requires
        s.no_duplicates(),
        s.len() > 0,
    ensures
        s.skip(1).no_duplicates(),
{
    assert forall|i: int, j: int|
        0 <= i < j < s.skip(1).len() implies s.skip(1)[i] != s.skip(1)[j] by {
        assert(s.skip(1)[i] == s[i + 1]);
        assert(s.skip(1)[j] == s[j + 1]);
    }
}

/// Pushing a fresh element keeps a sequence duplicate-free.
pub proof fn lemma_push_keeps_no_duplicates<A>(s: Seq<A>, f: A)
    requires
        s.no_duplicates(),
        !s.contains(f),
    ensures
        s.push(f).no_duplicates(),
{
    assert forall|i: int, j: int|
        0 <= i < j < s.push(f).len() implies s.push(f)[i] != s.push(f)[j] by {
        if j < s.len() {
        } else {
            assert(s.push(f)[j] == f);
            assert(s.contains(s[i])) by {
                assert(s[i] == s[i]);
            }
        }
    }
}

/// Removing the (unique) occurrence of `f` at index `i` from a
/// duplicate-free sequence: the remainder is duplicate-free, one shorter,
/// and contains exactly the other elements.
pub proof fn lemma_remove_at_unique<A>(s: Seq<A>, i: int, f: A)
    requires
        s.no_duplicates(),
        0 <= i < s.len(),
        s[i] == f,
    ensures
        s.remove(i).no_duplicates(),
        s.remove(i).len() == s.len() - 1,
        forall|g: A| #[trigger] s.remove(i).contains(g) <==> (s.contains(g) && g != f),
        s.remove(i).to_set() == s.to_set().remove(f),
{
    let t = s.remove(i);
    assert forall|g: A| #[trigger] t.contains(g) implies s.contains(g) && g != f by {
        let k = choose|k: int| 0 <= k < t.len() && t[k] == g;
        if k < i {
            assert(s[k] == g);
            if g == f {
                assert(s[k] == s[i]);
            }
        } else {
            assert(s[k + 1] == g);
            if g == f {
                assert(s[k + 1] == s[i]);
            }
        }
    }
    assert forall|g: A| s.contains(g) && g != f implies #[trigger] t.contains(g) by {
        let k = choose|k: int| 0 <= k < s.len() && s[k] == g;
        if k < i {
            assert(t[k] == g);
        } else {
            assert(k != i);
            assert(t[k - 1] == g);
        }
    }
    assert forall|a: int, b: int| 0 <= a < b < t.len() implies t[a] != t[b] by {
        let sa: int = if a < i {
            a
        } else {
            a + 1
        };
        let sb: int = if b < i {
            b
        } else {
            b + 1
        };
        assert(t[a] == s[sa]);
        assert(t[b] == s[sb]);
    }
    assert(t.to_set() =~= s.to_set().remove(f)) by {
        assert forall|g: A| #[trigger] t.to_set().contains(g) implies s.to_set().remove(f).contains(
            g,
        ) by {
            assert(t.contains(g));
        }
        assert forall|g: A| #[trigger] s.to_set().remove(f).contains(g) implies t.to_set().contains(
            g,
        ) by {
            assert(s.contains(g) && g != f);
        }
    }
}

/// Removing an element and inserting another at the same index is an
/// update.
pub proof fn lemma_remove_insert_is_update<A>(s: Seq<A>, i: int, v: A)
    requires
        0 <= i < s.len(),
    ensures
        s.remove(i).insert(i, v) == s.update(i, v),
{
    assert(s.remove(i).insert(i, v) =~= s.update(i, v));
}

} // verus!
