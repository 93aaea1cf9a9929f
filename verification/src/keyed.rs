//! Sequences of identifier-keyed nodes, abstracted as maps.
//!
//! Each store level (projects, band structures, Fermi surfaces) keeps its
//! entries in a vector whose elements carry their own identifier. Under the
//! invariant that those identifiers are distinct, such a sequence abstracts
//! to a map from identifier to node view; the lemmas here relate the vector
//! operations the stores perform to the corresponding map operations.

use vstd::prelude::*;

verus! {

/// A node that carries its own identifier and abstracts to a view.
pub trait KeyedView: View {
    /// The identifier under which the node is filed.
    spec fn key(&self) -> Seq<char>;
}

/// No two nodes of the sequence share an identifier.
pub open spec fn distinct_keys<T: KeyedView>(s: Seq<T>) -> bool {
    forall|i: int, j: int| 0 <= i < j < s.len() ==> s[i].key() != s[j].key()
}

/// The map a keyed sequence abstracts to: each identifier to its node's view.
/// Later entries shadow earlier ones, which is immaterial under
/// `distinct_keys`.
pub open spec fn key_map<T: KeyedView>(s: Seq<T>) -> Map<Seq<char>, T::V>
    decreases s.len(),
{
    if s.len() == 0 {
        Map::empty()
    } else {
        key_map(s.drop_last()).insert(s.last().key(), s.last()@)
    }
}

/// An identifier is in the abstract map exactly when some node carries it.
pub proof fn lemma_key_map_dom<T: KeyedView>(s: Seq<T>)
    ensures
        forall|k: Seq<char>|
            #[trigger] key_map(s).dom().contains(k) <==> (exists|i: int|
                0 <= i < s.len() && s[i].key() == k),
    decreases s.len(),
{
    if s.len() > 0 {
        lemma_key_map_dom(s.drop_last());
        assert forall|k: Seq<char>| #[trigger]
            key_map(s).dom().contains(k) implies (exists|i: int|
            0 <= i < s.len() && s[i].key() == k) by {
            if k == s.last().key() {
                assert(s[s.len() - 1].key() == k);
            } else {
                assert(key_map(s.drop_last()).dom().contains(k));
                let i = choose|i: int| 0 <= i < s.drop_last().len() && s.drop_last()[i].key() == k;
                assert(s.drop_last()[i] == s[i]);
                assert(s[i].key() == k);
            }
        }
        assert forall|k: Seq<char>| (exists|i: int|
            0 <= i < s.len() && s[i].key() == k) implies #[trigger]
            key_map(s).dom().contains(k) by {
            let i = choose|i: int| 0 <= i < s.len() && s[i].key() == k;
            if i < s.len() - 1 {
                assert(s.drop_last()[i] == s[i]);
                assert(exists|j: int|
                    0 <= j < s.drop_last().len() && s.drop_last()[j].key() == k);
                assert(key_map(s.drop_last()).dom().contains(k));
            } else {
                assert(k == s.last().key());
            }
        }
    }
}

/// Under distinct identifiers, the abstract map sends each node's
/// identifier to that node's view.
pub proof fn lemma_key_map_get<T: KeyedView>(s: Seq<T>, i: int)
    requires
        distinct_keys(s),
        0 <= i < s.len(),
    ensures
        key_map(s).dom().contains(s[i].key()),
        key_map(s)[s[i].key()] == s[i]@,
    decreases s.len(),
{
    if i == s.len() - 1 {
    } else {
        assert(distinct_keys(s.drop_last()));
        assert(s.drop_last()[i] == s[i]);
        lemma_key_map_get(s.drop_last(), i);
        assert(s[i].key() != s.last().key());
    }
}

/// Appending a node inserts its view under its identifier.
pub proof fn lemma_key_map_push<T: KeyedView>(s: Seq<T>, t: T)
    ensures
        key_map(s.push(t)) == key_map(s).insert(t.key(), t@),
{
    assert(s.push(t).drop_last() =~= s);
    assert(s.push(t).last() == t);
}

/// Removing a node removes its identifier from the map.
pub proof fn lemma_key_map_remove<T: KeyedView>(s: Seq<T>, i: int)
    requires
        distinct_keys(s),
        0 <= i < s.len(),
    ensures
        key_map(s.remove(i)) =~= key_map(s).remove(s[i].key()),
    decreases s.len(),
{
    let k = s[i].key();
    if i == s.len() - 1 {
        assert(s.remove(i) =~= s.drop_last());
        lemma_key_map_dom(s.drop_last());
        assert forall|j: int| 0 <= j < s.drop_last().len() implies s.drop_last()[j].key() != k by {
            assert(s[j].key() != s[s.len() - 1].key());
        }
        assert(!key_map(s.drop_last()).dom().contains(k));
        assert(key_map(s.drop_last()).remove(k) =~= key_map(s.drop_last()));
    } else {
        assert(distinct_keys(s.drop_last()));
        assert(s.drop_last()[i] == s[i]);
        lemma_key_map_remove(s.drop_last(), i);
        assert(s.remove(i).drop_last() =~= s.drop_last().remove(i));
        assert(s.remove(i).last() == s.last());
        assert(k != s.last().key());
    }
}

/// Taking a node out and appending a replacement with the same identifier
/// updates the map at that identifier and keeps the identifiers distinct.
pub proof fn lemma_key_map_replace<T: KeyedView>(s: Seq<T>, i: int, t: T)
    requires
        distinct_keys(s),
        0 <= i < s.len(),
        t.key() == s[i].key(),
    ensures
        distinct_keys(s.remove(i).push(t)),
        key_map(s.remove(i).push(t)) =~= key_map(s).insert(t.key(), t@),
{
    let r = s.remove(i);
    lemma_key_map_remove(s, i);
    lemma_distinct_remove(s, i);
    assert forall|j: int| 0 <= j < r.len() implies r[j].key() != t.key() by {
        if j < i {
            assert(r[j] == s[j]);
        } else {
            assert(r[j] == s[j + 1]);
        }
    }
    lemma_key_map_push(r, t);
    lemma_distinct_push(r, t);
    lemma_key_map_dom(s);
}

/// Distinctness survives removing a node.
pub proof fn lemma_distinct_remove<T: KeyedView>(s: Seq<T>, i: int)
    requires
        distinct_keys(s),
        0 <= i < s.len(),
    ensures
        distinct_keys(s.remove(i)),
{
    let r = s.remove(i);
    assert forall|a: int, b: int| 0 <= a < b < r.len() implies r[a].key() != r[b].key() by {
        let a0 = if a < i { a } else { a + 1 };
        let b0 = if b < i { b } else { b + 1 };
        assert(r[a] == s[a0]);
        assert(r[b] == s[b0]);
    }
}

/// Distinctness survives appending a node with a fresh identifier.
pub proof fn lemma_distinct_push<T: KeyedView>(s: Seq<T>, t: T)
    requires
        distinct_keys(s),
        forall|i: int| 0 <= i < s.len() ==> s[i].key() != t.key(),
    ensures
        distinct_keys(s.push(t)),
{
}

/// Inserting an element anywhere in a sequence inserts it into the
/// sequence's multiset.
pub proof fn lemma_to_multiset_insert<A>(s: Seq<A>, i: int, a: A)
    requires
        0 <= i <= s.len(),
    ensures
        s.insert(i, a).to_multiset() =~= s.to_multiset().insert(a),
{
    broadcast use vstd::seq_lib::group_to_multiset_ensures;

    let t = s.insert(i, a);
    assert(t.remove(i) =~= s);
    assert(t[i] == a);
    assert(t.contains(a));
    assert(s.to_multiset() =~= t.to_multiset().remove(a));
    assert forall|x: A| t.to_multiset().count(x) == s.to_multiset().insert(a).count(x) by {
        broadcast use vstd::multiset::group_multiset_axioms;

        if x == a {
            assert(t.to_multiset().count(a) > 0);
        }
    }
}

} // verus!
