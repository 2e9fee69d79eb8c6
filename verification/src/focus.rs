//! Focus-order lists. Every container keeps the ids of its children
//! ordered most-recently-focused first; recording focus means promoting
//! an id to the front of each ancestor's list. Promotion permutes the
//! list and never invents or loses an id.

use vstd::prelude::*;
use vstd::multiset::Multiset;

verus! {

/// The list with the first occurrence of `id` removed.
pub open spec fn remove_first_id(s: Seq<u64>, id: u64) -> Seq<u64>
    decreases s.len(),
{
    if s.len() == 0 {
        s
    } else if s.first() == id {
        s.drop_first()
    } else {
        seq![s.first()] + remove_first_id(s.drop_first(), id)
    }
}

/// Removing the first occurrence of a present id takes exactly that id
/// out of the multiset.
pub proof fn lemma_remove_first_multiset(s: Seq<u64>, id: u64)
    requires
        s.contains(id),
    ensures
        remove_first_id(s, id).to_multiset() == s.to_multiset().remove(id),
        remove_first_id(s, id).len() == s.len() - 1,
    decreases s.len(),
{
    broadcast use vstd::seq_lib::group_to_multiset_ensures;

    assert(s == seq![s.first()] + s.drop_first());
    assert(s.drop_first() =~= s.subrange(1, s.len() as int));
    lemma_multiset_of_cons(s);
    if s.first() == id {
        assert(remove_first_id(s, id) == s.drop_first());
        assert(s.to_multiset().remove(id) =~= s.drop_first().to_multiset());
    } else {
        assert(s.drop_first().contains(id)) by {
            let k = choose|k: int| 0 <= k < s.len() && s[k] == id;
            assert(s.drop_first()[k - 1] == id);
        }
        lemma_remove_first_multiset(s.drop_first(), id);
        lemma_multiset_of_cons(seq![s.first()] + remove_first_id(s.drop_first(), id));
        assert((seq![s.first()] + remove_first_id(s.drop_first(), id)).drop_first()
            =~= remove_first_id(s.drop_first(), id));
        assert(remove_first_id(s, id).to_multiset() =~= s.to_multiset().remove(id));
    }
}

/// A non-empty list is its first element followed by the rest.
proof fn lemma_multiset_of_cons(s: Seq<u64>)
    requires
        s.len() > 0,
    ensures
        s.to_multiset() == Multiset::empty().insert(s.first()).add(s.drop_first().to_multiset()),
{
    broadcast use vstd::seq_lib::group_to_multiset_ensures;
    broadcast use vstd::multiset::group_multiset_axioms;

    assert(s =~= seq![s.first()] + s.drop_first());
    vstd::seq_lib::lemma_multiset_commutative(seq![s.first()], s.drop_first());
    let single = seq![s.first()];
    assert(single =~= Seq::<u64>::empty().push(s.first()));
    assert(single.to_multiset() =~= Seq::<u64>::empty().to_multiset().insert(s.first()));
    assert forall|a: u64| #[trigger] Seq::<u64>::empty().to_multiset().count(a) == 0 by {
        assert(!Seq::<u64>::empty().contains(a));
    }
    assert(Seq::<u64>::empty().to_multiset() =~= Multiset::<u64>::empty());
}

/// Promote `id` to the front of a focus order: afterwards the list reads
/// `id` first, then the others in their previous relative order. The
/// multiset of ids is unchanged.
pub fn promote_focus(order: &mut Vec<u64>, id: u64)
    requires
        old(order)@.contains(id),
    ensures
        final(order)@ == seq![id] + remove_first_id(old(order)@, id),
        final(order)@.len() == old(order)@.len(),
        final(order)@.to_multiset() == old(order)@.to_multiset(),
        final(order)@.len() > 0 && final(order)@[0] == id,
{
    let ghost s0 = order@;
    let n = order.len();
    let mut j: usize = 0;
    let mut idx: usize = 0;
    let mut have = false;
    while j < n && !have
        invariant
            j <= n == order@.len(),
            order@ == s0,
            !have ==> forall|k: int| 0 <= k < j ==> order@[k] != id,
            have ==> idx < n && order@[idx as int] == id && forall|k: int|
                0 <= k < idx ==> order@[k] != id,
        decreases n - j, (if have { 0int } else { 1int }),
    {
        if order[j] == id {
            idx = j;
            have = true;
        } else {
            j = j + 1;
        }
    }
    proof {
        if !have {
            assert(!s0.contains(id));
            assert(false);
        }
    }
    order.remove(idx);
    order.insert(0, id);
    proof {
        broadcast use vstd::seq_lib::group_to_multiset_ensures;

        lemma_remove_first_is_remove_at(s0, id, idx as int);
        assert(order@ =~= seq![id] + remove_first_id(s0, id));
        lemma_remove_first_multiset(s0, id);
        lemma_multiset_of_cons(order@);
        assert(order@.to_multiset() =~= s0.to_multiset());
    }
}

/// Removing the first occurrence is removing at the first matching
/// position.
proof fn lemma_remove_first_is_remove_at(s: Seq<u64>, id: u64, idx: int)
    requires
        0 <= idx < s.len(),
        s[idx] == id,
        forall|k: int| 0 <= k < idx ==> s[k] != id,
    ensures
        remove_first_id(s, id) == s.remove(idx),
    decreases s.len(),
{
    if idx == 0 {
        assert(s.remove(0) =~= s.drop_first());
    } else {
        assert(s.first() != id);
        assert forall|k: int| 0 <= k < idx - 1 implies s.drop_first()[k] != id by {
            assert(s.drop_first()[k] == s[k + 1]);
        }
        assert(s.drop_first()[idx - 1] == id);
        lemma_remove_first_is_remove_at(s.drop_first(), id, idx - 1);
        assert(s.remove(idx) =~= seq![s.first()] + s.drop_first().remove(idx - 1));
    }
}

/// Focusing A, then B, then A again leaves the front of the focus order
/// exactly where focusing A alone put it, with the same ids present:
/// the focus path is restored up to the ordering of the unfocused rest.
pub proof fn lemma_focus_round_trip(s: Seq<u64>, a: u64, b: u64)
    requires
        s.contains(a),
        s.contains(b),
    ensures
        ({
            let once = seq![a] + remove_first_id(s, a);
            let thrice = seq![a] + remove_first_id(
                seq![b] + remove_first_id(once, b),
                a,
            );
            &&& thrice[0] == once[0]
            &&& thrice.to_multiset() == once.to_multiset()
        }),
{
    broadcast use vstd::seq_lib::group_to_multiset_ensures;

    let once = seq![a] + remove_first_id(s, a);
    lemma_remove_first_multiset(s, a);
    lemma_multiset_of_cons(once);
    assert(once.drop_first() =~= remove_first_id(s, a));
    assert(once.to_multiset() =~= s.to_multiset());
    assert(once.contains(b) || b == a) by {
        if b != a {
            assert(once.to_multiset().count(b) == s.to_multiset().count(b));
            assert(s.to_multiset().count(b) > 0);
        }
    }
    if b == a {
        let twice = seq![b] + remove_first_id(once, b);
        assert(once[0] == a);
        assert(remove_first_id(once, a) =~= once.drop_first());
        assert(twice =~= once);
        assert(twice[0] == a);
        let thrice = seq![a] + remove_first_id(twice, a);
        assert(thrice =~= once);
    } else {
        let twice = seq![b] + remove_first_id(once, b);
        lemma_remove_first_multiset(once, b);
        lemma_multiset_of_cons(twice);
        assert(twice.drop_first() =~= remove_first_id(once, b));
        assert(twice.to_multiset() =~= once.to_multiset());
        assert(twice.contains(a)) by {
            assert(twice.to_multiset().count(a) == once.to_multiset().count(a));
            assert(once[0] == a);
            assert(once.contains(a));
        }
        let thrice = seq![a] + remove_first_id(twice, a);
        lemma_remove_first_multiset(twice, a);
        lemma_multiset_of_cons(thrice);
        assert(thrice.drop_first() =~= remove_first_id(twice, a));
        assert(thrice.to_multiset() =~= twice.to_multiset());
    }
}

} // verus!
