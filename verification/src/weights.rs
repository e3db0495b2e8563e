//! Sums over finite maps.
use vstd::prelude::*;

verus! {

/// Sum of the values of a finite map.
pub open spec fn weight_sum(m: Map<Seq<char>, nat>) -> nat
    decreases m.dom().len(),
    when m.dom().finite()
{
    if m.dom().len() == 0 {
        0
    } else {
        let k = m.dom().choose();
        if m.dom().contains(k) {
            m[k] + weight_sum(m.remove(k))
        } else {
            0
        }
    }
}

pub proof fn sum_of_empty(m: Map<Seq<char>, nat>)
    requires
        m.dom() == Set::<Seq<char>>::empty(),
    ensures
        weight_sum(m) == 0,
{
}

/// Taking out a key takes out its value.
pub proof fn sum_remove(m: Map<Seq<char>, nat>, k: Seq<char>)
    requires
        m.dom().finite(),
        m.contains_key(k),
    ensures
        weight_sum(m) == m[k] + weight_sum(m.remove(k)),
    decreases m.dom().len(),
{
    let c = m.dom().choose();
    assert(m.dom().contains(k));
    assert(m.dom().len() > 0) by {
        if m.dom().len() == 0 {
            assert(m.dom() =~= Set::empty());
        }
    }
    vstd::set::axiom_set_choose_len(m.dom());
    assert(m.dom().contains(c));
    assert(m.remove(c).dom() =~= m.dom().remove(c));
    assert(m.remove(k).dom() =~= m.dom().remove(k));
    if c != k {
        sum_remove(m.remove(c), k);
        sum_remove(m.remove(k), c);
        assert(m.remove(c).remove(k) =~= m.remove(k).remove(c));
    }
}

/// Putting a key in adds its value.
pub proof fn sum_insert(m: Map<Seq<char>, nat>, k: Seq<char>, v: nat)
    requires
        m.dom().finite(),
        !m.contains_key(k),
    ensures
        weight_sum(m.insert(k, v)) == weight_sum(m) + v,
{
    let n = m.insert(k, v);
    assert(n.dom() =~= m.dom().insert(k));
    sum_remove(n, k);
    assert(n.remove(k) =~= m);
}

} // verus!
