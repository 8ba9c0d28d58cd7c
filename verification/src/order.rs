//! The order of byte strings, and putting them in it.

use vstd::prelude::*;

verus! {

/// Whether a byte string comes before another one in a dictionary, or is it.
pub open spec fn bytes_le(a: Seq<u8>, b: Seq<u8>) -> bool
    decreases a.len(),
{
    if a.len() == 0 {
        true
    } else if b.len() == 0 {
        false
    } else if a[0] != b[0] {
        a[0] < b[0]
    } else {
        bytes_le(a.skip(1), b.skip(1))
    }
}

/// Whether byte strings stand in the order of a dictionary.
pub open spec fn is_ascending(s: Seq<Seq<u8>>) -> bool {
    forall|i: int, j: int| 0 <= i < j < s.len() ==> bytes_le(#[trigger] s[i], #[trigger] s[j])
}

/// The bytes of byte strings.
pub open spec fn byte_views(v: Seq<Vec<u8>>) -> Seq<Seq<u8>> {
    v.map_values(|b: Vec<u8>| b@)
}

/// The byte strings at some places.
pub open spec fn at_places(keys: Seq<Seq<u8>>, places: Seq<usize>) -> Seq<Seq<u8>> {
    places.map_values(|p: usize| keys[p as int])
}

/// Whether the places of all byte strings stand in the order of a dictionary,
/// those of equal ones in their own order.
pub open spec fn is_sorted_order(keys: Seq<Seq<u8>>, places: Seq<usize>) -> bool {
    &&& places.len() == keys.len()
    &&& places.no_duplicates()
    &&& forall|i: int| 0 <= i < places.len() ==> (#[trigger] places[i]) < keys.len()
    &&& forall|i: int, j: int|
        0 <= i < j < places.len() ==> {
            let a = #[trigger] places[i];
            let b = #[trigger] places[j];
            bytes_le(keys[a as int], keys[b as int]) && (keys[a as int] == keys[b as int] ==> a < b)
        }
}

/// Every byte string comes before itself or is itself.
pub proof fn bytes_le_reflexive(a: Seq<u8>)
    ensures
        bytes_le(a, a),
    decreases a.len(),
{
    if a.len() > 0 {
        bytes_le_reflexive(a.skip(1));
    }
}

/// Of two byte strings one comes before the other.
pub proof fn bytes_le_total(a: Seq<u8>, b: Seq<u8>)
    ensures
        bytes_le(a, b) || bytes_le(b, a),
    decreases a.len(),
{
    if a.len() > 0 && b.len() > 0 && a[0] == b[0] {
        bytes_le_total(a.skip(1), b.skip(1));
    }
}

/// What comes before what comes before a byte string comes before it.
pub proof fn bytes_le_transitive(a: Seq<u8>, b: Seq<u8>, c: Seq<u8>)
    requires
        bytes_le(a, b),
        bytes_le(b, c),
    ensures
        bytes_le(a, c),
    decreases a.len(),
{
    if a.len() > 0 && b.len() > 0 && c.len() > 0 && a[0] == b[0] && b[0] == c[0] {
        bytes_le_transitive(a.skip(1), b.skip(1), c.skip(1));
    }
}

/// Two byte strings of which each comes before the other are the same.
pub proof fn bytes_le_antisymmetric(a: Seq<u8>, b: Seq<u8>)
    requires
        bytes_le(a, b),
        bytes_le(b, a),
    ensures
        a == b,
    decreases a.len(),
{
    if a.len() > 0 {
        bytes_le_antisymmetric(a.skip(1), b.skip(1));
        assert(a == seq![a[0]] + a.skip(1));
        assert(b == seq![b[0]] + b.skip(1));
    } else {
        assert(a == b);
    }
}

/// Whether a byte string comes before another one in a dictionary, or is it.
pub fn not_after(a: &Vec<u8>, b: &Vec<u8>) -> (r: bool)
    ensures
        r == bytes_le(a@, b@),
{
    let mut i: usize = 0;
    assert(a@.skip(0) == a@ && b@.skip(0) == b@);
    while i < a.len() && i < b.len()
        invariant
            i <= a@.len(),
            i <= b@.len(),
            bytes_le(a@.skip(i as int), b@.skip(i as int)) == bytes_le(a@, b@),
        decreases a.len() - i,
    {
        if a[i] != b[i] {
            return a[i] < b[i];
        }
        assert(a@.skip(i as int).skip(1) == a@.skip(i + 1));
        assert(b@.skip(i as int).skip(1) == b@.skip(i + 1));
        i = i + 1;
    }
    i == a.len()
}

/// Puts the places of byte strings in the order of a dictionary.
pub fn sorted_places(keys: &Vec<Vec<u8>>) -> (places: Vec<usize>)
    ensures
        is_sorted_order(byte_views(keys@), places@),
        at_places(byte_views(keys@), places@).to_multiset() == byte_views(keys@).to_multiset(),
{
    let ghost all = byte_views(keys@);
    let mut places: Vec<usize> = Vec::new();
    let mut n: usize = 0;
    assert(at_places(all, places@) == all.take(0));
    while n < keys.len()
        invariant
            n <= keys@.len(),
            all == byte_views(keys@),
            places@.len() == n,
            places@.no_duplicates(),
            forall|i: int| 0 <= i < n ==> (#[trigger] places@[i]) < n,
            forall|i: int, j: int|
                0 <= i < j < n ==> {
                    let a = #[trigger] places@[i];
                    let b = #[trigger] places@[j];
                    bytes_le(all[a as int], all[b as int]) && (all[a as int] == all[b as int] ==> a
                        < b)
                },
            at_places(all, places@).to_multiset() == all.take(n as int).to_multiset(),
        decreases keys.len() - n,
    {
        let ghost key = all[n as int];
        let mut p: usize = 0;
        while p < n && not_after(&keys[places[p]], &keys[n])
            invariant
                p <= n < keys@.len(),
                all == byte_views(keys@),
                places@.len() == n,
                key == all[n as int],
                forall|i: int| 0 <= i < n ==> (#[trigger] places@[i]) < n,
                forall|i: int| 0 <= i < p ==> bytes_le(all[(#[trigger] places@[i]) as int], key),
            decreases n - p,
        {
            p = p + 1;
        }
        let ghost before = places@;
        proof {
            assert forall|k: int| p <= k < n implies bytes_le(
                key,
                all[(#[trigger] before[k]) as int],
            ) && key != all[before[k] as int] by {
                let at_p = all[before[p as int] as int];
                let at_k = all[before[k] as int];
                bytes_le_total(at_p, key);
                assert(!bytes_le(at_p, key));
                if k > p {
                    assert(bytes_le(at_p, at_k));
                    bytes_le_transitive(key, at_p, at_k);
                } else {
                    bytes_le_reflexive(key);
                }
            }
        }
        places.insert(p, n);
        proof {
            assert(at_places(all, places@) =~= at_places(all, before).insert(p as int, key));
            vstd::seq_lib::to_multiset_insert(at_places(all, before), p as int, key);
            vstd::seq_lib::to_multiset_build(all.take(n as int), key);
            assert(all.take(n + 1) =~= all.take(n as int).push(key));
        }
        n = n + 1;
    }
    assert(all.take(n as int) == all);
    places
}

} // verus!
