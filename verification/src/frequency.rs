//! Counting how often each distinct item of a sequence occurs, in the order
//! in which the items first occur.

use vstd::prelude::*;

verus! {

/// `indexmap::IndexMap`: a hash map that keeps its entries in the order in
/// which their keys were first inserted.
#[verifier::external_type_specification]
#[verifier::external_body]
#[verifier::reject_recursive_types(K)]
#[verifier::reject_recursive_types(V)]
#[verifier::reject_recursive_types(S)]
pub struct ExIndexMap<K, V, S>(indexmap::IndexMap<K, V, S>);

/// The entries of a map in their order: each key with its value.
pub uninterp spec fn index_entries(
    m: indexmap::IndexMap<Vec<u8>, (usize, usize)>,
) -> Seq<(Seq<u8>, (usize, usize))>;

/// `IndexMap::new`: a map without entries.
#[verifier::external_body]
fn index_new() -> (m: indexmap::IndexMap<Vec<u8>, (usize, usize)>)
    ensures
        index_entries(m).len() == 0,
{
    indexmap::IndexMap::new()
}

/// `IndexMap::get_full`: the position and the value of the entry with the
/// given key, or `None` where no entry has that key.
#[verifier::external_body]
fn index_get_full(
    m: &indexmap::IndexMap<Vec<u8>, (usize, usize)>,
    key: &Vec<u8>,
) -> (found: Option<(usize, (usize, usize))>)
    ensures
        match found {
            Some((position, value)) => {
                &&& position < index_entries(*m).len()
                &&& index_entries(*m)[position as int] == (key@, value)
            },
            None => forall|i: int|
                0 <= i < index_entries(*m).len() ==> (#[trigger] index_entries(*m)[i]).0 != key@,
        },
{
    m.get_full(key).map(|(position, _, value)| (position, *value))
}

/// `IndexMap::insert` with a clone of the key: where an entry has the key,
/// its value is replaced and it keeps its place; where none has, the new
/// entry becomes the last one.
#[verifier::external_body]
fn index_insert(
    m: &mut indexmap::IndexMap<Vec<u8>, (usize, usize)>,
    key: &Vec<u8>,
    value: (usize, usize),
)
    ensures
        forall|i: int|
            0 <= i < index_entries(*old(m)).len() && (#[trigger] index_entries(*old(m))[i]).0
                == key@ ==> index_entries(*final(m)) == index_entries(*old(m)).update(
                i,
                (key@, value),
            ),
        (forall|i: int|
            0 <= i < index_entries(*old(m)).len() ==> (#[trigger] index_entries(*old(m))[i]).0
                != key@) ==> index_entries(*final(m)) == index_entries(*old(m)).push(
            (key@, value),
        ),
{
    m.insert(key.clone(), value);
}

/// `IndexMap::into_values`, collected: the values of the entries in their
/// order.
#[verifier::external_body]
fn index_into_values(
    m: indexmap::IndexMap<Vec<u8>, (usize, usize)>,
) -> (values: Vec<(usize, usize)>)
    ensures
        values@.len() == index_entries(m).len(),
        forall|i: int| 0 <= i < values@.len() ==> #[trigger] values@[i] == index_entries(m)[i].1,
{
    m.into_values().collect()
}

/// How often `item` occurs in `items`.
pub open spec fn occurrences<T>(items: Seq<T>, item: T) -> nat
    decreases items.len(),
{
    if items.len() == 0 {
        0
    } else {
        occurrences(items.drop_last(), item) + if items.last() == item {
            1nat
        } else {
            0nat
        }
    }
}

/// `items[i]` occurs at no earlier position.
pub open spec fn is_first<T>(items: Seq<T>, i: int) -> bool {
    &&& 0 <= i < items.len()
    &&& forall|j: int| 0 <= j < i ==> items[j] != items[i]
}

/// The sum of the counts of the groups.
pub open spec fn total<T>(groups: Seq<(T, usize)>) -> nat
    decreases groups.len(),
{
    if groups.len() == 0 {
        0
    } else {
        total(groups.drop_last()) + groups.last().1 as nat
    }
}

/// What the keys of a vector hold, in order.
pub open spec fn key_views(keys: Seq<Vec<u8>>) -> Seq<Seq<u8>> {
    Seq::new(keys.len(), |i: int| keys[i]@)
}

/// The group holds the position of a first occurrence and the number of
/// positions that hold the same item.
pub open spec fn is_group<T>(items: Seq<T>, group: (usize, usize)) -> bool {
    &&& is_first(items, group.0 as int)
    &&& group.1 == occurrences(items, items[group.0 as int])
}

/// Some group stands for the item at position `i`.
pub open spec fn has_group<T>(groups: Seq<(usize, usize)>, items: Seq<T>, i: int) -> bool {
    exists|g: int| 0 <= g < groups.len() && items[(#[trigger] groups[g]).0 as int] == items[i]
}

/// `groups` lists the distinct items of `items` in the order of their first
/// occurrence, each as the position of that occurrence together with the
/// number of positions that hold the same item.
pub open spec fn is_tally<T>(groups: Seq<(usize, usize)>, items: Seq<T>) -> bool {
    &&& forall|g: int| 0 <= g < groups.len() ==> is_group(items, #[trigger] groups[g])
    &&& forall|g: int, h: int|
        0 <= g < h < groups.len() ==> (#[trigger] groups[g]).0 < (#[trigger] groups[h]).0
    &&& forall|i: int| 0 <= i < items.len() ==> #[trigger] has_group(groups, items, i)
}

/// The counts of the entries of a map, each with the position of the first
/// occurrence of its key.
spec fn entry_groups(entries: Seq<(Seq<u8>, (usize, usize))>) -> Seq<(usize, usize)> {
    Seq::new(entries.len(), |g: int| entries[g].1)
}

/// An item occurs once more in a sequence extended by that item, and as
/// often as before in one extended by another.
pub proof fn lemma_occurrences_push<T>(items: Seq<T>, last: T, item: T)
    ensures
        occurrences(items.push(last), item) == occurrences(items, item) + if last == item {
            1nat
        } else {
            0nat
        },
{
    assert(items.push(last).drop_last() =~= items);
}

/// An item that stands at no position does not occur.
pub proof fn lemma_occurrences_none<T>(items: Seq<T>, item: T)
    requires
        forall|j: int| 0 <= j < items.len() ==> items[j] != item,
    ensures
        occurrences(items, item) == 0,
    decreases items.len(),
{
    if items.len() > 0 {
        lemma_occurrences_none(items.drop_last(), item);
    }
}

/// An item that stands at some position occurs at least once, and no item
/// occurs more often than the sequence is long.
pub proof fn lemma_occurrences_bounds<T>(items: Seq<T>, item: T)
    ensures
        occurrences(items, item) <= items.len(),
        (exists|j: int| 0 <= j < items.len() && items[j] == item) ==> occurrences(items, item) >= 1,
    decreases items.len(),
{
    if items.len() > 0 {
        lemma_occurrences_bounds(items.drop_last(), item);
        if exists|j: int| 0 <= j < items.len() && items[j] == item {
            let j = choose|j: int| 0 <= j < items.len() && items[j] == item;
            if j < items.len() - 1 {
                assert(items.drop_last()[j] == item);
            }
        }
    }
}

/// The sum of the counts grows by what is added to one of them.
proof fn lemma_total_update(groups: Seq<(usize, usize)>, g: int, value: (usize, usize))
    requires
        0 <= g < groups.len(),
    ensures
        total(groups.update(g, value)) == total(groups) - groups[g].1 + value.1,
        groups[g].1 <= total(groups),
    decreases groups.len(),
{
    if g == groups.len() - 1 {
        assert(groups.update(g, value).drop_last() =~= groups.drop_last());
    } else {
        lemma_total_update(groups.drop_last(), g, value);
        assert(groups.update(g, value).drop_last() =~= groups.drop_last().update(g, value));
    }
}

/// The sum of the counts grows by the count of a group that is added.
proof fn lemma_total_push(groups: Seq<(usize, usize)>, value: (usize, usize))
    ensures
        total(groups.push(value)) == total(groups) + value.1,
{
    assert(groups.push(value).drop_last() =~= groups);
}

/// The entries of the map after the first `n` items: a tally of those items,
/// each entry under the item that it counts.
spec fn is_tally_state(
    entries: Seq<(Seq<u8>, (usize, usize))>,
    items: Seq<Seq<u8>>,
    n: int,
) -> bool {
    &&& 0 <= n <= items.len()
    &&& is_tally(entry_groups(entries), items.take(n))
    &&& forall|g: int|
        0 <= g < entries.len() ==> (#[trigger] entries[g]).0 == items[entries[g].1.0 as int]
    &&& total(entry_groups(entries)) == n
}

/// Counting one more occurrence of an item that has an entry keeps the
/// entries a tally, now of one item more.
proof fn lemma_tally_counts(
    entries: Seq<(Seq<u8>, (usize, usize))>,
    items: Seq<Seq<u8>>,
    n: int,
    position: int,
)
    requires
        is_tally_state(entries, items, n),
        n < items.len() <= usize::MAX,
        0 <= position < entries.len(),
        entries[position].0 == items[n],
    ensures
        entries[position].1.1 < usize::MAX,
        is_tally_state(
            entries.update(
                position,
                (items[n], (entries[position].1.0, (entries[position].1.1 + 1) as usize)),
            ),
            items,
            n + 1,
        ),
{
    let groups = entry_groups(entries);
    let seen = items.take(n);
    let next = items.take(n + 1);
    let key = items[n];
    let first = entries[position].1.0;
    let count = entries[position].1.1;
    let bumped = (first, (count + 1) as usize);
    let after = entries.update(position, (key, bumped));
    let new_groups = entry_groups(after);
    assert(next =~= seen.push(key));
    assert(groups[position] == (first, count));
    assert(is_group(seen, groups[position]));
    assert(entries[position].0 == items[first as int]);
    lemma_total_update(groups, position, bumped);
    assert(new_groups =~= groups.update(position, bumped));
    assert forall|g: int| 0 <= g < new_groups.len() implies is_group(
        next,
        #[trigger] new_groups[g],
    ) by {
        let f = groups[g].0 as int;
        assert(is_group(seen, groups[g]));
        assert(entries[g].0 == items[f]);
        assert(next[f] == seen[f]);
        lemma_occurrences_push(seen, key, seen[f]);
        if g < position {
            assert(groups[g].0 < groups[position].0);
        } else if g > position {
            assert(groups[position].0 < groups[g].0);
        }
    }
    assert forall|g: int, h: int| 0 <= g < h < new_groups.len() implies (
    #[trigger] new_groups[g]).0 < (#[trigger] new_groups[h]).0 by {
        assert(groups[g].0 < groups[h].0);
    }
    assert forall|i: int| 0 <= i < next.len() implies #[trigger] has_group(
        new_groups,
        next,
        i,
    ) by {
        if i < n {
            assert(has_group(groups, seen, i));
            let g = choose|g: int|
                0 <= g < groups.len() && seen[(#[trigger] groups[g]).0 as int] == seen[i];
            assert(is_group(seen, groups[g]));
            assert(next[new_groups[g].0 as int] == next[i]);
        } else {
            assert(next[new_groups[position].0 as int] == next[i]);
        }
    }
    assert forall|g: int| 0 <= g < after.len() implies (#[trigger] after[g]).0
        == items[after[g].1.0 as int] by {
        assert(entries[g].0 == items[entries[g].1.0 as int]);
    }
}

/// Adding an entry for an item that has none keeps the entries a tally, now
/// of one item more.
proof fn lemma_tally_appends(entries: Seq<(Seq<u8>, (usize, usize))>, items: Seq<Seq<u8>>, n: int)
    requires
        is_tally_state(entries, items, n),
        n < items.len() <= usize::MAX,
        forall|g: int| 0 <= g < entries.len() ==> (#[trigger] entries[g]).0 != items[n],
    ensures
        is_tally_state(entries.push((items[n], (n as usize, 1usize))), items, n + 1),
{
    let groups = entry_groups(entries);
    let seen = items.take(n);
    let next = items.take(n + 1);
    let key = items[n];
    let added = (n as usize, 1usize);
    let after = entries.push((key, added));
    let new_groups = entry_groups(after);
    assert(next =~= seen.push(key));
    assert(new_groups =~= groups.push(added));
    lemma_total_push(groups, added);
    assert forall|j: int| 0 <= j < seen.len() implies seen[j] != key by {
        assert(has_group(groups, seen, j));
        let g = choose|g: int|
            0 <= g < groups.len() && seen[(#[trigger] groups[g]).0 as int] == seen[j];
        assert(is_group(seen, groups[g]));
        assert(entries[g].0 == items[entries[g].1.0 as int]);
    }
    lemma_occurrences_none(seen, key);
    lemma_occurrences_push(seen, key, key);
    assert forall|g: int| 0 <= g < new_groups.len() implies is_group(
        next,
        #[trigger] new_groups[g],
    ) by {
        if g < groups.len() {
            let f = groups[g].0 as int;
            assert(is_group(seen, groups[g]));
            assert(next[f] == seen[f]);
            lemma_occurrences_push(seen, key, seen[f]);
        }
    }
    assert forall|g: int, h: int| 0 <= g < h < new_groups.len() implies (
    #[trigger] new_groups[g]).0 < (#[trigger] new_groups[h]).0 by {
        assert(is_group(seen, groups[g]));
        if h < groups.len() {
            assert(groups[g].0 < groups[h].0);
        }
    }
    assert forall|i: int| 0 <= i < next.len() implies #[trigger] has_group(
        new_groups,
        next,
        i,
    ) by {
        if i < n {
            assert(has_group(groups, seen, i));
            let g = choose|g: int|
                0 <= g < groups.len() && seen[(#[trigger] groups[g]).0 as int] == seen[i];
            assert(is_group(seen, groups[g]));
            assert(next[new_groups[g].0 as int] == next[i]);
        } else {
            assert(next[new_groups[groups.len() as int].0 as int] == next[i]);
        }
    }
    assert forall|g: int| 0 <= g < after.len() implies (#[trigger] after[g]).0
        == items[after[g].1.0 as int] by {
        if g < entries.len() {
            assert(entries[g].0 == items[entries[g].1.0 as int]);
        }
    }
}

/// The distinct keys of `keys` in the order of their first occurrence, each
/// as the position of that occurrence together with the number of positions
/// that hold an equal key. The counts add up to the number of keys.
pub fn tally(keys: &Vec<Vec<u8>>) -> (groups: Vec<(usize, usize)>)
    ensures
        is_tally(groups@, key_views(keys@)),
        total(groups@) == keys@.len(),
{
    let ghost items = key_views(keys@);
    let mut map = index_new();
    let mut n: usize = 0;
    proof {
        assert(entry_groups(index_entries(map)) =~= Seq::empty());
    }
    while n < keys.len()
        invariant
            items == key_views(keys@),
            is_tally_state(index_entries(map), items, n as int),
        decreases keys@.len() - n,
    {
        let ghost entries = index_entries(map);
        assert(items[n as int] == keys@[n as int]@);
        match index_get_full(&map, &keys[n]) {
            Some((position, (first, count))) => {
                proof {
                    lemma_tally_counts(entries, items, n as int, position as int);
                }
                index_insert(&mut map, &keys[n], (first, count + 1));
            },
            None => {
                proof {
                    lemma_tally_appends(entries, items, n as int);
                }
                index_insert(&mut map, &keys[n], (n, 1));
            },
        }
        n = n + 1;
    }
    proof {
        assert(items.take(n as int) =~= items);
    }
    let groups = index_into_values(map);
    proof {
        assert(groups@ =~= entry_groups(index_entries(map)));
    }
    groups
}

/// The position at which `item` first occurs in `items`.
pub open spec fn first_position<T>(items: Seq<T>, item: T) -> int {
    choose|i: int| is_first(items, i) && items[i] == item
}

/// Some group stands for `item`.
pub open spec fn is_counted<T>(groups: Seq<(T, usize)>, item: T) -> bool {
    exists|g: int| 0 <= g < groups.len() && (#[trigger] groups[g]).0 == item
}

/// The group's item occurs in `items`, as often as the group says.
pub open spec fn counts_item<T>(items: Seq<T>, group: (T, usize)) -> bool {
    &&& group.1 >= 1
    &&& group.1 == occurrences(items, group.0)
}

/// `groups` lists the distinct items of `items`, each once and with the
/// number of its occurrences, in the order in which the items first occur.
pub open spec fn is_tally_of<T>(groups: Seq<(T, usize)>, items: Seq<T>) -> bool {
    &&& forall|g: int| 0 <= g < groups.len() ==> counts_item(items, #[trigger] groups[g])
    &&& forall|g: int, h: int|
        0 <= g < h < groups.len() ==> first_position(items, (#[trigger] groups[g]).0)
            < first_position(items, (#[trigger] groups[h]).0)
    &&& forall|g: int, h: int|
        0 <= g < h < groups.len() ==> (#[trigger] groups[g]).0 != (#[trigger] groups[h]).0
    &&& forall|i: int| 0 <= i < items.len() ==> is_counted(groups, #[trigger] items[i])
}

/// The items at two positions are equal exactly where the keys at those
/// positions are.
pub open spec fn keys_tell_apart<K, T>(keys: Seq<K>, items: Seq<T>) -> bool {
    &&& keys.len() == items.len()
    &&& forall|i: int, j: int|
        0 <= i < keys.len() && 0 <= j < keys.len() ==> ((#[trigger] keys[i] == #[trigger] keys[j])
            <==> items[i] == items[j])
}

/// An item occurs as often in a prefix of the items as its key does in the
/// same prefix of the keys.
proof fn lemma_occurrences_by_key<K, T>(keys: Seq<K>, items: Seq<T>, n: int, f: int)
    requires
        keys_tell_apart(keys, items),
        0 <= n <= keys.len(),
        0 <= f < keys.len(),
    ensures
        occurrences(items.take(n), items[f]) == occurrences(keys.take(n), keys[f]),
    decreases n,
{
    if n > 0 {
        lemma_occurrences_by_key(keys, items, n - 1, f);
        assert(items.take(n).drop_last() =~= items.take(n - 1));
        assert(keys.take(n).drop_last() =~= keys.take(n - 1));
        assert(keys[n - 1] == keys[f] <==> items[n - 1] == items[f]);
    }
}

/// An item first occurs where no earlier position holds it.
pub proof fn lemma_first_position<T>(items: Seq<T>, f: int)
    requires
        is_first(items, f),
    ensures
        first_position(items, items[f]) == f,
{
    let i = first_position(items, items[f]);
    assert(is_first(items, i) && items[i] == items[f]);
    if i < f {
        assert(items[i] != items[f]);
    } else if f < i {
        assert(items[f] != items[i]);
    }
}

/// Two lists of groups with the same counts have the same sum of counts.
proof fn lemma_total_of_counts<A, B>(a: Seq<(A, usize)>, b: Seq<(B, usize)>)
    requires
        a.len() == b.len(),
        forall|g: int| 0 <= g < a.len() ==> (#[trigger] a[g]).1 == b[g].1,
    ensures
        total(a) == total(b),
    decreases a.len(),
{
    if a.len() > 0 {
        assert(a.last().1 == b[b.len() - 1].1);
        assert forall|g: int| 0 <= g < a.drop_last().len() implies (#[trigger] a.drop_last()[g]).1
            == b.drop_last()[g].1 by {
            assert(a[g].1 == b[g].1);
        }
        lemma_total_of_counts(a.drop_last(), b.drop_last());
    }
}

/// A tally of the keys, with each position replaced by the item that stands
/// there, is a tally of the items.
pub proof fn lemma_tally_by_key<K, T>(
    positions: Seq<(usize, usize)>,
    keys: Seq<K>,
    groups: Seq<(T, usize)>,
    items: Seq<T>,
)
    requires
        keys_tell_apart(keys, items),
        is_tally(positions, keys),
        groups.len() == positions.len(),
        forall|g: int|
            0 <= g < groups.len() ==> #[trigger] groups[g] == (
                items[positions[g].0 as int],
                positions[g].1,
            ),
    ensures
        is_tally_of(groups, items),
        total(groups) == total(positions),
{
    lemma_total_of_counts(groups, positions);
    assert(items.take(items.len() as int) =~= items);
    assert(keys.take(keys.len() as int) =~= keys);
    assert forall|g: int| 0 <= g < groups.len() implies counts_item(items, #[trigger] groups[g])
        && first_position(items, groups[g].0) == positions[g].0 by {
        let f = positions[g].0 as int;
        assert(is_group(keys, positions[g]));
        assert(is_first(items, f)) by {
            assert forall|j: int| 0 <= j < f implies items[j] != items[f] by {
                assert(keys[j] != keys[f]);
            }
        }
        lemma_occurrences_by_key(keys, items, keys.len() as int, f);
        lemma_occurrences_bounds(items, items[f]);
        lemma_first_position(items, f);
    }
    assert forall|g: int, h: int| 0 <= g < h < groups.len() implies first_position(
        items,
        (#[trigger] groups[g]).0,
    ) < first_position(items, (#[trigger] groups[h]).0) by {
        assert(positions[g].0 < positions[h].0);
    }
    assert forall|g: int, h: int| 0 <= g < h < groups.len() implies (#[trigger] groups[g]).0 != (
    #[trigger] groups[h]).0 by {
        assert(first_position(items, groups[g].0) < first_position(items, groups[h].0));
    }
    assert forall|i: int| 0 <= i < items.len() implies is_counted(groups, #[trigger] items[i]) by {
        assert(has_group(positions, keys, i));
        let g = choose|g: int|
            0 <= g < positions.len() && keys[(#[trigger] positions[g]).0 as int] == keys[i];
        assert(is_group(keys, positions[g]));
        assert(groups[g].0 == items[i]);
    }
}

} // verus!
