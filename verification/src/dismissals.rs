//! The times up to which attempts are dismissed, as a list of entries in the order of their keys.
use crate::order;
use crate::outside;
use crate::text;
use vstd::prelude::*;
use vstd::string::*;

verus! {

broadcast use vstd::string::group_string_axioms;

/// An entry that is put between others, with none for its key behind it, decides what its key
/// stands for.
proof fn inserted_entry(entries: Seq<(String, u64)>, i: int, e: (String, u64))
    requires
        0 <= i <= entries.len(),
        forall|k: int| i <= k < entries.len() ==> (#[trigger] entries[k]).0@ != e.0@,
    ensures
        outside::entry_map(entries.insert(i, e)) == outside::entry_map(entries).insert(e.0@, e.1),
    decreases entries.len(),
{
    let longer = entries.insert(i, e);
    if i == entries.len() {
        assert(longer.drop_last() =~= entries);
    } else {
        inserted_entry(entries.drop_last(), i, e);
        assert(longer.drop_last() =~= entries.drop_last().insert(i, e));
        assert(longer.last() == entries.last());
        assert(outside::entry_map(longer) =~= outside::entry_map(entries).insert(e.0@, e.1));
    }
}

/// An entry that takes the place of one for the same key, with none for the key behind it, decides
/// what its key stands for.
proof fn replaced_entry(entries: Seq<(String, u64)>, i: int, e: (String, u64))
    requires
        0 <= i < entries.len(),
        entries[i].0@ == e.0@,
        forall|k: int| i < k < entries.len() ==> (#[trigger] entries[k]).0@ != e.0@,
    ensures
        outside::entry_map(entries.update(i, e)) == outside::entry_map(entries).insert(e.0@, e.1),
    decreases entries.len(),
{
    let changed = entries.update(i, e);
    if i == entries.len() - 1 {
        assert(changed.drop_last() =~= entries.drop_last());
    } else {
        replaced_entry(entries.drop_last(), i, e);
        assert(changed.drop_last() =~= entries.drop_last().update(i, e));
        assert(changed.last() == entries.last());
    }
    assert(outside::entry_map(changed) =~= outside::entry_map(entries).insert(e.0@, e.1));
}

/// Puts an entry in its place in a list in the order of the keys: it takes the place of the one for
/// the same key, where there is one.
pub fn put_entry(entries: &mut Vec<(String, u64)>, key: &str, now: u64)
    requires
        outside::in_key_order(old(entries)@),
    ensures
        outside::in_key_order(final(entries)@),
        outside::entry_map(final(entries)@) == outside::entry_map(old(entries)@).insert(key@, now),
{
    let ghost from = entries@;
    let mut i: usize = 0;
    while i < entries.len() && order::text_is_before(entries[i].0.as_str(), key)
        invariant
            entries@ == from,
            i <= entries.len(),
            forall|k: int| 0 <= k < i ==> order::text_before((#[trigger] from[k]).0@, key@),
        decreases entries.len() - i,
    {
        i = i + 1;
    }
    let entry = (key.to_string(), now);
    let ghost e = entry;
    let found = i < entries.len() && text::equals(entries[i].0.as_str(), key);
    proof {
        order::text_before_irreflexive(key@);
        if i < from.len() {
            order::text_before_total(from[i as int].0@, key@);
        }
        assert forall|k: int| i <= k < from.len() && (k > i || !found) implies order::text_before(
            key@,
            (#[trigger] from[k]).0@,
        ) by {
            if k > i {
                assert(order::text_before(from[i as int].0@, from[k].0@));
                if !found {
                    order::text_before_transitive(key@, from[i as int].0@, from[k].0@);
                }
            }
        }
    }
    if found {
        entries.set(i, entry);
        proof {
            assert(entries@ =~= from.update(i as int, e));
            replaced_entry(from, i as int, e);
            assert forall|a: int, b: int| 0 <= a < b < entries@.len() implies order::text_before(
                (#[trigger] entries@[a]).0@,
                (#[trigger] entries@[b]).0@,
            ) by {
                assert(order::text_before(from[a].0@, from[b].0@));
            }
        }
    } else {
        entries.insert(i, entry);
        proof {
            assert(entries@ =~= from.insert(i as int, e));
            inserted_entry(from, i as int, e);
            assert forall|a: int, b: int| 0 <= a < b < entries@.len() implies order::text_before(
                (#[trigger] entries@[a]).0@,
                (#[trigger] entries@[b]).0@,
            ) by {
                if a < i && b > i {
                    assert(order::text_before(from[a].0@, from[b - 1].0@));
                } else if b < i {
                    assert(order::text_before(from[a].0@, from[b].0@));
                } else if a > i {
                    assert(order::text_before(from[a - 1].0@, from[b - 1].0@));
                }
            }
        }
    }
}

} // verus!
