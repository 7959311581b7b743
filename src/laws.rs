//! Properties that relate decoding, resolution and encoding.
use vstd::prelude::*;
use crate::decode::{spec_decode, parse_map};
use crate::resolve::{
    lookup, lookup_from, resolve_bucket, resolve_bucket_view, resolve_id, resolve_map,
};
use crate::types::header_of;

verus! {

proof fn lemma_lookup_from(t: Seq<(i32, Seq<char>)>, id: i32, i: int)
    requires
        0 <= i <= t.len(),
    ensures
        (forall|j: int| i <= j < t.len() ==> t[j].0 != id) ==> lookup_from(t, id, i) is None,
        forall|j: int|
            i <= j < t.len() && #[trigger] t[j].0 == id && (forall|j2: int|
                i <= j2 < j ==> t[j2].0 != id) ==> lookup_from(t, id, i) == Some(t[j].1),
    decreases t.len() - i,
{
    if i < t.len() {
        lemma_lookup_from(t, id, i + 1);
        assert forall|j: int|
            i <= j < t.len() && #[trigger] t[j].0 == id && (forall|j2: int|
                i <= j2 < j ==> t[j2].0 != id) implies lookup_from(t, id, i) == Some(t[j].1) by {
            if j > i {
                assert(t[i].0 != id);
            }
        }
    }
}

/// A name lookup finds the first entry of the table with the id, and
/// nothing when the table has no entry with it.
pub proof fn lemma_lookup_first_match(t: Seq<(i32, Seq<char>)>, id: i32)
    ensures
        (forall|j: int| 0 <= j < t.len() ==> t[j].0 != id) ==> lookup(t, id) is None,
        forall|j: int|
            0 <= j < t.len() && #[trigger] t[j].0 == id && (forall|j2: int|
                0 <= j2 < j ==> t[j2].0 != id) ==> lookup(t, id) == Some(t[j].1),
{
    lemma_lookup_from(t, id, 0);
}

/// After decoding, every item of a bucket carries the name of the first
/// entry of the name table whose id is the item's id, and no name when the
/// name table has no entry with that id. The order of the items is the
/// order in which they were read.
pub proof fn lemma_resolved_item_name(b: Seq<u8>, i: int, k: int)
    requires
        spec_decode(b) is Ok,
        0 <= i < spec_decode(b)->Ok_0.buckets.len(),
        header_of(spec_decode(b)->Ok_0.buckets[i]) is Some,
        0 <= k < header_of(spec_decode(b)->Ok_0.buckets[i])->Some_0.items.len(),
    ensures
        ({
            let m = spec_decode(b)->Ok_0;
            let item = header_of(m.buckets[i])->Some_0.items[k];
            let raw = header_of(parse_map(b)->Ok_0.buckets[i])->Some_0.items[k];
            &&& item.0 == raw.0
            &&& (forall|j: int| 0 <= j < m.name_map.len() ==> m.name_map[j].0 != item.0) ==> item.1 is None
            &&& forall|j: int|
                0 <= j < m.name_map.len() && #[trigger] m.name_map[j].0 == item.0 && (forall|j2: int|
                    0 <= j2 < j ==> m.name_map[j2].0 != item.0) ==> item.1 == Some(m.name_map[j].1)
        }),
{
    let raw = parse_map(b)->Ok_0;
    let m = spec_decode(b)->Ok_0;
    assert(m == resolve_map(raw));
    let x = raw.buckets[i];
    assert(m.buckets[i] == resolve_bucket(x, raw.name_map));
    let h = header_of(x)->Some_0;
    assert(header_of(m.buckets[i]) == Some(resolve_bucket_view(h, raw.name_map)));
    let item = header_of(m.buckets[i])->Some_0.items[k];
    assert(item == resolve_id(h.items[k], raw.name_map));
    lemma_lookup_first_match(raw.name_map, item.0);
    assert(header_of(x) is Some);
    assert(m.name_map == raw.name_map);
    assert(item.0 == h.items[k].0);
    assert((forall|j: int| 0 <= j < m.name_map.len() ==> m.name_map[j].0 != item.0) ==> item.1 is None);
}

} // verus!
