use std::collections::HashMap;
use vstd::prelude::*;

use super::FileId;

verus! {

broadcast use vstd::std_specs::hash::group_hash_axioms;

/// The answer of the collection lookup, keyed by the identifier asked for.
pub struct Response {
    pub details: HashMap<FileId, Detail>,
}

/// One record of the collection lookup. `children` is there only for a
/// collection.
pub struct Detail {
    pub file_id: FileId,
    pub result: u32,
    pub children: Option<Vec<Child>>,
}

/// One entry of a collection: a mod when `filetype` is 0, a nested
/// collection otherwise.
#[derive(Clone, Copy, PartialEq, Eq, Structural)]
pub struct Child {
    pub file_id: FileId,
    pub sortorder: u32,
    pub filetype: u32,
}

/// The map that a sequence of records gives when each is stored under its
/// identifier, a later record replacing an earlier one.
pub open spec fn keyed(items: Seq<Detail>) -> Map<FileId, Detail>
    decreases items.len(),
{
    if items.len() == 0 {
        Map::empty()
    } else {
        keyed(items.drop_last()).insert(items.last().file_id, items.last())
    }
}

/// Stores each record under its identifier.
pub fn deserialize(items: Vec<Detail>) -> (r: HashMap<FileId, Detail>)
    ensures
        r@ == keyed(items@),
{
    let ghost all = items@;
    let mut items = items;
    let mut map: HashMap<FileId, Detail> = HashMap::new();
    let ghost mut i: int = 0;
    while items.len() > 0
        invariant
            0 <= i <= all.len(),
            items@ == all.skip(i),
            map@ == keyed(all.take(i)),
        decreases items.len(),
    {
        let item = items.remove(0);
        proof {
            assert(all.take(i + 1).drop_last() =~= all.take(i));
            assert(all.skip(i + 1) =~= all.skip(i).remove(0));
            i = i + 1;
        }
        map.insert(item.file_id, item);
    }
    proof {
        assert(all.take(i) =~= all);
    }
    map
}

} // verus!
