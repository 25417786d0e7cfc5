//! The hierarchy of a COPC file, held by voxel.

use crate::copc_reader::octree::{Entry, VoxelKey};
use std::collections::HashMap;
use vstd::prelude::*;

verus! {

/// One number for a voxel address.
pub open spec fn code_of(key: VoxelKey) -> int {
    ((key.level + 0x8000_0000) * 0x1_0000_0000_0000_0000_0000_0000
        + (key.x + 0x8000_0000) * 0x1_0000_0000_0000_0000
        + (key.y + 0x8000_0000) * 0x1_0000_0000
        + (key.z + 0x8000_0000))
}

/// No two voxel addresses share a number.
pub proof fn law_code_is_unique(a: VoxelKey, b: VoxelKey)
    ensures
        0 <= code_of(a) <= u128::MAX,
        code_of(a) == code_of(b) ==> a == b,
{
}

fn code(key: &VoxelKey) -> (r: u128)
    ensures
        r == code_of(*key),
{
    proof {
        law_code_is_unique(*key, *key);
    }
    let l: u128 = (key.level as i64 + 0x8000_0000) as u128;
    let x: u128 = (key.x as i64 + 0x8000_0000) as u128;
    let y: u128 = (key.y as i64 + 0x8000_0000) as u128;
    let z: u128 = (key.z as i64 + 0x8000_0000) as u128;
    l * 0x1_0000_0000_0000_0000_0000_0000 + x * 0x1_0000_0000_0000_0000 + y * 0x1_0000_0000 + z
}

/// The entries of the hierarchy, each found by its voxel.
pub struct Hierarchy {
    by_code: HashMap<u128, Entry>,
    deepest: Option<i32>,
}

impl View for Hierarchy {
    type V = Map<VoxelKey, Entry>;

    closed spec fn view(&self) -> Map<VoxelKey, Entry> {
        Map::new(
            |key: VoxelKey| self.by_code@.contains_key(code_of(key) as u128),
            |key: VoxelKey| self.by_code@[code_of(key) as u128],
        )
    }
}

/// Whether `level` is the deepest level that occurs among the voxels of `m`.
pub open spec fn is_deepest(m: Map<VoxelKey, Entry>, level: i32) -> bool {
    &&& exists|key: VoxelKey| #[trigger] m.contains_key(key) && key.level == level
    &&& forall|key: VoxelKey| #[trigger] m.contains_key(key) ==> key.level <= level
}

impl Hierarchy {
    /// The deepest level is kept up to date.
    pub closed spec fn wf(self) -> bool {
        match self.deepest {
            Some(level) => is_deepest(self@, level),
            None => self@ == Map::<VoxelKey, Entry>::empty(),
        }
    }

    /// A hierarchy without entries.
    pub fn new() -> (r: Hierarchy)
        ensures
            r.wf(),
            r@ == Map::<VoxelKey, Entry>::empty(),
    {
        broadcast use vstd::std_specs::hash::group_hash_axioms;

        let r = Hierarchy { by_code: HashMap::new(), deepest: None };
        assert(r@ =~= Map::<VoxelKey, Entry>::empty());
        r
    }

    /// Files an entry under its voxel, in place of an earlier one.
    pub fn insert(&mut self, entry: Entry)
        requires
            old(self).wf(),
        ensures
            final(self).wf(),
            final(self)@ == old(self)@.insert(entry.key, entry),
    {
        broadcast use vstd::std_specs::hash::group_hash_axioms;

        let ghost before = self@;
        let deepest: i32 = match self.deepest {
            Some(level) => if entry.key.level > level {
                entry.key.level
            } else {
                level
            },
            None => entry.key.level,
        };
        self.by_code.insert(code(&entry.key), entry);
        self.deepest = Some(deepest);
        proof {
            assert forall|key: VoxelKey| #[trigger]
                before.insert(entry.key, entry).contains_key(key) == self@.contains_key(
                    key,
                ) by {
                law_code_is_unique(key, entry.key);
            }
            assert forall|key: VoxelKey| #[trigger] self@.contains_key(key) implies self@[key]
                == before.insert(entry.key, entry)[key] by {
                law_code_is_unique(key, entry.key);
            }
            assert(self@ =~= before.insert(entry.key, entry));
            if deepest == entry.key.level {
                assert(self@.contains_key(entry.key));
            } else {
                let key = choose|key: VoxelKey| #[trigger]
                    before.contains_key(key) && key.level == deepest;
                assert(self@.contains_key(key));
            }
        }
    }

    /// The entry of a voxel.
    pub fn get(&self, key: &VoxelKey) -> (r: Option<Entry>)
        ensures
            r == (if self@.contains_key(*key) {
                Some(self@[*key])
            } else {
                None
            }),
    {
        broadcast use vstd::std_specs::hash::group_hash_axioms;

        match self.by_code.get(&code(key)) {
            Some(entry) => Some(*entry),
            None => None,
        }
    }

    /// The deepest level that occurs, or 0 where there are no entries.
    pub fn max_octree_level(&self) -> (r: i32)
        requires
            self.wf(),
        ensures
            self@ == Map::<VoxelKey, Entry>::empty() ==> r == 0,
            self@ != Map::<VoxelKey, Entry>::empty() ==> is_deepest(self@, r),
    {
        match self.deepest {
            Some(level) => level,
            None => 0,
        }
    }
}

} // verus!
