//! The octree of a COPC file: voxel addresses, the entries of its hierarchy
//! and the pages that they are stored in.

use crate::bytes::{take_i32_le, take_u64_le};
use crate::copc_reader::CopcError;
use vstd::prelude::*;

verus! {

/// The address of a voxel: its level in the octree and its place there.
#[derive(Clone, Copy, Debug, Hash, PartialEq, Eq, Structural)]
pub struct VoxelKey {
    pub level: i32,
    pub x: i32,
    pub y: i32,
    pub z: i32,
}

impl Default for VoxelKey {
    fn default() -> (r: VoxelKey)
        ensures
            r == (VoxelKey { level: -1i32, x: 0, y: 0, z: 0 }),
    {
        VoxelKey { level: -1, x: 0, y: 0, z: 0 }
    }
}

/// A coordinate one level down: doubled, with the low bit chosen.
pub open spec fn finer(n: i32, bit: i32) -> i32 {
    (n << 1) | bit
}

/// A coordinate one level up: halved, with the highest bit clear.
pub open spec fn coarser(n: i32) -> i32 {
    (n >> 1) & 0x7fff_ffff
}

impl VoxelKey {
    /// The voxel one level up that this one is a part of.
    pub open spec fn parent(self) -> VoxelKey {
        VoxelKey {
            level: (self.level - 1) as i32,
            x: coarser(self.x),
            y: coarser(self.y),
            z: coarser(self.z),
        }
    }

    /// The direction in which this voxel lies in its parent.
    pub open spec fn direction(self) -> int {
        (self.x & 1) + 2 * (self.y & 1) + 4 * (self.z & 1)
    }

    /// The child of this voxel in direction `dir`, whose three bits choose a
    /// half along x, y and z.
    pub open spec fn child(self, dir: int) -> VoxelKey {
        VoxelKey {
            level: (self.level + 1) as i32,
            x: finer(self.x, (dir % 2) as i32),
            y: finer(self.y, (dir / 2 % 2) as i32),
            z: finer(self.z, (dir / 4 % 2) as i32),
        }
    }

    /// Reads the four little-endian numbers of a key.
    pub fn read_from(buf: &[u8], at: usize) -> (r: Result<VoxelKey, CopcError>)
        requires
            at <= buf@.len(),
        ensures
            r == key_record(buf@.skip(at as int)),
    {
        let n: usize = buf.len();
        if n - at < 16 {
            return Err(CopcError::UnexpectedEof);
        }
        let ghost rest = buf@.skip(at as int);
        assert(buf@.subrange(at as int, at + 4) =~= rest.subrange(0, 4));
        assert(buf@.subrange(at + 4, at + 8) =~= rest.subrange(4, 8));
        assert(buf@.subrange(at + 8, at + 12) =~= rest.subrange(8, 12));
        assert(buf@.subrange(at + 12, at + 16) =~= rest.subrange(12, 16));
        match (
            take_i32_le(buf, at),
            take_i32_le(buf, at + 4),
            take_i32_le(buf, at + 8),
            take_i32_le(buf, at + 12),
        ) {
            (Some(level), Some(x), Some(y), Some(z)) => Ok(VoxelKey { level, x, y, z }),
            _ => Err(CopcError::UnexpectedEof),
        }
    }

    /// The eight voxels that this one is split into, in the order of their
    /// directions.
    pub fn children(&self) -> (r: Vec<VoxelKey>)
        requires
            self.level < i32::MAX,
        ensures
            r@ == Seq::new(8, |dir: int| self.child(dir)),
    {
        let mut out: Vec<VoxelKey> = Vec::new();
        let mut dir: i32 = 0;
        while dir < 8
            invariant
                self.level < i32::MAX,
                0 <= dir <= 8,
                out@ =~= Seq::new(dir as nat, |d: int| self.child(d)),
            decreases 8 - dir,
        {
            out.push(
                VoxelKey {
                    level: self.level + 1,
                    x: (self.x << 1) | (dir % 2),
                    y: (self.y << 1) | (dir / 2 % 2),
                    z: (self.z << 1) | (dir / 4 % 2),
                },
            );
            dir += 1;
        }
        out
    }
}

/// The signed 32-bit number at `at`.
pub open spec fn signed_at(s: Seq<u8>, at: int) -> i32 {
    crate::bytes::as_signed_32(crate::bytes::le_value(s.subrange(at, at + 4))) as i32
}

/// The key that the first 16 bytes of `s` spell.
pub open spec fn key_record(s: Seq<u8>) -> Result<VoxelKey, CopcError> {
    if s.len() < 16 {
        Err(CopcError::UnexpectedEof)
    } else {
        Ok(
            VoxelKey {
                level: signed_at(s, 0),
                x: signed_at(s, 4),
                y: signed_at(s, 8),
                z: signed_at(s, 12),
            },
        )
    }
}

/// One entry of the hierarchy: a chunk of points, or the place of a further
/// page of entries.
#[derive(Clone, Copy, Debug, PartialEq, Eq, Structural)]
pub struct Entry {
    pub key: VoxelKey,
    pub offset: u64,
    pub byte_size: i32,
    pub point_count: i32,
}

/// The entry that the first 32 bytes of `s` spell.
pub open spec fn entry_record(s: Seq<u8>) -> Result<Entry, CopcError> {
    if s.len() < 32 {
        Err(CopcError::UnexpectedEof)
    } else {
        Ok(
            Entry {
                key: key_record(s)->Ok_0,
                offset: crate::bytes::le_value(s.subrange(16, 24)) as u64,
                byte_size: signed_at(s, 24),
                point_count: signed_at(s, 28),
            },
        )
    }
}

impl Entry {
    /// Reads one entry.
    pub fn read_from(buf: &[u8], at: usize) -> (r: Result<Entry, CopcError>)
        requires
            at <= buf@.len(),
        ensures
            r == entry_record(buf@.skip(at as int)),
    {
        let n: usize = buf.len();
        if n - at < 32 {
            return Err(CopcError::UnexpectedEof);
        }
        let ghost rest = buf@.skip(at as int);
        assert(buf@.subrange(at + 16, at + 24) =~= rest.subrange(16, 24));
        assert(buf@.subrange(at + 24, at + 28) =~= rest.subrange(24, 28));
        assert(buf@.subrange(at + 28, at + 32) =~= rest.subrange(28, 32));
        match (
            VoxelKey::read_from(buf, at),
            take_u64_le(buf, at + 16),
            take_i32_le(buf, at + 24),
            take_i32_le(buf, at + 28),
        ) {
            (Ok(key), Some(offset), Some(byte_size), Some(point_count)) => Ok(
                Entry { key, offset, byte_size, point_count },
            ),
            _ => Err(CopcError::UnexpectedEof),
        }
    }
}

/// A page of the hierarchy.
#[derive(Debug)]
pub struct HierarchyPage {
    pub entries: Vec<Entry>,
}

/// The first `count` entries that `s` spells.
pub open spec fn entry_records(s: Seq<u8>, count: nat) -> Seq<Entry> {
    Seq::new(count, |i: int| entry_record(s.skip(32 * i))->Ok_0)
}

impl HierarchyPage {
    /// Reads a page of `page_size` bytes: as many entries as fit in it. The
    /// page is cut short where the bytes end before its last entry.
    pub fn read_from(buf: &[u8], page_size: u64) -> (r: Result<HierarchyPage, CopcError>)
        ensures
            r is Ok <==> 32 * (page_size / 32) <= buf@.len(),
            r is Ok ==> r->Ok_0.entries@ == entry_records(buf@, (page_size / 32) as nat),
            r is Err ==> r->Err_0 == CopcError::UnexpectedEof,
    {
        let num_entries: u64 = page_size / 32;
        let mut entries: Vec<Entry> = Vec::new();
        let mut i: u64 = 0;
        let mut at: usize = 0;
        while i < num_entries
            invariant
                i <= num_entries,
                num_entries == page_size / 32,
                at == 32 * i,
                at <= buf@.len(),
                entries@ =~= entry_records(buf@, i as nat),
            decreases num_entries - i,
        {
            match Entry::read_from(buf, at) {
                Ok(entry) => {
                    entries.push(entry);
                    i += 1;
                    assert(at + 32 <= buf.len());
                    at += 32;
                },
                Err(e) => {
                    return Err(e);
                },
            }
        }
        Ok(HierarchyPage { entries })
    }
}

/// A finer coordinate tells which half it is and, as long as doubling does
/// not overflow, which coordinate it refines.
pub(crate) proof fn lemma_finer(n: i32, bit: i32)
    requires
        bit == 0 || bit == 1,
    ensures
        finer(n, bit) & 1 == bit,
        -0x4000_0000 <= n < 0x4000_0000 ==> finer(n, bit) == 2 * n + bit && finer(n, bit) >> 1
            == n,
{
    assert(((n << 1) | bit) & 1 == bit) by (bit_vector)
        requires
            bit == 0 || bit == 1,
    ;
    if -0x4000_0000 <= n < 0x4000_0000 {
        assert(((n << 1) | bit) == 2 * n + bit && ((n << 1) | bit) >> 1 == n) by (bit_vector)
            requires
                -0x4000_0000 <= n < 0x4000_0000,
                bit == 0 || bit == 1,
        ;
    }
}

/// The children of a voxel are eight different voxels.
pub proof fn law_children_are_distinct(key: VoxelKey, a: int, b: int)
    requires
        0 <= a < 8,
        0 <= b < 8,
        key.child(a) == key.child(b),
    ensures
        a == b,
{
    lemma_finer(key.x, (a % 2) as i32);
    lemma_finer(key.x, (b % 2) as i32);
    lemma_finer(key.y, (a / 2 % 2) as i32);
    lemma_finer(key.y, (b / 2 % 2) as i32);
    lemma_finer(key.z, (a / 4 % 2) as i32);
    lemma_finer(key.z, (b / 4 % 2) as i32);
}

/// A coordinate that is not negative is found again from the finer one, and
/// every coordinate refines its coarser one.
proof fn lemma_coarser(n: i32, bit: i32)
    requires
        bit == 0 || bit == 1,
    ensures
        n >= 0 ==> coarser(finer(n, bit)) == n,
        finer(coarser(n), n & 1) == n,
        n & 1 == 0 || n & 1 == 1,
        coarser(n) >= 0,
{
    assert(n >= 0 ==> ((((n << 1) | bit) >> 1) & 0x7fff_ffff) == n) by (bit_vector)
        requires
            bit == 0 || bit == 1,
    ;
    assert(((((n >> 1) & 0x7fff_ffff) << 1) | (n & 1)) == n) by (bit_vector);
    assert(n & 1 == 0 || n & 1 == 1) by (bit_vector);
    assert(((n >> 1) & 0x7fff_ffff) >= 0) by (bit_vector);
}

/// A voxel whose coordinates are not negative is the parent of its children.
pub proof fn law_child_has_parent(key: VoxelKey, dir: int)
    requires
        key.level < i32::MAX,
        key.x >= 0,
        key.y >= 0,
        key.z >= 0,
        0 <= dir < 8,
    ensures
        key.child(dir).parent() == key,
{
    lemma_coarser(key.x, (dir % 2) as i32);
    lemma_coarser(key.y, (dir / 2 % 2) as i32);
    lemma_coarser(key.z, (dir / 4 % 2) as i32);
}

/// Every voxel is a child of its parent.
pub proof fn law_voxel_is_child_of_its_parent(key: VoxelKey)
    requires
        key.level > i32::MIN,
    ensures
        0 <= key.direction() < 8,
        key.parent().child(key.direction()) == key,
{
    lemma_coarser(key.x, 0);
    lemma_coarser(key.y, 0);
    lemma_coarser(key.z, 0);
    let dir = key.direction();
    assert(dir % 2 == key.x & 1);
    assert(dir / 2 % 2 == key.y & 1);
    assert(dir / 4 % 2 == key.z & 1);
}

/// A child lies one level down, in the lower or the upper half of its voxel
/// along each axis: the lowest bit of the direction chooses along x, the next
/// along y, the next along z.
pub proof fn law_children_lie_in_halves(key: VoxelKey, dir: int)
    requires
        key.level < i32::MAX,
        -0x4000_0000 <= key.x < 0x4000_0000,
        -0x4000_0000 <= key.y < 0x4000_0000,
        -0x4000_0000 <= key.z < 0x4000_0000,
        0 <= dir < 8,
    ensures
        key.child(dir).level == key.level + 1,
        key.child(dir).x == 2 * key.x + dir % 2,
        key.child(dir).y == 2 * key.y + dir / 2 % 2,
        key.child(dir).z == 2 * key.z + dir / 4,
{
    lemma_finer(key.x, (dir % 2) as i32);
    lemma_finer(key.y, (dir / 2 % 2) as i32);
    lemma_finer(key.z, (dir / 4 % 2) as i32);
}

/// The parent of a voxel whose coordinates are not negative lies one level up,
/// at half its coordinates, rounded down.
pub proof fn law_parents_have_half_the_coordinates(key: VoxelKey)
    requires
        key.level > i32::MIN,
        key.x >= 0,
        key.y >= 0,
        key.z >= 0,
    ensures
        key.parent().level == key.level - 1,
        key.parent().x == key.x / 2,
        key.parent().y == key.y / 2,
        key.parent().z == key.z / 2,
{
    lemma_half(key.x);
    lemma_half(key.y);
    lemma_half(key.z);
}

proof fn lemma_half(n: i32)
    requires
        n >= 0,
    ensures
        coarser(n) == n / 2,
{
    let m = n as u32;
    assert(((n >> 1) & 0x7fff_ffff) as u32 == (n as u32) >> 1 && ((n >> 1) & 0x7fff_ffff) >= 0)
        by (bit_vector)
        requires
            n >= 0,
    ;
    assert(m >> 1 == m / 2) by (bit_vector);
}

// ---------------------------------------------------- what is read back

/// The four bytes of a signed number, least significant first.
pub open spec fn signed_bytes(n: i32) -> Seq<u8> {
    crate::bytes::le_bytes(
        (if n >= 0 {
            n as int
        } else {
            n + 0x1_0000_0000
        }) as nat,
        4,
    )
}

/// A key as it is stored.
pub open spec fn key_bytes(key: VoxelKey) -> Seq<u8> {
    signed_bytes(key.level) + signed_bytes(key.x) + signed_bytes(key.y) + signed_bytes(key.z)
}

/// An entry as it is stored.
pub open spec fn entry_bytes(entry: Entry) -> Seq<u8> {
    key_bytes(entry.key) + crate::bytes::le_bytes(entry.offset as nat, 8) + signed_bytes(
        entry.byte_size,
    ) + signed_bytes(entry.point_count)
}

/// Entries as they are stored, one after the other.
pub open spec fn page_bytes(entries: Seq<Entry>) -> Seq<u8>
    decreases entries.len(),
{
    if entries.len() == 0 {
        Seq::empty()
    } else {
        page_bytes(entries.drop_last()) + entry_bytes(entries.last())
    }
}

pub(crate) proof fn lemma_signed_bytes(s: Seq<u8>, at: int, n: i32)
    requires
        0 <= at,
        at + 4 <= s.len(),
        s.subrange(at, at + 4) == signed_bytes(n),
    ensures
        signed_at(s, at) == n,
{
    let pattern = (if n >= 0 {
        n as int
    } else {
        n + 0x1_0000_0000
    }) as nat;
    reveal_with_fuel(crate::bytes::byte_range, 5);
    crate::bytes::lemma_le_round_trip(pattern, 4);
    crate::bytes::law_signed_reading(pattern);
}

/// Reading a key gives back what was stored, whatever follows it.
pub proof fn law_key_is_read_back(key: VoxelKey, rest: Seq<u8>)
    ensures
        key_bytes(key).len() == 16,
        key_record(key_bytes(key) + rest) == Ok::<VoxelKey, CopcError>(key),
{
    broadcast use crate::bytes::lemma_le_bytes_len;

    let s = key_bytes(key) + rest;
    assert(s.subrange(0, 4) =~= signed_bytes(key.level));
    assert(s.subrange(4, 8) =~= signed_bytes(key.x));
    assert(s.subrange(8, 12) =~= signed_bytes(key.y));
    assert(s.subrange(12, 16) =~= signed_bytes(key.z));
    lemma_signed_bytes(s, 0, key.level);
    lemma_signed_bytes(s, 4, key.x);
    lemma_signed_bytes(s, 8, key.y);
    lemma_signed_bytes(s, 12, key.z);
}

/// Reading an entry gives back what was stored, whatever follows it.
pub proof fn law_entry_is_read_back(entry: Entry, rest: Seq<u8>)
    ensures
        entry_bytes(entry).len() == 32,
        entry_record(entry_bytes(entry) + rest) == Ok::<Entry, CopcError>(entry),
{
    broadcast use crate::bytes::lemma_le_bytes_len;

    let offset = crate::bytes::le_bytes(entry.offset as nat, 8);
    let tail = offset + signed_bytes(entry.byte_size) + signed_bytes(entry.point_count) + rest;
    let s = entry_bytes(entry) + rest;
    assert(s =~= key_bytes(entry.key) + tail);
    law_key_is_read_back(entry.key, tail);
    assert(s.subrange(16, 24) =~= offset);
    assert(s.subrange(24, 28) =~= signed_bytes(entry.byte_size));
    assert(s.subrange(28, 32) =~= signed_bytes(entry.point_count));
    reveal_with_fuel(crate::bytes::byte_range, 9);
    crate::bytes::lemma_le_round_trip(entry.offset as nat, 8);
    lemma_signed_bytes(s, 24, entry.byte_size);
    lemma_signed_bytes(s, 28, entry.point_count);
}

/// Reading a page gives back the entries that were stored, in their order,
/// whatever follows them.
pub proof fn law_page_is_read_back(entries: Seq<Entry>, rest: Seq<u8>)
    ensures
        page_bytes(entries).len() == 32 * entries.len(),
        entry_records(page_bytes(entries) + rest, entries.len()) == entries,
    decreases entries.len(),
{
    let s = page_bytes(entries) + rest;
    let read = entry_records(s, entries.len());
    if entries.len() > 0 {
        let head = entries.drop_last();
        let own = entry_bytes(entries.last());
        law_page_is_read_back(head, own + rest);
        law_entry_is_read_back(entries.last(), rest);
        let before = page_bytes(head);
        assert(s =~= before + (own + rest));
        assert(s.skip(before.len() as int) =~= own + rest);
        assert forall|i: int| 0 <= i < entries.len() implies read[i] == entries[i] by {
            if i < head.len() {
                assert(entry_records(before + (own + rest), head.len())[i] == head[i]);
            }
        }
    }
    assert(read =~= entries);
}

} // verus!
