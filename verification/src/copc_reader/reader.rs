//! Opening a COPC file: finding its records and reading its hierarchy.

use crate::bytes::take_u64_le;
use crate::copc_reader::hierarchy::Hierarchy;
use crate::copc_reader::octree::{Entry, HierarchyPage, VoxelKey};
use crate::copc_reader::CopcError;
use crate::text::same_text;
use vstd::prelude::*;

verus! {

// ------------------------------------------------------------- info record

/// What the COPC info record says. The five measures are doubles, held by
/// their bits.
#[derive(Clone, Copy, Debug, PartialEq, Eq, Structural)]
pub struct CopcInfo {
    pub center_x: u64,
    pub center_y: u64,
    pub center_z: u64,
    pub halfsize: u64,
    pub spacing: u64,
    pub root_hier_offset: u64,
    pub root_hier_size: u64,
}

/// The unsigned 64-bit number in the bytes from `at` on.
pub open spec fn word_at(s: Seq<u8>, at: int) -> u64 {
    crate::bytes::le_value(s.subrange(at, at + 8)) as u64
}

/// The info record that `s` spells. What follows the seven numbers is ignored.
pub open spec fn info_record(s: Seq<u8>) -> Result<CopcInfo, CopcError> {
    if s.len() < 56 {
        Err(CopcError::UnexpectedEof)
    } else {
        Ok(
            CopcInfo {
                center_x: word_at(s, 0),
                center_y: word_at(s, 8),
                center_z: word_at(s, 16),
                halfsize: word_at(s, 24),
                spacing: word_at(s, 32),
                root_hier_offset: word_at(s, 40),
                root_hier_size: word_at(s, 48),
            },
        )
    }
}

impl CopcInfo {
    /// Reads the info record.
    pub fn read_from(data: &[u8]) -> (r: Result<CopcInfo, CopcError>)
        ensures
            r == info_record(data@),
    {
        if data.len() < 56 {
            return Err(CopcError::UnexpectedEof);
        }
        match (
            take_u64_le(data, 0),
            take_u64_le(data, 8),
            take_u64_le(data, 16),
            take_u64_le(data, 24),
            take_u64_le(data, 32),
            take_u64_le(data, 40),
            take_u64_le(data, 48),
        ) {
            (
                Some(center_x),
                Some(center_y),
                Some(center_z),
                Some(halfsize),
                Some(spacing),
                Some(root_hier_offset),
                Some(root_hier_size),
            ) => Ok(
                CopcInfo {
                    center_x,
                    center_y,
                    center_z,
                    halfsize,
                    spacing,
                    root_hier_offset,
                    root_hier_size,
                },
            ),
            _ => Err(CopcError::UnexpectedEof),
        }
    }
}

// ----------------------------------------------------------------- records

/// A variable length record of the file.
pub struct Vlr {
    pub user_id: String,
    pub record_id: u16,
    pub data: Vec<u8>,
}

/// What a record is for.
#[derive(Clone, Copy, Debug, PartialEq, Eq, Structural)]
pub enum VlrRole {
    CopcInfo,
    Hierarchy,
    LasZip,
    Other,
}

/// The role of a record, from its user id in lower case and its record id.
pub open spec fn role_of(user_id: Seq<char>, record_id: u16) -> VlrRole {
    if user_id == "copc"@ && record_id == 1 {
        VlrRole::CopcInfo
    } else if user_id == "copc"@ && record_id == 1000 {
        VlrRole::Hierarchy
    } else if user_id == "laszip encoded"@ && record_id == 22204 {
        VlrRole::LasZip
    } else {
        VlrRole::Other
    }
}

/// Decides what a record is for.
pub fn vlr_role(user_id: &str, record_id: u16) -> (r: VlrRole)
    ensures
        r == role_of(user_id@, record_id),
{
    if record_id == 1 && same_text(user_id, "copc") {
        VlrRole::CopcInfo
    } else if record_id == 1000 && same_text(user_id, "copc") {
        VlrRole::Hierarchy
    } else if record_id == 22204 && same_text(user_id, "laszip encoded") {
        VlrRole::LasZip
    } else {
        VlrRole::Other
    }
}

/// What `str::to_lowercase` makes of a text.
pub uninterp spec fn lowercase_of(s: Seq<char>) -> Seq<char>;

/// Calls `str::to_lowercase`. Claims that the result is a function of the
/// text alone.
#[verifier::external_body]
fn lowercase(s: &str) -> (r: String)
    ensures
        r@ == lowercase_of(s@),
{
    s.to_lowercase()
}

/// The type of the `i`th item of a LasZip record.
pub open spec fn laz_item_type(data: Seq<u8>, i: int) -> nat {
    crate::bytes::le_value(data.subrange(34 + 6 * i, 36 + 6 * i))
}

/// Whether these bytes are a LasZip record: 34 bytes that begin with the
/// compressor and end with the number of items, then six bytes for each item,
/// which begin with its type.
pub open spec fn laz_vlr_readable(data: Seq<u8>) -> bool {
    let count = crate::bytes::le_value(data.subrange(32, 34));
    &&& data.len() >= 34
    &&& crate::bytes::le_value(data.subrange(0, 2)) <= 3
    &&& data.len() >= 34 + 6 * count
    &&& forall|i: int|
        0 <= i < count ==> (#[trigger] laz_item_type(data, i) == 0 || 6 <= laz_item_type(data, i)
            <= 14)
}

/// Calls `laz::laszip::LazVlr::read_from` on the bytes. Claims that it reads
/// records with a known compressor whose items are complete and of known
/// types, and nothing else.
#[verifier::external_body]
fn can_read_laz_vlr(data: &[u8]) -> (r: bool)
    ensures
        r == laz_vlr_readable(data@),
{
    laz::laszip::LazVlr::read_from(data).is_ok()
}

/// The records that matter, as far as they have been seen: the contents of the
/// info record and the positions of the other two.
#[derive(Clone, Copy, Debug, PartialEq, Eq, Structural)]
pub struct VlrScan {
    pub info: Option<CopcInfo>,
    pub hierarchy: Option<usize>,
    pub laszip: Option<usize>,
}

/// What one more record, at position `at`, adds. A later record takes the
/// place of an earlier one of the same role. `laz_readable` says whether the
/// data can be read as a LasZip record.
pub open spec fn scan_one(
    scan: VlrScan,
    role: VlrRole,
    data: Seq<u8>,
    laz_readable: bool,
    at: usize,
) -> Result<VlrScan, CopcError> {
    match role {
        VlrRole::CopcInfo => match info_record(data) {
            Ok(info) => Ok(VlrScan { info: Some(info), ..scan }),
            Err(e) => Err(e),
        },
        VlrRole::Hierarchy => Ok(VlrScan { hierarchy: Some(at), ..scan }),
        VlrRole::LasZip => if laz_readable {
            Ok(VlrScan { laszip: Some(at), ..scan })
        } else {
            Err(CopcError::LasZip)
        },
        VlrRole::Other => Ok(scan),
    }
}

/// Takes in one more record.
pub fn note_vlr(scan: VlrScan, role: VlrRole, data: &[u8], laz_readable: bool, at: usize) -> (r:
    Result<VlrScan, CopcError>)
    ensures
        r == scan_one(scan, role, data@, laz_readable, at),
{
    match role {
        VlrRole::CopcInfo => match CopcInfo::read_from(data) {
            Ok(info) => Ok(
                VlrScan { info: Some(info), hierarchy: scan.hierarchy, laszip: scan.laszip },
            ),
            Err(e) => Err(e),
        },
        VlrRole::Hierarchy => Ok(
            VlrScan { info: scan.info, hierarchy: Some(at), laszip: scan.laszip },
        ),
        VlrRole::LasZip => if laz_readable {
            Ok(VlrScan { info: scan.info, hierarchy: scan.hierarchy, laszip: Some(at) })
        } else {
            Err(CopcError::LasZip)
        },
        VlrRole::Other => Ok(scan),
    }
}

/// What all the records say, taken in order; the first that cannot be read
/// ends the scan.
pub open spec fn scan_of(vlrs: Seq<Vlr>) -> Result<VlrScan, CopcError>
    decreases vlrs.len(),
{
    if vlrs.len() == 0 {
        Ok(VlrScan { info: None, hierarchy: None, laszip: None })
    } else {
        match scan_of(vlrs.drop_last()) {
            Ok(scan) => scan_one(
                scan,
                role_of(lowercase_of(vlrs.last().user_id@), vlrs.last().record_id),
                vlrs.last().data@,
                laz_vlr_readable(vlrs.last().data@),
                (vlrs.len() - 1) as usize,
            ),
            Err(e) => Err(e),
        }
    }
}

/// A scan that has failed stays failed.
proof fn lemma_scan_fails(vlrs: Seq<Vlr>, n: int)
    requires
        0 <= n <= vlrs.len(),
        scan_of(vlrs.take(n)) is Err,
    ensures
        scan_of(vlrs) == scan_of(vlrs.take(n)),
    decreases vlrs.len(),
{
    if n == vlrs.len() {
        assert(vlrs.take(n) =~= vlrs);
    } else {
        assert(vlrs.drop_last().take(n) =~= vlrs.take(n));
        lemma_scan_fails(vlrs.drop_last(), n);
    }
}

/// Goes through the records of a file.
pub fn scan_vlrs(vlrs: &[Vlr]) -> (r: Result<VlrScan, CopcError>)
    ensures
        r == scan_of(vlrs@),
{
    let mut scan = VlrScan { info: None, hierarchy: None, laszip: None };
    let n: usize = vlrs.len();
    let mut i: usize = 0;
    assert(vlrs@.take(0) =~= Seq::<Vlr>::empty());
    while i < n
        invariant
            i <= n,
            n == vlrs@.len(),
            scan_of(vlrs@.take(i as int)) == Ok::<VlrScan, CopcError>(scan),
        decreases n - i,
    {
        let vlr = &vlrs[i];
        let user_id = lowercase(vlr.user_id.as_str());
        proof {
            assert(vlrs@.take(i + 1).drop_last() =~= vlrs@.take(i as int));
            assert(vlrs@.take(i + 1).last() == vlrs@[i as int]);
        }
        let role = vlr_role(user_id.as_str(), vlr.record_id);
        let data = vlr.data.as_slice();
        let laz_readable = match role {
            VlrRole::LasZip => can_read_laz_vlr(data),
            _ => false,
        };
        match note_vlr(scan, role, data, laz_readable, i) {
            Ok(next) => {
                scan = next;
            },
            Err(e) => {
                proof {
                    lemma_scan_fails(vlrs@, i + 1);
                }
                return Err(e);
            },
        }
        i += 1;
    }
    assert(vlrs@.take(n as int) =~= vlrs@);
    Ok(scan)
}

/// The sum of some lengths.
pub open spec fn total(lens: Seq<u64>) -> int
    decreases lens.len(),
{
    if lens.len() == 0 {
        0
    } else {
        total(lens.drop_last()) + lens.last()
    }
}

proof fn lemma_total_grows(lens: Seq<u64>, n: int)
    requires
        0 <= n <= lens.len(),
    ensures
        0 <= total(lens.take(n)) <= total(lens),
    decreases lens.len(),
{
    if n == lens.len() {
        assert(lens.take(n) =~= lens);
        if n > 0 {
            lemma_total_grows(lens.drop_last(), 0);
            assert(lens.take(0) =~= lens.drop_last().take(0));
            assert(total(lens.drop_last().take(0)) == 0);
        }
    } else {
        assert(lens.drop_last().take(n) =~= lens.take(n));
        lemma_total_grows(lens.drop_last(), n);
    }
}

/// How many bytes of padding lie between the records and the point data. The
/// records, whose lengths are `vlr_lens`, follow the header; the file begins
/// at `start` in its stream. The records may not reach into the point data.
pub fn vlr_padding(
    header_size: u16,
    vlr_lens: &[u64],
    offset_to_point_data: u32,
    start: u64,
) -> (r: Result<u64, CopcError>)
    requires
        header_size + total(vlr_lens@) <= u64::MAX,
        offset_to_point_data + start <= u64::MAX,
    ensures
        ({
            let position = header_size + total(vlr_lens@);
            match r {
                Ok(n) => position <= offset_to_point_data && n == (if position
                    == offset_to_point_data {
                    0
                } else {
                    offset_to_point_data + start - position
                }),
                Err(e) => position > offset_to_point_data && e
                    == CopcError::OffsetToPointDataTooSmall(offset_to_point_data),
            }
        }),
{
    let mut position: u64 = header_size as u64;
    let n: usize = vlr_lens.len();
    let mut i: usize = 0;
    while i < n
        invariant
            i <= n,
            n == vlr_lens@.len(),
            header_size + total(vlr_lens@) <= u64::MAX,
            position == header_size + total(vlr_lens@.take(i as int)),
        decreases n - i,
    {
        proof {
            lemma_total_grows(vlr_lens@, i + 1);
            assert(vlr_lens@.take(i + 1).drop_last() =~= vlr_lens@.take(i as int));
        }
        position += vlr_lens[i];
        i += 1;
    }
    assert(vlr_lens@.take(n as int) =~= vlr_lens@);
    let offset: u64 = offset_to_point_data as u64;
    if position < offset {
        Ok(offset + start - position)
    } else if position == offset {
        Ok(0)
    } else {
        Err(CopcError::OffsetToPointDataTooSmall(offset_to_point_data))
    }
}

// --------------------------------------------------------------- hierarchy

/// An entry that points to a further page of the hierarchy.
pub open spec fn is_page(entry: Entry) -> bool {
    entry.point_count == -1
}

/// Taking entries off the end of `pending` and filing them, up to and
/// including the first that points to a page: what is left, what has been
/// filed, and that entry.
pub open spec fn settled(pending: Seq<Entry>, filed: Map<VoxelKey, Entry>) -> (
    Seq<Entry>,
    Map<VoxelKey, Entry>,
    Option<Entry>,
)
    decreases pending.len(),
{
    if pending.len() == 0 {
        (pending, filed, None)
    } else if is_page(pending.last()) {
        (pending.drop_last(), filed, Some(pending.last()))
    } else {
        settled(pending.drop_last(), filed.insert(pending.last().key, pending.last()))
    }
}

/// Whether every entry is filed under its own voxel, and none points to a
/// page.
pub open spec fn holds_chunks(filed: Map<VoxelKey, Entry>) -> bool {
    forall|key: VoxelKey| #[trigger]
        filed.contains_key(key) ==> filed[key].key == key && !is_page(filed[key])
}

/// Entries that point to pages never end up in the hierarchy, and each entry
/// is found under its own voxel.
pub proof fn law_settled_holds_chunks(pending: Seq<Entry>, filed: Map<VoxelKey, Entry>)
    requires
        holds_chunks(filed),
    ensures
        holds_chunks(settled(pending, filed).1),
    decreases pending.len(),
{
    if pending.len() > 0 && !is_page(pending.last()) {
        law_settled_holds_chunks(
            pending.drop_last(),
            filed.insert(pending.last().key, pending.last()),
        );
    }
}

/// Reading the hierarchy page by page. Pages beyond the first are asked for
/// with [`CopcOpening::next_page`] and handed in with
/// [`CopcOpening::add_page`]; when no more are asked for, [`CopcReader::new`]
/// ends the reading.
pub struct CopcOpening {
    copc_info: CopcInfo,
    laszip: Option<usize>,
    pending: Vec<Entry>,
    hierarchy: Hierarchy,
}

impl CopcOpening {
    /// The hierarchy is in order, and holds chunks alone.
    pub closed spec fn wf(self) -> bool {
        self.hierarchy.wf() && holds_chunks(self.hierarchy@)
    }

    /// However far the pages have been read, no entry that has been filed
    /// points to a page, and each is found under its own voxel.
    pub proof fn law_filed_entries_are_chunks(self)
        requires
            self.wf(),
        ensures
            holds_chunks(self.filed()),
    {
    }

    /// The info record.
    pub closed spec fn info(self) -> CopcInfo {
        self.copc_info
    }

    /// Where the LasZip record is.
    pub closed spec fn laszip_at(self) -> Option<usize> {
        self.laszip
    }

    /// The entries that have been read and not yet looked at.
    pub closed spec fn unread(self) -> Seq<Entry> {
        self.pending@
    }

    /// The entries that have been filed.
    pub closed spec fn filed(self) -> Map<VoxelKey, Entry> {
        self.hierarchy@
    }

    /// Starts with the records of the file. The root page of the hierarchy is
    /// in the hierarchy record.
    pub fn begin(vlrs: &[Vlr]) -> (r: Result<CopcOpening, CopcError>)
        ensures
            match scan_of(vlrs@) {
                Err(e) => r == Err::<CopcOpening, CopcError>(e),
                Ok(scan) => match (scan.info, scan.hierarchy) {
                    (None, _) => r == Err::<CopcOpening, CopcError>(CopcError::CopcInfoVlrNotFound),
                    (Some(_), None) => r == Err::<CopcOpening, CopcError>(
                        CopcError::EptHierarchyVlrNotFound,
                    ),
                    (Some(info), Some(at)) => {
                        let data = vlrs@[at as int].data@;
                        let count = (info.root_hier_size / 32) as nat;
                        if 32 * count <= data.len() {
                            &&& r matches Ok(opening)
                            &&& opening.wf()
                            &&& opening.info() == info
                            &&& opening.laszip_at() == scan.laszip
                            &&& opening.unread()
                                == crate::copc_reader::octree::entry_records(data, count)
                            &&& opening.filed() == Map::<VoxelKey, Entry>::empty()
                        } else {
                            r == Err::<CopcOpening, CopcError>(CopcError::UnexpectedEof)
                        }
                    },
                },
            },
    {
        let scan = match scan_vlrs(vlrs) {
            Ok(scan) => scan,
            Err(e) => {
                return Err(e);
            },
        };
        let copc_info = match scan.info {
            Some(info) => info,
            None => {
                return Err(CopcError::CopcInfoVlrNotFound);
            },
        };
        let at: usize = match scan.hierarchy {
            Some(at) => at,
            None => {
                return Err(CopcError::EptHierarchyVlrNotFound);
            },
        };
        assert(vlrs.len() <= usize::MAX);
        proof {
            lemma_scan_positions(vlrs@);
        }
        match HierarchyPage::read_from(vlrs[at].data.as_slice(), copc_info.root_hier_size) {
            Ok(page) => Ok(
                CopcOpening {
                    copc_info,
                    laszip: scan.laszip,
                    pending: page.entries,
                    hierarchy: Hierarchy::new(),
                },
            ),
            Err(e) => Err(e),
        }
    }

    /// Files entries until one points to a further page, which is returned.
    pub fn next_page(&mut self) -> (r: Option<Entry>)
        requires
            old(self).wf(),
        ensures
            final(self).wf(),
            final(self).info() == old(self).info(),
            final(self).laszip_at() == old(self).laszip_at(),
            (final(self).unread(), final(self).filed(), r) == settled(
                old(self).unread(),
                old(self).filed(),
            ),
            r matches Some(entry) ==> is_page(entry),
            r is None ==> final(self).unread().len() == 0,
    {
        let ghost goal = settled(self.unread(), self.filed());
        while self.pending.len() > 0
            invariant
                self.wf(),
                self.info() == old(self).info(),
                self.laszip_at() == old(self).laszip_at(),
                goal == settled(old(self).unread(), old(self).filed()),
                goal == settled(self.unread(), self.filed()),
            decreases self.pending@.len(),
        {
            let ghost before = self.pending@;
            match self.pending.pop() {
                Some(entry) => {
                    assert(before.last() == entry);
                    assert(before.drop_last() =~= self.pending@);
                    if entry.point_count == -1 {
                        return Some(entry);
                    }
                    self.hierarchy.insert(entry);
                },
                None => {},
            }
        }
        None
    }

    /// The info record: center, half size, spacing, place of the hierarchy.
    pub fn copc_info(&self) -> (r: &CopcInfo)
        ensures
            *r == self.info(),
    {
        &self.copc_info
    }

    /// Where the page that `entry` points to is, in the stream, and how many
    /// bytes it has.
    pub fn page_place(&self, entry: &Entry) -> (r: (u64, u64))
        requires
            entry.offset >= self.info().root_hier_offset,
        ensures
            r.0 == entry.offset - self.info().root_hier_offset,
            r.1 == page_size_of(*entry),
    {
        (entry.offset - self.copc_info.root_hier_offset, page_size(entry.byte_size))
    }

    /// Takes in the bytes of the page that `entry` points to.
    pub fn add_page(&mut self, entry: &Entry, bytes: &[u8]) -> (r: Result<(), CopcError>)
        requires
            old(self).wf(),
        ensures
            final(self).wf(),
            final(self).info() == old(self).info(),
            final(self).laszip_at() == old(self).laszip_at(),
            final(self).filed() == old(self).filed(),
            ({
                let count = (page_size_of(*entry) / 32) as nat;
                if 32 * count <= bytes@.len() {
                    &&& r == Ok::<(), CopcError>(())
                    &&& final(self).unread() == old(self).unread()
                        + crate::copc_reader::octree::entry_records(bytes@, count)
                } else {
                    &&& r == Err::<(), CopcError>(CopcError::UnexpectedEof)
                    &&& final(self).unread() == old(self).unread()
                }
            }),
    {
        match HierarchyPage::read_from(bytes, page_size(entry.byte_size)) {
            Ok(page) => {
                let mut entries = page.entries;
                self.pending.append(&mut entries);
                Ok(())
            },
            Err(e) => Err(e),
        }
    }
}

/// The size of the page that an entry points to, as an unsigned number; a
/// negative size wraps around.
pub open spec fn page_size_of(entry: Entry) -> u64 {
    if entry.byte_size >= 0 {
        entry.byte_size as u64
    } else {
        (0x1_0000_0000_0000_0000 + entry.byte_size) as u64
    }
}

fn page_size(byte_size: i32) -> (r: u64)
    ensures
        r == (if byte_size >= 0 {
            byte_size as int
        } else {
            0x1_0000_0000_0000_0000 + byte_size
        }),
{
    if byte_size >= 0 {
        byte_size as u64
    } else {
        u64::MAX - (-(byte_size as i64) - 1) as u64
    }
}

/// The positions that a scan reports are positions of records.
proof fn lemma_scan_positions(vlrs: Seq<Vlr>)
    requires
        vlrs.len() <= usize::MAX,
    ensures
        scan_of(vlrs) matches Ok(scan) ==> {
            &&& scan.hierarchy matches Some(at) ==> at < vlrs.len()
            &&& scan.laszip matches Some(at) ==> at < vlrs.len()
        },
    decreases vlrs.len(),
{
    if vlrs.len() > 0 {
        lemma_scan_positions(vlrs.drop_last());
    }
}

/// A COPC file that has been opened.
pub struct CopcReader {
    copc_info: CopcInfo,
    laszip: usize,
    hierarchy: Hierarchy,
}

impl CopcReader {
    /// The hierarchy is in order, and holds chunks alone.
    pub closed spec fn wf(self) -> bool {
        self.hierarchy.wf() && holds_chunks(self.hierarchy@)
    }

    /// No entry of the hierarchy points to a page, and each is found under its
    /// own voxel.
    pub proof fn law_entries_are_chunks(self)
        requires
            self.wf(),
        ensures
            holds_chunks(self.entries()),
            crate::copc_reader::selection::filed_by_key(self.entries()),
    {
    }

    /// The info record.
    pub closed spec fn info(self) -> CopcInfo {
        self.copc_info
    }

    /// The entries of the hierarchy by their voxels.
    pub closed spec fn entries(self) -> Map<VoxelKey, Entry> {
        self.hierarchy@
    }

    /// The position of the LasZip record.
    pub closed spec fn laszip_at(self) -> usize {
        self.laszip
    }

    /// Ends the opening of a file whose hierarchy has been read. The file must
    /// have a LasZip record.
    pub fn new(opening: CopcOpening) -> (r: Result<CopcReader, CopcError>)
        requires
            opening.wf(),
            opening.unread().len() == 0,
        ensures
            match opening.laszip_at() {
                Some(at) => {
                    &&& r matches Ok(reader)
                    &&& reader.wf()
                    &&& reader.info() == opening.info()
                    &&& reader.entries() == opening.filed()
                    &&& reader.laszip_at() == at
                },
                None => r == Err::<CopcReader, CopcError>(CopcError::LasZipVlrNotFound),
            },
    {
        match opening.laszip {
            Some(laszip) => Ok(
                CopcReader { copc_info: opening.copc_info, laszip, hierarchy: opening.hierarchy },
            ),
            None => Err(CopcError::LasZipVlrNotFound),
        }
    }

    /// The info record: center, half size, spacing, place of the hierarchy.
    pub fn copc_info(&self) -> (r: &CopcInfo)
        ensures
            *r == self.info(),
    {
        &self.copc_info
    }

    /// The entries of the hierarchy.
    pub fn hierarchy(&self) -> (r: &Hierarchy)
        ensures
            r@ == self.entries(),
    {
        &self.hierarchy
    }

    /// The position of the LasZip record among the records of the file.
    pub fn laszip_record(&self) -> (r: usize)
        ensures
            r == self.laszip_at(),
    {
        self.laszip
    }

    /// The deepest octree level that occurs in the hierarchy, or 0 where the
    /// hierarchy is empty.
    pub fn max_octree_level(&self) -> (r: i32)
        requires
            self.wf(),
        ensures
            self.entries() == Map::<VoxelKey, Entry>::empty() ==> r == 0,
            self.entries() != Map::<VoxelKey, Entry>::empty()
                ==> crate::copc_reader::hierarchy::is_deepest(self.entries(), r),
    {
        self.hierarchy.max_octree_level()
    }
}

// -------------------------------------------------------------------- laws

/// The info record as it is stored.
pub open spec fn info_bytes(info: CopcInfo) -> Seq<u8> {
    crate::bytes::le_bytes(info.center_x as nat, 8) + crate::bytes::le_bytes(
        info.center_y as nat,
        8,
    ) + crate::bytes::le_bytes(info.center_z as nat, 8) + crate::bytes::le_bytes(
        info.halfsize as nat,
        8,
    ) + crate::bytes::le_bytes(info.spacing as nat, 8) + crate::bytes::le_bytes(
        info.root_hier_offset as nat,
        8,
    ) + crate::bytes::le_bytes(info.root_hier_size as nat, 8)
}

proof fn lemma_word_at(s: Seq<u8>, at: int, n: u64)
    requires
        0 <= at,
        at + 8 <= s.len(),
        s.subrange(at, at + 8) == crate::bytes::le_bytes(n as nat, 8),
    ensures
        word_at(s, at) == n,
{
    reveal_with_fuel(crate::bytes::byte_range, 9);
    crate::bytes::lemma_le_round_trip(n as nat, 8);
}

/// Reading the info record gives back what was stored, whatever follows it.
pub proof fn law_info_is_read_back(info: CopcInfo, rest: Seq<u8>)
    ensures
        info_bytes(info).len() == 56,
        info_record(info_bytes(info) + rest) == Ok::<CopcInfo, CopcError>(info),
{
    broadcast use crate::bytes::lemma_le_bytes_len;

    let s = info_bytes(info) + rest;
    assert(s.subrange(0, 8) =~= crate::bytes::le_bytes(info.center_x as nat, 8));
    assert(s.subrange(8, 16) =~= crate::bytes::le_bytes(info.center_y as nat, 8));
    assert(s.subrange(16, 24) =~= crate::bytes::le_bytes(info.center_z as nat, 8));
    assert(s.subrange(24, 32) =~= crate::bytes::le_bytes(info.halfsize as nat, 8));
    assert(s.subrange(32, 40) =~= crate::bytes::le_bytes(info.spacing as nat, 8));
    assert(s.subrange(40, 48) =~= crate::bytes::le_bytes(info.root_hier_offset as nat, 8));
    assert(s.subrange(48, 56) =~= crate::bytes::le_bytes(info.root_hier_size as nat, 8));
    lemma_word_at(s, 0, info.center_x);
    lemma_word_at(s, 8, info.center_y);
    lemma_word_at(s, 16, info.center_z);
    lemma_word_at(s, 24, info.halfsize);
    lemma_word_at(s, 32, info.spacing);
    lemma_word_at(s, 40, info.root_hier_offset);
    lemma_word_at(s, 48, info.root_hier_size);
}

/// Whether a record has a user id, in lower case, and a record id.
pub open spec fn is_named(vlr: Vlr, user_id: Seq<char>, record_id: u16) -> bool {
    lowercase_of(vlr.user_id@) == user_id && vlr.record_id == record_id
}

/// Whether `at` is the last record of a name.
pub open spec fn is_last_named(vlrs: Seq<Vlr>, user_id: Seq<char>, record_id: u16, at: int) -> bool {
    &&& 0 <= at < vlrs.len()
    &&& is_named(vlrs[at], user_id, record_id)
    &&& forall|k: int| at < k < vlrs.len() ==> !is_named(#[trigger] vlrs[k], user_id, record_id)
}

/// Whether no record has a name.
pub open spec fn none_named(vlrs: Seq<Vlr>, user_id: Seq<char>, record_id: u16) -> bool {
    forall|k: int| 0 <= k < vlrs.len() ==> !is_named(#[trigger] vlrs[k], user_id, record_id)
}

/// A scan that succeeds reports the last record of each role: what the last info
/// record says, and where the last hierarchy record and the last LasZip record
/// are. It reports none only where there is none.
pub proof fn law_scan_reports_the_last(vlrs: Seq<Vlr>)
    requires
        vlrs.len() <= usize::MAX,
        scan_of(vlrs) is Ok,
    ensures
        ({
            let scan = scan_of(vlrs)->Ok_0;
            &&& match scan.info {
                Some(info) => exists|at: int| #[trigger]
                    is_last_named(vlrs, "copc"@, 1, at) && info_record(vlrs[at].data@) == Ok::<
                        CopcInfo,
                        CopcError,
                    >(info),
                None => none_named(vlrs, "copc"@, 1),
            }
            &&& match scan.hierarchy {
                Some(at) => is_last_named(vlrs, "copc"@, 1000, at as int),
                None => none_named(vlrs, "copc"@, 1000),
            }
            &&& match scan.laszip {
                Some(at) => is_last_named(vlrs, "laszip encoded"@, 22204, at as int)
                    && laz_vlr_readable(vlrs[at as int].data@),
                None => none_named(vlrs, "laszip encoded"@, 22204),
            }
        }),
    decreases vlrs.len(),
{
    if vlrs.len() > 0 {
        let head = vlrs.drop_last();
        let last = (vlrs.len() - 1) as int;
        law_scan_reports_the_last(head);
        let before = scan_of(head)->Ok_0;
        let scan = scan_of(vlrs)->Ok_0;
        assert(forall|k: int| 0 <= k < last ==> #[trigger] vlrs[k] == head[k]);
        assert(vlrs[last] == vlrs.last());
        match scan.info {
            Some(info) => {
                if is_named(vlrs.last(), "copc"@, 1) {
                    assert(is_last_named(vlrs, "copc"@, 1, last));
                } else {
                    assert(before.info == Some(info));
                    let at = choose|at: int| #[trigger]
                        is_last_named(head, "copc"@, 1, at) && info_record(head[at].data@)
                            == Ok::<CopcInfo, CopcError>(info);
                    assert(is_last_named(vlrs, "copc"@, 1, at));
                }
            },
            None => {},
        }
    }
}

/// Whether a record, if it is an info record, is long enough, and if it is a
/// LasZip record, can be read.
pub open spec fn is_good(vlr: Vlr) -> bool {
    &&& is_named(vlr, "copc"@, 1) ==> vlr.data@.len() >= 56
    &&& is_named(vlr, "laszip encoded"@, 22204) ==> laz_vlr_readable(vlr.data@)
}

/// A scan fails only at an info record that is cut short, or at a LasZip record
/// that cannot be read.
pub proof fn law_scan_fails_at_bad_records(vlrs: Seq<Vlr>)
    ensures
        scan_of(vlrs) is Ok <==> forall|k: int| 0 <= k < vlrs.len() ==> is_good(#[trigger] vlrs[k]),
    decreases vlrs.len(),
{
    if vlrs.len() > 0 {
        let head = vlrs.drop_last();
        law_scan_fails_at_bad_records(head);
        assert(vlrs[vlrs.len() - 1] == vlrs.last());
        assert(scan_of(vlrs) is Ok <==> scan_of(head) is Ok && is_good(vlrs.last()));
        if forall|k: int| 0 <= k < vlrs.len() ==> is_good(#[trigger] vlrs[k]) {
            assert forall|k: int| 0 <= k < head.len() implies is_good(#[trigger] head[k]) by {
                assert(head[k] == vlrs[k]);
            }
        }
        if scan_of(vlrs) is Ok {
            assert forall|k: int| 0 <= k < vlrs.len() implies is_good(#[trigger] vlrs[k]) by {
                if k < head.len() {
                    assert(head[k] == vlrs[k]);
                }
            }
        }
    }
}

/// Whether entry `k` is the first from `start` on with a voxel.
pub open spec fn is_first_with(entries: Seq<Entry>, start: int, key: VoxelKey, k: int) -> bool {
    &&& start <= k < entries.len()
    &&& entries[k].key == key
    &&& forall|j: int| start <= j < k ==> (#[trigger] entries[j]).key != key
}

/// Whether no entry from `start` on has a voxel.
pub open spec fn none_with(entries: Seq<Entry>, start: int, key: VoxelKey) -> bool {
    forall|j: int| start <= j < entries.len() ==> (#[trigger] entries[j]).key != key
}

/// Where the entries begin that follow the last one that points to a page.
pub open spec fn settled_from(pending: Seq<Entry>, filed: Map<VoxelKey, Entry>) -> int {
    match settled(pending, filed).2 {
        Some(_) => settled(pending, filed).0.len() + 1int,
        None => 0,
    }
}

/// Entries are taken off the end, up to the last that points to a page, which is
/// returned; what comes before it is left. Where no entry points to a page, all
/// are taken.
pub proof fn law_settling_stops_at_the_last_page(pending: Seq<Entry>, filed: Map<VoxelKey, Entry>)
    ensures
        ({
            let (left, after, page) = settled(pending, filed);
            &&& left == pending.take(left.len() as int)
            &&& page matches Some(entry) ==> left.len() < pending.len() && pending[left.len() as int]
                == entry && entry.point_count == -1
            &&& page is None ==> left.len() == 0
            &&& forall|k: int|
                settled_from(pending, filed) <= k < pending.len() ==> (
                #[trigger] pending[k]).point_count != -1
        }),
    decreases pending.len(),
{
    if pending.len() > 0 {
        let head = pending.drop_last();
        let last = pending.last();
        let left = settled(pending, filed).0;
        if last.point_count != -1 {
            let more = filed.insert(last.key, last);
            law_settling_stops_at_the_last_page(head, more);
            assert(left =~= pending.take(left.len() as int));
            assert forall|k: int|
                settled_from(pending, filed) <= k < pending.len() implies (
            #[trigger] pending[k]).point_count != -1 by {
                if k < head.len() {
                    assert(head[k] == pending[k]);
                }
            }
        } else {
            assert(left =~= pending.take(left.len() as int));
        }
    }
}

/// The entries that are taken off are filed under their voxels, and of two with
/// the same voxel the earlier stays; nothing else that was filed changes.
pub proof fn law_settling_files_entries(
    pending: Seq<Entry>,
    filed: Map<VoxelKey, Entry>,
    key: VoxelKey,
    k: int,
)
    ensures
        ({
            let after = settled(pending, filed).1;
            let start = settled_from(pending, filed);
            &&& none_with(pending, start, key) ==> after.contains_key(key) == filed.contains_key(
                key,
            ) && (filed.contains_key(key) ==> after[key] == filed[key])
            &&& is_first_with(pending, start, key, k) ==> after.contains_key(key) && after[key]
                == pending[k]
        }),
    decreases pending.len(),
{
    if pending.len() > 0 {
        let head = pending.drop_last();
        let last = pending.last();
        if last.point_count != -1 {
            let more = filed.insert(last.key, last);
            let start = settled_from(pending, filed);
            assert(start == settled_from(head, more));
            law_settling_files_entries(head, more, key, k);
            assert(pending[pending.len() - 1] == last);
            assert(forall|j: int| 0 <= j < head.len() ==> #[trigger] pending[j] == head[j]);
            law_settling_stops_at_the_last_page(head, more);
            assert(0 <= start <= head.len());
            if none_with(pending, start, key) {
                assert(last.key != key);
                assert(none_with(head, start, key)) by {
                    assert forall|j: int| start <= j < head.len() implies (#[trigger] head[j]).key
                        != key by {
                        assert(pending[j].key != key);
                    }
                }
            }
            if is_first_with(pending, start, key, k) {
                if k < head.len() {
                    assert(is_first_with(head, start, key, k)) by {
                        assert forall|j: int| start <= j < k implies (#[trigger] head[j]).key
                            != key by {
                            assert(pending[j].key != key);
                        }
                    }
                } else {
                    assert(none_with(head, start, key)) by {
                        assert forall|j: int| start <= j < head.len() implies (
                        #[trigger] head[j]).key != key by {
                            assert(pending[j].key != key);
                        }
                    }
                }
            }
        }
    }
}

/// The size of a page is the size that its entry gives, or that size modulo
/// `2^64` where it is negative.
pub proof fn law_page_sizes(entry: Entry)
    ensures
        entry.byte_size >= 0 ==> page_size_of(entry) == entry.byte_size,
        entry.byte_size < 0 ==> page_size_of(entry) == entry.byte_size + 0x1_0000_0000_0000_0000,
{
}

/// Lengths add up, one by one.
pub proof fn law_lengths_add_up(a: Seq<u64>, b: Seq<u64>, one: u64)
    ensures
        total(a + b) == total(a) + total(b),
        total(seq![one]) == one,
    decreases b.len(),
{
    assert(seq![one].drop_last() =~= Seq::<u64>::empty());
    assert(seq![one].last() == one);
    reveal_with_fuel(total, 2);
    if b.len() == 0 {
        assert(a + b =~= a);
    } else {
        assert((a + b).drop_last() =~= a + b.drop_last());
        law_lengths_add_up(a, b.drop_last(), one);
    }
}

} // verus!
