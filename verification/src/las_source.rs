//! Point clouds as Gaussian splats: where the coordinates come from, which
//! points are kept, in which tier of detail, and in which cell of the grid.

use crate::bytes::read_u16_le;
use crate::copc_reader::reader::Vlr;
use crate::float_bits::{le_f64, F32_ONE};
use crate::gltf_writer::mesh::{SplatVertex, Vec3, Vec4};
use crate::text::{find_bytes, number_text, read_digits, same_text};
use std::collections::HashMap;
use vstd::prelude::*;

verus! {

// ---------------------------------------------------------------- EPSG codes

/// What comes before the code in a coordinate system text.
pub open spec fn authority_mark() -> Seq<u8> {
    vstd::utf8::encode_utf8("AUTHORITY[\"EPSG\","@)
}

/// What comes before the code in a newer coordinate system text.
pub open spec fn id_mark() -> Seq<u8> {
    vstd::utf8::encode_utf8("ID[\"EPSG\","@)
}

/// Where the digits of a code begin that stands at `at`: after a quote, where
/// the code may be quoted and is.
pub open spec fn digits_begin(text: Seq<u8>, at: int, quotable: bool) -> int {
    if quotable && 0 <= at < text.len() && text[at] == 0x22 {
        at + 1
    } else {
        at
    }
}

/// Whether `code` is the number that follows the first occurrence of a mark.
pub open spec fn follows_mark(text: Seq<u8>, mark: Seq<u8>, quotable: bool, code: u32) -> bool {
    exists|at: int| #[trigger]
        crate::text::first_at(text, mark, at) && crate::text::bounded_value(
            crate::text::leading_digits(
                text.skip(digits_begin(text, at + mark.len(), quotable)),
            ),
            u32::MAX as nat,
        ) == Some(code as nat)
}

/// Whether no number follows the first occurrence of a mark, if there is one.
pub open spec fn nothing_follows(text: Seq<u8>, mark: Seq<u8>, quotable: bool) -> bool {
    forall|at: int| #[trigger]
        crate::text::first_at(text, mark, at) ==> crate::text::bounded_value(
            crate::text::leading_digits(
                text.skip(digits_begin(text, at + mark.len(), quotable)),
            ),
            u32::MAX as nat,
        ) is None
}

/// Whether a coordinate system text gives a code: after the one mark, in quotes
/// or without; else after the other, without quotes.
pub open spec fn text_gives(text: Seq<u8>, code: u32) -> bool {
    follows_mark(text, authority_mark(), true, code) || (nothing_follows(
        text,
        authority_mark(),
        true,
    ) && follows_mark(text, id_mark(), false, code))
}

/// Whether a coordinate system text gives no code.
pub open spec fn text_gives_none(text: Seq<u8>) -> bool {
    nothing_follows(text, authority_mark(), true) && nothing_follows(text, id_mark(), false)
}

/// A text has only one first occurrence of a mark.
proof fn lemma_first_is_unique(text: Seq<u8>, mark: Seq<u8>, a: int, b: int)
    requires
        crate::text::first_at(text, mark, a),
        crate::text::first_at(text, mark, b),
    ensures
        a == b,
{
    if a < b {
        assert(!crate::text::occurs_at(text, mark, a));
    }
    if b < a {
        assert(!crate::text::occurs_at(text, mark, b));
    }
}

/// The code after the first occurrence of a mark.
fn code_after(text: &[u8], mark: &[u8], quotable: bool) -> (r: Option<u32>)
    ensures
        match r {
            Some(code) => follows_mark(text@, mark@, quotable, code),
            None => nothing_follows(text@, mark@, quotable),
        },
{
    match find_bytes(text, mark) {
        Some(at) => {
            assert(at + mark@.len() <= text.len());
            let mut start: usize = at + mark.len();
            if quotable && start < text.len() && text[start] == 0x22 {
                start += 1;
            }
            assert(start == digits_begin(text@, at + mark@.len(), quotable));
            let r = read_digits(text, start, u32::MAX);
            proof {
                assert forall|k: int| #[trigger]
                    crate::text::first_at(text@, mark@, k) implies k == at by {
                    lemma_first_is_unique(text@, mark@, k, at as int);
                }
            }
            r
        },
        None => {
            proof {
                assert forall|k: int| #[trigger]
                    crate::text::first_at(text@, mark@, k) implies false by {
                    assert(!crate::text::occurs_at(text@, mark@, k));
                }
            }
            None
        },
    }
}

/// The code in a coordinate system text.
pub fn wkt_epsg(text: &[u8]) -> (r: Option<u32>)
    ensures
        match r {
            Some(code) => text_gives(text@, code),
            None => text_gives_none(text@),
        },
{
    let authority = "AUTHORITY[\"EPSG\",";
    let id = "ID[\"EPSG\",";
    match code_after(text, authority.as_bytes(), true) {
        Some(code) => Some(code),
        None => code_after(text, id.as_bytes(), false),
    }
}

/// The 16-bit number at `at`.
pub open spec fn short_at(data: Seq<u8>, at: int) -> nat {
    crate::bytes::le_value(data.subrange(at, at + 2))
}

/// Whether the `i`th key of a directory is there, names a coordinate system
/// (projected or geographic) and holds its code.
pub open spec fn key_gives(data: Seq<u8>, i: int, code: u32) -> bool {
    let base = 8 + 8 * i;
    &&& 0 <= i < short_at(data, 6)
    &&& base + 8 <= data.len()
    &&& short_at(data, base) == 3072 || short_at(data, base) == 2048
    &&& short_at(data, base + 2) == 0
    &&& short_at(data, base + 6) == code
    &&& code > 0
}

/// Whether a key directory gives a code: that of the first key that holds one.
pub open spec fn keys_give(data: Seq<u8>, code: u32) -> bool {
    data.len() >= 8 && exists|i: int| #[trigger]
        key_gives(data, i, code) && forall|k: int, other: u32|
            0 <= k < i ==> !#[trigger] key_gives(data, k, other)
}

/// Whether a key directory gives no code.
pub open spec fn keys_give_none(data: Seq<u8>) -> bool {
    data.len() < 8 || forall|k: int, other: u32| !#[trigger] key_gives(data, k, other)
}

/// The code in a key directory.
pub fn geokey_epsg(data: &[u8]) -> (r: Option<u32>)
    ensures
        match r {
            Some(code) => keys_give(data@, code),
            None => keys_give_none(data@),
        },
{
    let len: usize = data.len();
    if len < 8 {
        return None;
    }
    let n_keys: usize = read_u16_le(data, 6) as usize;
    let mut i: usize = 0;
    let mut base: usize = 8;
    while i < n_keys
        invariant
            len == data@.len(),
            8 <= len,
            n_keys == short_at(data@, 6),
            i <= n_keys,
            base == 8 + 8 * i,
            forall|k: int, other: u32| 0 <= k < i ==> !#[trigger] key_gives(data@, k, other),
        decreases n_keys - i,
    {
        if len < 8 || base > len - 8 {
            proof {
                assert forall|k: int, other: u32| !#[trigger] key_gives(data@, k, other) by {}
            }
            return None;
        }
        let key_id: u16 = read_u16_le(data, base);
        let location: u16 = read_u16_le(data, base + 2);
        let value: u16 = read_u16_le(data, base + 6);
        if (key_id == 3072 || key_id == 2048) && location == 0 && value > 0 {
            let code: u32 = value as u32;
            assert(key_gives(data@, i as int, code));
            return Some(code);
        }
        proof {
            assert forall|k: int, other: u32| 0 <= k < i + 1 implies !#[trigger] key_gives(
                data@,
                k,
                other,
            ) by {}
        }
        i += 1;
        base += 8;
    }
    proof {
        assert forall|k: int, other: u32| !#[trigger] key_gives(data@, k, other) by {}
    }
    None
}

/// Whether a record gives a code.
pub open spec fn record_gives(vlr: Vlr, code: u32) -> bool {
    if vlr.record_id == 2112 {
        text_gives(vlr.data@, code)
    } else {
        vlr.record_id == 34735 && keys_give(vlr.data@, code)
    }
}

/// Whether a record gives no code.
pub open spec fn record_gives_none(vlr: Vlr) -> bool {
    if vlr.record_id == 2112 {
        text_gives_none(vlr.data@)
    } else {
        vlr.record_id == 34735 ==> keys_give_none(vlr.data@)
    }
}

/// The EPSG code of a point cloud, from its records: that of the first record
/// that gives one.
pub fn extract_las_epsg(vlrs: &[Vlr]) -> (r: Option<u32>)
    ensures
        match r {
            Some(code) => exists|i: int|
                {
                    &&& 0 <= i < vlrs@.len()
                    &&& record_gives(#[trigger] vlrs@[i], code)
                    &&& forall|k: int| 0 <= k < i ==> record_gives_none(#[trigger] vlrs@[k])
                },
            None => forall|k: int| 0 <= k < vlrs@.len() ==> record_gives_none(#[trigger] vlrs@[k]),
        },
{
    let n: usize = vlrs.len();
    let mut i: usize = 0;
    while i < n
        invariant
            i <= n,
            n == vlrs@.len(),
            forall|k: int| 0 <= k < i ==> record_gives_none(#[trigger] vlrs@[k]),
        decreases n - i,
    {
        let vlr = &vlrs[i];
        let found: Option<u32> = if vlr.record_id == 2112 {
            wkt_epsg(vlr.data.as_slice())
        } else if vlr.record_id == 34735 {
            geokey_epsg(vlr.data.as_slice())
        } else {
            None
        };
        match found {
            Some(code) => {
                assert(record_gives(vlrs@[i as int], code));
                return Some(code);
            },
            None => {},
        }
        i += 1;
    }
    None
}

// ------------------------------------------------------------- reprojection

/// What has to be done to bring points to the target coordinate system.
#[derive(Clone, Copy, Debug, PartialEq, Eq, Structural)]
pub enum CrsPlan {
    /// Nothing: it is the same.
    Same,
    /// Nothing: it is not known, and taken to be the same.
    Unknown,
    /// Points have to be transformed from the system with this code.
    Reproject(u32),
}

/// The name of the coordinate system with a code.
pub open spec fn epsg_name(code: u32) -> Seq<char> {
    "EPSG:"@ + crate::text::decimal(code as nat)
}

/// The name of the coordinate system with a code.
pub fn epsg_text(code: u32) -> (r: String)
    ensures
        r@ == epsg_name(code),
{
    "EPSG:".to_owned().concat(number_text(code as u64).as_str())
}

/// Decides how to bring points to the target coordinate system.
pub fn plan_transformer(epsg: Option<u32>, target_crs: &str) -> (r: CrsPlan)
    ensures
        r == (match epsg {
            None => CrsPlan::Unknown,
            Some(code) => if epsg_name(code) == target_crs@ {
                CrsPlan::Same
            } else {
                CrsPlan::Reproject(code)
            },
        }),
{
    match epsg {
        None => CrsPlan::Unknown,
        Some(code) => if same_text(epsg_text(code).as_str(), target_crs) {
            CrsPlan::Same
        } else {
            CrsPlan::Reproject(code)
        },
    }
}

// ------------------------------------------------------------------- points

/// What becomes of a point.
#[derive(Clone, Copy, Debug, PartialEq, Eq, Structural)]
pub enum PointFate {
    /// It is left out as noise.
    Noise,
    /// It is left out because it has no color.
    NoColor,
    /// It is kept, with the high bytes of its color.
    Keep { red: u8, green: u8, blue: u8 },
}

/// Whether a point class stands for noise: low points and high noise.
pub open spec fn is_noise(class: u8) -> bool {
    class == 7 || class == 18
}

/// Decides what becomes of a point. Its color has 16 bits per channel, of
/// which the high eight are kept.
pub fn classify_point(class: u8, color: Option<(u16, u16, u16)>, de_noising: bool) -> (r: PointFate)
    ensures
        r == (if de_noising && is_noise(class) {
            PointFate::Noise
        } else {
            match color {
                None => PointFate::NoColor,
                Some((red, green, blue)) => PointFate::Keep {
                    red: (red / 256) as u8,
                    green: (green / 256) as u8,
                    blue: (blue / 256) as u8,
                },
            }
        }),
        r == PointFate::Noise <==> de_noising && (class == 7 || class == 18),
        r == PointFate::NoColor <==> color is None && !(de_noising && (class == 7 || class == 18)),
        r matches PointFate::Keep { red: high_red, green: high_green, blue: high_blue } ==> {
            &&& color matches Some((red, green, blue))
            &&& 256 * high_red <= red < 256 * (high_red + 1)
            &&& 256 * high_green <= green < 256 * (high_green + 1)
            &&& 256 * high_blue <= blue < 256 * (high_blue + 1)
        },
{
    if de_noising && (class == 7 || class == 18) {
        return PointFate::Noise;
    }
    match color {
        None => PointFate::NoColor,
        Some((red, green, blue)) => PointFate::Keep {
            red: (red / 256) as u8,
            green: (green / 256) as u8,
            blue: (blue / 256) as u8,
        },
    }
}

// -------------------------------------------------------------------- tiers

/// How often a number can be halved.
pub open spec fn halvings(n: nat) -> nat
    decreases n,
{
    if n == 0 || n % 2 == 1 {
        0
    } else {
        1 + halvings(n / 2)
    }
}

/// The tier of a point by its number: every `2^(n-1)`th point is in the
/// coarsest tier, and each further tier fills in between.
pub open spec fn tier_of(n_tiers: u8, number: u64) -> int {
    if n_tiers <= 1 || number as int % vstd::arithmetic::power2::pow2((n_tiers - 1) as nat) as int
        == 0 {
        0
    } else {
        n_tiers - 1 - halvings(number as nat)
    }
}

/// A number that can be halved `m` times is a multiple of `2^m`.
proof fn lemma_halvings(n: nat, m: nat)
    requires
        n > 0,
    ensures
        halvings(n) >= m <==> n as int % vstd::arithmetic::power2::pow2(m) as int == 0,
    decreases m,
{
    vstd::arithmetic::power2::lemma_pow2_pos(m);
    if m == 0 {
        vstd::arithmetic::power2::lemma2_to64();
    } else {
        let p = vstd::arithmetic::power2::pow2((m - 1) as nat);
        vstd::arithmetic::power2::lemma_pow2_unfold(m);
        vstd::arithmetic::power2::lemma_pow2_pos((m - 1) as nat);
        assert(vstd::arithmetic::power2::pow2(m) == 2 * p);
        if n % 2 == 1 {
            if n as int % (2 * p) as int == 0 {
                let q = n as int / (2 * p) as int;
                vstd::arithmetic::div_mod::lemma_fundamental_div_mod(n as int, (2 * p) as int);
                assert(n == 2 * (p * q)) by (nonlinear_arith)
                    requires
                        n == (2 * p) * q,
                ;
                assert(false);
            }
        } else {
            let h = n / 2;
            lemma_halvings(h, (m - 1) as nat);
            vstd::arithmetic::div_mod::lemma_truncate_middle(h as int, p as int, 2);
            assert((2 * h) % (2 * p) == 2 * (h % p)) by {
                vstd::arithmetic::div_mod::lemma_fundamental_div_mod(h as int, p as int);
                let q = h as int / p as int;
                let r = h as int % p as int;
                assert(2 * h == (2 * p) * q + 2 * r) by (nonlinear_arith)
                    requires
                        h == p * q + r,
                ;
                vstd::arithmetic::div_mod::lemma_fundamental_div_mod_converse(
                    2 * h as int,
                    2 * p as int,
                    q,
                    2 * r,
                );
            }
        }
    }
}

/// Tiers are numbered from 0 to the number of tiers; the coarsest holds the
/// points whose numbers are multiples of the stride, and no others.
pub proof fn law_strided_tiers(n_tiers: u8, number: u64)
    requires
        n_tiers >= 1,
    ensures
        0 <= tier_of(n_tiers, number) < n_tiers,
        tier_of(n_tiers, number) == 0 <==> number as int % vstd::arithmetic::power2::pow2(
            (n_tiers - 1) as nat,
        ) as int == 0,
{
    let m = (n_tiers - 1) as nat;
    vstd::arithmetic::power2::lemma_pow2_pos(m);
    if n_tiers == 1 {
        vstd::arithmetic::power2::lemma2_to64();
    }
    if number > 0 {
        lemma_halvings(number as nat, m);
    } else {
        vstd::arithmetic::div_mod::lemma_small_mod(0, vstd::arithmetic::power2::pow2(m));
    }
}

/// The stride of a tier: every so many points a point of this tier or a
/// coarser one comes.
pub fn tier_stride(n_tiers: u8, tier: u8) -> (r: u64)
    requires
        tier < n_tiers <= 64,
    ensures
        r == vstd::arithmetic::power2::pow2((n_tiers - 1 - tier) as nat),
{
    let mut r: u64 = 1;
    let n: u8 = n_tiers - 1 - tier;
    let mut i: u8 = 0;
    proof {
        vstd::arithmetic::power2::lemma2_to64();
    }
    while i < n
        invariant
            i <= n <= 63,
            r == vstd::arithmetic::power2::pow2(i as nat),
        decreases n - i,
    {
        proof {
            vstd::arithmetic::power2::lemma_pow2_unfold((i + 1) as nat);
            vstd::arithmetic::power2::lemma2_to64();
            vstd::arithmetic::power2::lemma2_to64_rest();
            if i < 62 {
                vstd::arithmetic::power2::lemma_pow2_strictly_increases(i as nat, 62);
            }
        }
        r = r * 2;
        i += 1;
    }
    r
}

/// The tier of a point by its number among the points that are kept.
pub fn strided_tier(n_tiers: u8, number: u64) -> (r: u8)
    requires
        1 <= n_tiers <= 64,
    ensures
        r == tier_of(n_tiers, number),
{
    proof {
        law_strided_tiers(n_tiers, number);
        vstd::arithmetic::power2::lemma_pow2_pos((n_tiers - 1) as nat);
    }
    if n_tiers <= 1 || number % tier_stride(n_tiers, 0) == 0 {
        return 0;
    }
    let mut rest: u64 = number;
    let mut tier: u8 = n_tiers - 1;
    proof {
        if number == 0 {
            vstd::arithmetic::div_mod::lemma_small_mod(
                0,
                vstd::arithmetic::power2::pow2((n_tiers - 1) as nat),
            );
        }
        lemma_halvings(number as nat, (n_tiers - 1) as nat);
    }
    while rest % 2 == 0
        invariant
            rest > 0,
            tier == halvings(rest as nat) + tier_of(n_tiers, number),
            tier_of(n_tiers, number) > 0,
        decreases rest,
    {
        rest = rest / 2;
        tier = tier - 1;
    }
    tier
}

/// Division of whole numbers that rounds towards zero.
pub open spec fn truncated(a: int, b: int) -> int {
    if a >= 0 {
        a / b
    } else {
        -((-a) / b)
    }
}

/// The deepest octree level that a tier covers.
pub fn tier_max_level(tier: u8, n_tiers: u8, max_level: i32) -> (r: i32)
    requires
        n_tiers > 0,
        i32::MIN <= (tier + 1) * max_level <= i32::MAX,
    ensures
        r == (if truncated((tier + 1) * max_level, n_tiers as int) < max_level {
            truncated((tier + 1) * max_level, n_tiers as int)
        } else {
            max_level as int
        }),
        r <= max_level,
        tier == n_tiers - 1 && max_level >= 0 ==> r == max_level,
        max_level >= 0 && tier < n_tiers ==> 0 <= (tier + 1) * max_level - n_tiers * r < n_tiers,
{
    proof {
        law_division_rounds_towards_zero((tier + 1) * max_level, n_tiers as int);
        if max_level >= 0 {
            assert((tier + 1) * max_level >= 0) by (nonlinear_arith)
                requires
                    max_level >= 0,
            ;
            let q = truncated((tier + 1) * max_level, n_tiers as int);
            if tier < n_tiers {
                assert((tier + 1) * max_level <= n_tiers * max_level) by (nonlinear_arith)
                    requires
                        tier + 1 <= n_tiers,
                        max_level >= 0,
                ;
                if q > max_level {
                    assert(n_tiers * q >= n_tiers * (max_level + 1)) by (nonlinear_arith)
                        requires
                            q >= max_level + 1,
                    ;
                    assert(n_tiers * (max_level + 1) == n_tiers * max_level + n_tiers)
                        by (nonlinear_arith);
                }
            }
            if tier == n_tiers - 1 && q < max_level {
                assert(n_tiers * q <= n_tiers * (max_level - 1)) by (nonlinear_arith)
                    requires
                        q <= max_level - 1,
                ;
                assert(n_tiers * (max_level - 1) == n_tiers * max_level - n_tiers)
                    by (nonlinear_arith);
            }
        }
    }
    let product: i64 = (tier as i64 + 1) * max_level as i64;
    assert(product == (tier + 1) * max_level);
    let level: i32 = if product >= 0 {
        (product as u64 / n_tiers as u64) as i32
    } else {
        -(((-product) as u64 / n_tiers as u64) as i64) as i32
    };
    if level < max_level {
        level
    } else {
        max_level
    }
}

// -------------------------------------------------------------------- cells

/// A cell of the grid.
#[derive(Clone, Copy, Debug, PartialEq, Eq, Structural)]
pub struct CellId {
    pub column: usize,
    pub row: usize,
}

/// One number for a cell.
pub open spec fn cell_code(cell: CellId) -> int {
    cell.column * 0x1_0000_0000_0000_0000 + cell.row
}

fn code_of_cell(cell: &CellId) -> (r: u128)
    ensures
        r == cell_code(*cell),
{
    cell.column as u128 * 0x1_0000_0000_0000_0000 + cell.row as u128
}

/// Numbers grouped by cell.
pub struct CellIndex {
    groups: HashMap<u128, Vec<usize>>,
}

impl CellIndex {
    /// The numbers of a cell, in the order in which they were added.
    pub closed spec fn group(self, cell: CellId) -> Seq<usize> {
        if self.groups@.contains_key(cell_code(cell) as u128) {
            self.groups@[cell_code(cell) as u128]@
        } else {
            Seq::empty()
        }
    }

    /// No numbers.
    pub fn new() -> (r: CellIndex)
        ensures
            forall|cell: CellId| #[trigger] r.group(cell) == Seq::<usize>::empty(),
    {
        broadcast use vstd::std_specs::hash::group_hash_axioms;

        CellIndex { groups: HashMap::new() }
    }

    /// Adds a number to a cell.
    pub fn push(&mut self, cell: &CellId, number: usize)
        ensures
            forall|other: CellId| #[trigger]
                final(self).group(other) == (if other == *cell {
                    old(self).group(other).push(number)
                } else {
                    old(self).group(other)
                }),
    {
        broadcast use vstd::std_specs::hash::group_hash_axioms;

        let ghost before = *self;
        let code: u128 = code_of_cell(cell);
        let mut members: Vec<usize> = match self.groups.remove(&code) {
            Some(members) => members,
            None => Vec::new(),
        };
        members.push(number);
        self.groups.insert(code, members);
        proof {
            assert forall|other: CellId| #[trigger]
                self.group(other) == (if other == *cell {
                    before.group(other).push(number)
                } else {
                    before.group(other)
                }) by {
                assert(cell_code(other) == cell_code(*cell) ==> other == *cell);
            }
        }
    }

    /// Appends the numbers of a cell.
    fn append_group(&self, cell: &CellId, out: &mut Vec<usize>)
        ensures
            final(out)@ == old(out)@ + self.group(*cell),
    {
        broadcast use vstd::std_specs::hash::group_hash_axioms;

        match self.groups.get(&code_of_cell(cell)) {
            Some(members) => {
                out.extend_from_slice(members.as_slice());
            },
            None => {
                assert(out@ + Seq::<usize>::empty() =~= out@);
            },
        }
    }
}

/// The numbers of some cells, one cell after the other.
pub open spec fn groups_of(index: CellIndex, cells: Seq<CellId>) -> Seq<usize>
    decreases cells.len(),
{
    if cells.len() == 0 {
        Seq::empty()
    } else {
        groups_of(index, cells.drop_last()) + index.group(cells.last())
    }
}

fn collect_groups(index: &CellIndex, cells: &[CellId]) -> (r: Vec<usize>)
    ensures
        r@ == groups_of(*index, cells@),
{
    let mut r: Vec<usize> = Vec::new();
    let n: usize = cells.len();
    let mut i: usize = 0;
    while i < n
        invariant
            i <= n,
            n == cells@.len(),
            r@ == groups_of(*index, cells@.take(i as int)),
        decreases n - i,
    {
        proof {
            assert(cells@.take(i + 1).drop_last() =~= cells@.take(i as int));
        }
        index.append_group(&cells[i], &mut r);
        i += 1;
    }
    assert(cells@.take(n as int) =~= cells@);
    r
}

// ------------------------------------------------------------------- splats

/// A Gaussian splat. Positions are doubles, everything else is in single
/// precision; all numbers are held by their bits.
#[derive(Clone, Copy, Debug, PartialEq, Eq, Structural)]
pub struct Splat {
    pub x: u64,
    pub y: u64,
    pub z: u64,
    pub rgb: Vec3,
    pub scale: Vec3,
    pub rotation: Vec4,
    pub opacity: u32,
    /// The tier of detail; 0 is the coarsest.
    pub lod_tier: u8,
}

/// A splat as it is made from a point: not yet scaled, not turned, opaque.
pub open spec fn plain_splat(x: u64, y: u64, z: u64, rgb: Vec3, lod_tier: u8) -> Splat {
    Splat {
        x,
        y,
        z,
        rgb,
        scale: Vec3 { x: 0, y: 0, z: 0 },
        rotation: Vec4 { x: 0, y: 0, z: 0, w: F32_ONE },
        opacity: F32_ONE,
        lod_tier,
    }
}

/// The splats of a point cloud, found by cell and by tier.
pub struct SplatCloud {
    pub splats: Vec<Splat>,
    /// Splats by cell.
    pub cell_index: CellIndex,
    /// Splats by cell, for each tier.
    pub tier_index: Vec<CellIndex>,
    /// How many tiers there are.
    pub n_lod_tiers: u8,
    /// The distance between points in each tier, in meters: doubles, by their
    /// bits.
    pub tier_spacings: Vec<u64>,
}

/// Why a point cloud makes no splats.
#[derive(Clone, Copy, Debug, PartialEq, Eq, Structural)]
pub enum SplatError {
    /// No point has a color.
    NoColoredPoints,
}

/// How many times a splat is doubled in size: coarser tiers have larger
/// splats.
pub open spec fn doublings(n_tiers: u8, tier: u8) -> int {
    if n_tiers > 1 {
        n_tiers - 1 - tier
    } else {
        0
    }
}

impl SplatCloud {
    /// The splats of a cell.
    pub open spec fn in_cell(self, cell: CellId) -> Seq<usize> {
        self.cell_index.group(cell)
    }

    /// The splats of a cell in one tier.
    pub open spec fn in_tier(self, tier: u8, cell: CellId) -> Seq<usize> {
        if tier < self.tier_index@.len() {
            self.tier_index@[tier as int].group(cell)
        } else {
            Seq::empty()
        }
    }

    /// The splats of some cells, one cell after the other.
    pub open spec fn in_cells(self, cells: Seq<CellId>) -> Seq<usize> {
        groups_of(self.cell_index, cells)
    }

    /// The splats of some cells in one tier, one cell after the other.
    pub open spec fn in_cells_at(self, tier: u8, cells: Seq<CellId>) -> Seq<usize> {
        if tier < self.tier_index@.len() {
            groups_of(self.tier_index@[tier as int], cells)
        } else {
            Seq::empty()
        }
    }

    /// The splats of some cells are those of each cell, put together.
    pub proof fn law_cells_are_put_together(self, tier: u8, cells: Seq<CellId>, cell: CellId)
        ensures
            self.in_cells(Seq::empty()) == Seq::<usize>::empty(),
            self.in_cells(cells.push(cell)) == self.in_cells(cells) + self.in_cell(cell),
            self.in_cells_at(tier, Seq::empty()) == Seq::<usize>::empty(),
            self.in_cells_at(tier, cells.push(cell)) == self.in_cells_at(tier, cells)
                + self.in_tier(tier, cell),
    {
        assert(cells.push(cell).drop_last() =~= cells);
        assert(Seq::<usize>::empty() + Seq::<usize>::empty() =~= Seq::<usize>::empty());
    }

    /// A cloud without splats.
    pub fn new() -> (r: SplatCloud)
        ensures
            r.splats@.len() == 0,
            forall|cell: CellId| #[trigger] r.in_cell(cell) == Seq::<usize>::empty(),
            forall|tier: u8, cell: CellId| #[trigger]
                r.in_tier(tier, cell) == Seq::<usize>::empty(),
            r.n_lod_tiers == 0,
            r.tier_spacings@.len() == 0,
            r.indices_valid(),
            r.all_listed(),
            r.divided(),
    {
        SplatCloud {
            splats: Vec::new(),
            cell_index: CellIndex::new(),
            tier_index: Vec::new(),
            n_lod_tiers: 0,
            tier_spacings: Vec::new(),
        }
    }

    /// Adds a splat for a point that lies in a cell.
    pub fn add_point(&mut self, x: u64, y: u64, z: u64, rgb: Vec3, lod_tier: u8, cell: &CellId)
        ensures
            final(self).splats@ == old(self).splats@.push(plain_splat(x, y, z, rgb, lod_tier)),
            forall|other: CellId| #[trigger]
                final(self).in_cell(other) == (if other == *cell {
                    old(self).in_cell(other).push(old(self).splats@.len() as usize)
                } else {
                    old(self).in_cell(other)
                }),
            forall|tier: u8, other: CellId| #[trigger]
                final(self).in_tier(tier, other) == (if tier == lod_tier && other == *cell {
                    old(self).in_tier(tier, other).push(old(self).splats@.len() as usize)
                } else {
                    old(self).in_tier(tier, other)
                }),
            final(self).n_lod_tiers == old(self).n_lod_tiers,
            final(self).tier_spacings == old(self).tier_spacings,
            old(self).indices_valid() ==> final(self).indices_valid(),
            old(self).all_listed() ==> final(self).all_listed(),
            old(self).indices_valid() && old(self).divided() ==> final(self).divided(),
            ({
                let splat = final(self).splats@.last();
                &&& splat.x == x && splat.y == y && splat.z == z
                &&& splat.rgb == rgb
                &&& splat.lod_tier == lod_tier
                &&& splat.opacity == 0x3f80_0000
                &&& splat.rotation == (Vec4 { x: 0, y: 0, z: 0, w: 0x3f80_0000 })
            }),
    {
        let ghost before = *self;
        let number: usize = self.splats.len();
        self.splats.push(
            Splat {
                x,
                y,
                z,
                rgb,
                scale: Vec3 { x: 0, y: 0, z: 0 },
                rotation: Vec4 { x: 0, y: 0, z: 0, w: F32_ONE },
                opacity: F32_ONE,
                lod_tier,
            },
        );
        self.cell_index.push(cell, number);
        while self.tier_index.len() <= lod_tier as usize
            invariant
                self.splats@ == before.splats@.push(plain_splat(x, y, z, rgb, lod_tier)),
                forall|other: CellId| #[trigger]
                    self.cell_index.group(other) == (if other == *cell {
                        before.cell_index.group(other).push(number)
                    } else {
                        before.cell_index.group(other)
                    }),
                forall|tier: u8, other: CellId| #[trigger]
                    self.in_tier(tier, other) == before.in_tier(tier, other),
                self.n_lod_tiers == before.n_lod_tiers,
                self.tier_spacings == before.tier_spacings,
            decreases 256 - self.tier_index@.len(),
        {
            let ghost was = *self;
            let fresh = CellIndex::new();
            self.tier_index.push(fresh);
            proof {
                assert forall|tier: u8, other: CellId| #[trigger]
                    self.in_tier(tier, other) == before.in_tier(tier, other) by {
                    assert(was.in_tier(tier, other) == before.in_tier(tier, other));
                }
            }
        }
        let ghost was = *self;
        let slot: usize = lod_tier as usize;
        let mut index = self.tier_index.remove(slot);
        index.push(cell, number);
        self.tier_index.insert(slot, index);
        proof {
            assert forall|tier: u8, other: CellId| #[trigger]
                self.in_tier(tier, other) == (if tier == lod_tier && other == *cell {
                    before.in_tier(tier, other).push(number)
                } else {
                    before.in_tier(tier, other)
                }) by {
                assert(was.in_tier(tier, other) == before.in_tier(tier, other));
                if tier != lod_tier && tier < self.tier_index@.len() {
                    assert(self.tier_index@[tier as int] == was.tier_index@[tier as int]);
                }
            }
            assert(self.splats.len() == before.splats@.len() + 1);
            if before.all_listed() {
                law_adding_lists_every_splat(
                    before,
                    *self,
                    plain_splat(x, y, z, rgb, lod_tier),
                    *cell,
                );
            }
            if before.indices_valid() {
                law_adding_keeps_indices_valid(
                    before,
                    *self,
                    plain_splat(x, y, z, rgb, lod_tier),
                    *cell,
                );
                if before.divided() {
                    law_adding_keeps_cells_divided(
                        before,
                        *self,
                        plain_splat(x, y, z, rgb, lod_tier),
                        *cell,
                    );
                }
            }
        }
    }

    /// Ends the making of a cloud: every splat gets the scale of its tier.
    /// `scales[k]` is the scale that has been doubled `k` times.
    pub fn finalize(self, n_lod_tiers: u8, tier_spacings: Vec<u64>, scales: &[u32]) -> (r: Result<
        SplatCloud,
        SplatError,
    >)
        requires
            forall|i: int|
                0 <= i < self.splats@.len() ==> 0 <= doublings(
                    n_lod_tiers,
                    (#[trigger] self.splats@[i]).lod_tier,
                ) < scales@.len(),
        ensures
            if self.splats@.len() == 0 {
                r == Err::<SplatCloud, SplatError>(SplatError::NoColoredPoints)
            } else {
                &&& r matches Ok(cloud)
                &&& cloud.n_lod_tiers == n_lod_tiers
                &&& cloud.tier_spacings@ == tier_spacings@
                &&& forall|cell: CellId| #[trigger] cloud.in_cell(cell) == self.in_cell(cell)
                &&& forall|tier: u8, cell: CellId| #[trigger]
                    cloud.in_tier(tier, cell) == self.in_tier(tier, cell)
                &&& cloud.splats@ == Seq::new(
                    self.splats@.len(),
                    |i: int|
                        scaled(
                            self.splats@[i],
                            scales@[doublings(n_lod_tiers, self.splats@[i].lod_tier)],
                        ),
                )
                &&& forall|i: int|
                    0 <= i < self.splats@.len() ==> {
                        let before = self.splats@[i];
                        let after = #[trigger] cloud.splats@[i];
                        let s = if n_lod_tiers > 1 {
                            scales@[n_lod_tiers - 1 - before.lod_tier]
                        } else {
                            scales@[0]
                        };
                        &&& after.scale == (Vec3 { x: s, y: s, z: s })
                        &&& after.x == before.x && after.y == before.y && after.z == before.z
                        &&& after.rgb == before.rgb
                        &&& after.rotation == before.rotation
                        &&& after.opacity == before.opacity
                        &&& after.lod_tier == before.lod_tier
                    }
                &&& self.indices_valid() ==> cloud.indices_valid()
                &&& self.all_listed() ==> cloud.all_listed()
                &&& self.indices_valid() && self.divided() ==> cloud.divided()
            },
    {
        if self.splats.len() == 0 {
            return Err(SplatError::NoColoredPoints);
        }
        let mut splats: Vec<Splat> = Vec::new();
        let n: usize = self.splats.len();
        let mut i: usize = 0;
        while i < n
            invariant
                i <= n,
                n == self.splats@.len(),
                forall|i: int|
                    0 <= i < self.splats@.len() ==> 0 <= doublings(
                        n_lod_tiers,
                        (#[trigger] self.splats@[i]).lod_tier,
                    ) < scales@.len(),
                splats@ =~= Seq::new(
                    i as nat,
                    |k: int|
                        scaled(
                            self.splats@[k],
                            scales@[doublings(n_lod_tiers, self.splats@[k].lod_tier)],
                        ),
                ),
            decreases n - i,
        {
            let mut splat = self.splats[i];
            assert(0 <= doublings(n_lod_tiers, self.splats@[i as int].lod_tier) < scales@.len());
            let k: u8 = if n_lod_tiers > 1 {
                n_lod_tiers - 1 - splat.lod_tier
            } else {
                0
            };
            let s: u32 = scales[k as usize];
            splat.scale = Vec3 { x: s, y: s, z: s };
            splats.push(splat);
            i += 1;
        }
        let cloud = SplatCloud {
            splats,
            cell_index: self.cell_index,
            tier_index: self.tier_index,
            n_lod_tiers,
            tier_spacings,
        };
        proof {
            if self.indices_valid() {
                assert forall|cell: CellId, k: int|
                    0 <= k < cloud.in_cell(cell).len() implies #[trigger] cloud.in_cell(cell)[k]
                    < cloud.splats@.len() by {
                    assert(self.in_cell(cell)[k] < self.splats@.len());
                }
                assert forall|tier: u8, cell: CellId, k: int|
                    0 <= k < cloud.in_tier(tier, cell).len() implies (#[trigger] cloud.in_tier(
                    tier,
                    cell,
                )[k]) < cloud.splats@.len() && cloud.splats@[cloud.in_tier(
                    tier,
                    cell,
                )[k] as int].lod_tier == tier by {
                    assert(self.in_tier(tier, cell)[k] < self.splats@.len());
                }
            }
        }
        proof {
            if self.indices_valid() && self.divided() {
                assert forall|tier: u8, cell: CellId| #[trigger]
                    cloud.in_tier(tier, cell) == tier_part(
                        cloud.splats@,
                        cloud.in_cell(cell),
                        tier,
                    ) by {
                    assert forall|k: int| 0 <= k < self.in_cell(cell).len() implies self.splats@[(
                    #[trigger] self.in_cell(cell)[k]) as int].lod_tier
                        == cloud.splats@[self.in_cell(cell)[k] as int].lod_tier by {
                        assert(self.in_cell(cell)[k] < self.splats@.len());
                    }
                    lemma_same_tiers(self.splats@, cloud.splats@, self.in_cell(cell), tier);
                    assert(cloud.in_tier(tier, cell) == self.in_tier(tier, cell));
                }
                assert forall|a: CellId, b: CellId, i: int, j: int|
                    0 <= i < cloud.in_cell(a).len() && 0 <= j < cloud.in_cell(b).len()
                        && #[trigger] cloud.in_cell(a)[i] == #[trigger] cloud.in_cell(
                        b,
                    )[j] implies a == b && i == j by {
                    assert(self.in_cell(a)[i] == self.in_cell(b)[j]);
                }
            }
            if self.all_listed() {
                assert forall|i: int| 0 <= i < cloud.splats@.len() implies #[trigger] cloud.has_cell(
                    i,
                ) by {
                    assert(self.has_cell(i));
                    let cell = choose|cell: CellId| #[trigger] self.is_listed(i, cell);
                    assert(cloud.is_listed(i, cell));
                }
            }
        }
        Ok(cloud)
    }

    /// The splats of the cells of a tile.
    pub fn splats_for_cells(&self, cells: &[CellId]) -> (r: Vec<usize>)
        ensures
            r@ == self.in_cells(cells@),
    {
        collect_groups(&self.cell_index, cells)
    }

    /// The splats of the cells of a tile in one tier.
    pub fn splats_for_cells_at_lod(&self, cells: &[CellId], lod_tier: u8) -> (r: Vec<usize>)
        ensures
            r@ == self.in_cells_at(lod_tier, cells@),
    {
        if (lod_tier as usize) < self.tier_index.len() {
            collect_groups(&self.tier_index[lod_tier as usize], cells)
        } else {
            Vec::new()
        }
    }

    /// Whether the indices refer to splats: every number in a cell is that of
    /// a splat.
    pub open spec fn indices_valid(self) -> bool {
        &&& forall|cell: CellId, k: int|
            0 <= k < self.in_cell(cell).len() ==> #[trigger] self.in_cell(cell)[k]
                < self.splats@.len()
        &&& forall|tier: u8, cell: CellId, k: int|
            0 <= k < self.in_tier(tier, cell).len() ==> (#[trigger] self.in_tier(tier, cell)[k])
                < self.splats@.len() && self.splats@[self.in_tier(tier, cell)[k] as int].lod_tier
                == tier
    }
}

impl SplatCloud {
    /// Whether a splat is listed for a cell, and for its tier there.
    pub open spec fn is_listed(self, i: int, cell: CellId) -> bool {
        &&& self.in_cell(cell).contains(i as usize)
        &&& self.in_tier(self.splats@[i].lod_tier, cell).contains(i as usize)
    }

    /// Whether a splat is listed for some cell.
    pub open spec fn has_cell(self, i: int) -> bool {
        exists|cell: CellId| #[trigger] self.is_listed(i, cell)
    }

    /// Whether every splat is listed for some cell.
    pub open spec fn all_listed(self) -> bool {
        forall|i: int| 0 <= i < self.splats@.len() ==> #[trigger] self.has_cell(i)
    }
}

/// The numbers of a list that are those of splats of a tier.
pub open spec fn tier_part(splats: Seq<Splat>, list: Seq<usize>, tier: u8) -> Seq<usize>
    decreases list.len(),
{
    if list.len() == 0 {
        Seq::empty()
    } else if splats[list.last() as int].lod_tier == tier {
        tier_part(splats, list.drop_last(), tier).push(list.last())
    } else {
        tier_part(splats, list.drop_last(), tier)
    }
}

impl SplatCloud {
    /// Whether the splats are divided up: each is listed once at most, and a
    /// tier lists of a cell those that the cell lists and that are of the
    /// tier.
    pub open spec fn divided(self) -> bool {
        &&& forall|a: CellId, b: CellId, i: int, j: int|
            0 <= i < self.in_cell(a).len() && 0 <= j < self.in_cell(b).len()
                && #[trigger] self.in_cell(a)[i] == #[trigger] self.in_cell(b)[j] ==> a == b && i
                == j
        &&& forall|tier: u8, cell: CellId| #[trigger]
            self.in_tier(tier, cell) == tier_part(self.splats@, self.in_cell(cell), tier)
    }
}

/// A splat with a scale, the same in all directions.
pub open spec fn scaled(splat: Splat, s: u32) -> Splat {
    Splat { scale: Vec3 { x: s, y: s, z: s }, ..splat }
}

/// Adding a point to a cloud whose indices are valid gives such a cloud again:
/// whatever a cell or tier lists is a splat, and a tier lists only its own.
pub proof fn law_adding_keeps_indices_valid(
    before: SplatCloud,
    after: SplatCloud,
    splat: Splat,
    cell: CellId,
)
    requires
        before.indices_valid(),
        before.splats@.len() < usize::MAX,
        after.splats@ == before.splats@.push(splat),
        forall|other: CellId| #[trigger]
            after.in_cell(other) == (if other == cell {
                before.in_cell(other).push(before.splats@.len() as usize)
            } else {
                before.in_cell(other)
            }),
        forall|tier: u8, other: CellId| #[trigger]
            after.in_tier(tier, other) == (if tier == splat.lod_tier && other == cell {
                before.in_tier(tier, other).push(before.splats@.len() as usize)
            } else {
                before.in_tier(tier, other)
            }),
    ensures
        after.indices_valid(),
{
    assert forall|other: CellId, k: int| 0 <= k < after.in_cell(other).len() implies #[trigger]
        after.in_cell(other)[k] < after.splats@.len() by {
        if k < before.in_cell(other).len() {
            assert(before.in_cell(other)[k] < before.splats@.len());
        }
    }
    assert forall|tier: u8, other: CellId, k: int|
        0 <= k < after.in_tier(tier, other).len() implies (#[trigger] after.in_tier(
        tier,
        other,
    )[k]) < after.splats@.len() && after.splats@[after.in_tier(tier, other)[k] as int].lod_tier
        == tier by {
        if k < before.in_tier(tier, other).len() {
            assert(before.in_tier(tier, other)[k] < before.splats@.len());
        }
    }
}

/// Adding a point to a cloud in which every splat is listed gives such a cloud
/// again: no splat is lost, in its cell or in its tier.
pub proof fn law_adding_lists_every_splat(
    before: SplatCloud,
    after: SplatCloud,
    splat: Splat,
    cell: CellId,
)
    requires
        before.all_listed(),
        before.splats@.len() < usize::MAX,
        after.splats@ == before.splats@.push(splat),
        forall|other: CellId| #[trigger]
            after.in_cell(other) == (if other == cell {
                before.in_cell(other).push(before.splats@.len() as usize)
            } else {
                before.in_cell(other)
            }),
        forall|tier: u8, other: CellId| #[trigger]
            after.in_tier(tier, other) == (if tier == splat.lod_tier && other == cell {
                before.in_tier(tier, other).push(before.splats@.len() as usize)
            } else {
                before.in_tier(tier, other)
            }),
    ensures
        after.all_listed(),
{
    let last = before.splats@.len();
    assert forall|i: int| 0 <= i < after.splats@.len() implies #[trigger] after.has_cell(i) by {
        if i < last {
            assert(before.has_cell(i));
            let other = choose|other: CellId| #[trigger] before.is_listed(i, other);
            let tier = before.splats@[i].lod_tier;
            vstd::seq_lib::lemma_seq_contains_after_push(
                before.in_cell(other),
                last as usize,
                i as usize,
            );
            vstd::seq_lib::lemma_seq_contains_after_push(
                before.in_tier(tier, other),
                last as usize,
                i as usize,
            );
            assert(after.is_listed(i, other));
        } else {
            let tier = splat.lod_tier;
            vstd::seq_lib::lemma_seq_contains_after_push(
                before.in_cell(cell),
                last as usize,
                i as usize,
            );
            vstd::seq_lib::lemma_seq_contains_after_push(
                before.in_tier(tier, cell),
                last as usize,
                i as usize,
            );
            assert(after.is_listed(i, cell));
        }
    }
}

/// Where splats keep their tiers, tiers keep their splats.
proof fn lemma_same_tiers(splats: Seq<Splat>, others: Seq<Splat>, list: Seq<usize>, tier: u8)
    requires
        forall|k: int|
            0 <= k < list.len() ==> splats[(#[trigger] list[k]) as int].lod_tier
                == others[list[k] as int].lod_tier,
    ensures
        tier_part(others, list, tier) == tier_part(splats, list, tier),
    decreases list.len(),
{
    if list.len() > 0 {
        let head = list.drop_last();
        assert forall|k: int| 0 <= k < head.len() implies splats[(
        #[trigger] head[k]) as int].lod_tier == others[head[k] as int].lod_tier by {
            assert(head[k] == list[k]);
        }
        lemma_same_tiers(splats, others, head, tier);
        assert(list[list.len() - 1] == list.last());
    }
}

/// Adding a point to a cloud whose splats are divided up gives such a cloud
/// again.
pub proof fn law_adding_keeps_cells_divided(
    before: SplatCloud,
    after: SplatCloud,
    splat: Splat,
    cell: CellId,
)
    requires
        before.indices_valid(),
        before.divided(),
        before.splats@.len() < usize::MAX,
        after.splats@ == before.splats@.push(splat),
        forall|other: CellId| #[trigger]
            after.in_cell(other) == (if other == cell {
                before.in_cell(other).push(before.splats@.len() as usize)
            } else {
                before.in_cell(other)
            }),
        forall|tier: u8, other: CellId| #[trigger]
            after.in_tier(tier, other) == (if tier == splat.lod_tier && other == cell {
                before.in_tier(tier, other).push(before.splats@.len() as usize)
            } else {
                before.in_tier(tier, other)
            }),
    ensures
        after.divided(),
{
    let last = before.splats@.len() as usize;
    assert forall|a: CellId, b: CellId, i: int, j: int|
        0 <= i < after.in_cell(a).len() && 0 <= j < after.in_cell(b).len()
            && #[trigger] after.in_cell(a)[i] == #[trigger] after.in_cell(b)[j] implies a == b && i
        == j by {
        let old_a = before.in_cell(a);
        let old_b = before.in_cell(b);
        if i < old_a.len() {
            assert(after.in_cell(a)[i] == old_a[i]);
            assert(old_a[i] < last);
        } else {
            assert(a == cell && after.in_cell(a)[i] == last);
        }
        if j < old_b.len() {
            assert(after.in_cell(b)[j] == old_b[j]);
            assert(old_b[j] < last);
        } else {
            assert(b == cell && after.in_cell(b)[j] == last);
        }
    }
    assert forall|tier: u8, other: CellId| #[trigger]
        after.in_tier(tier, other) == tier_part(after.splats@, after.in_cell(other), tier) by {
        let list = before.in_cell(other);
        assert forall|k: int| 0 <= k < list.len() implies before.splats@[(
        #[trigger] list[k]) as int].lod_tier == after.splats@[list[k] as int].lod_tier by {
            assert(list[k] < before.splats@.len());
        }
        lemma_same_tiers(before.splats@, after.splats@, list, tier);
        assert(before.in_tier(tier, other) == tier_part(before.splats@, list, tier));
        if other == cell {
            assert(list.push(last).drop_last() =~= list);
            assert(after.splats@[last as int] == splat);
        }
    }
}

proof fn lemma_tier_part_add(splats: Seq<Splat>, a: Seq<usize>, b: Seq<usize>, tier: u8)
    ensures
        tier_part(splats, a + b, tier) == tier_part(splats, a, tier) + tier_part(splats, b, tier),
    decreases b.len(),
{
    if b.len() == 0 {
        assert(a + b =~= a);
        assert(tier_part(splats, a, tier) + tier_part(splats, b, tier) =~= tier_part(
            splats,
            a,
            tier,
        ));
    } else {
        assert((a + b).drop_last() =~= a + b.drop_last());
        lemma_tier_part_add(splats, a, b.drop_last(), tier);
        assert(tier_part(splats, a + b, tier) =~= tier_part(splats, a, tier) + tier_part(
            splats,
            b,
            tier,
        ));
    }
}

proof fn lemma_tier_part(splats: Seq<Splat>, list: Seq<usize>, tier: u8)
    ensures
        forall|x: usize| #[trigger]
            tier_part(splats, list, tier).contains(x) == (list.contains(x)
                && splats[x as int].lod_tier == tier),
        list.no_duplicates() ==> tier_part(splats, list, tier).no_duplicates(),
    decreases list.len(),
{
    if list.len() > 0 {
        let head = list.drop_last();
        let last = list.last();
        lemma_tier_part(splats, head, tier);
        assert(list =~= head.push(last));
        assert forall|x: usize| #[trigger]
            tier_part(splats, list, tier).contains(x) == (list.contains(x)
                && splats[x as int].lod_tier == tier) by {
            vstd::seq_lib::lemma_seq_contains_after_push(head, last, x);
            vstd::seq_lib::lemma_seq_contains_after_push(
                tier_part(splats, head, tier),
                last,
                x,
            );
            assert(tier_part(splats, head, tier).contains(x) == (head.contains(x)
                && splats[x as int].lod_tier == tier));
        }
        if list.no_duplicates() {
            assert(!head.contains(last)) by {
                if head.contains(last) {
                    let k = choose|k: int| 0 <= k < head.len() && head[k] == last;
                    assert(list[k] == list[list.len() - 1]);
                }
            }
            assert(head.no_duplicates());
            assert(!tier_part(splats, head, tier).contains(last));
        }
    }
}

/// A number that some cells list is listed by one of them.
proof fn lemma_listed_by_a_cell(cloud: SplatCloud, cells: Seq<CellId>, i: int)
    requires
        0 <= i < cloud.in_cells(cells).len(),
    ensures
        exists|c: int, k: int|
            0 <= c < cells.len() && 0 <= k < cloud.in_cell(cells[c]).len()
                && #[trigger] cloud.in_cell(cells[c])[k] == cloud.in_cells(cells)[i],
    decreases cells.len(),
{
    let head = cells.drop_last();
    let n = cloud.in_cells(head).len();
    if i < n {
        lemma_listed_by_a_cell(cloud, head, i);
        let (c, k) = choose|c: int, k: int|
            0 <= c < head.len() && 0 <= k < cloud.in_cell(head[c]).len()
                && #[trigger] cloud.in_cell(head[c])[k] == cloud.in_cells(head)[i];
        assert(cloud.in_cell(cells[c])[k] == cloud.in_cells(cells)[i]);
    } else {
        assert(cloud.in_cell(cells[cells.len() - 1])[i - n] == cloud.in_cells(cells)[i]);
    }
}

/// The tiers divide up the splats of some cells: a splat is listed once, in
/// its own tier and in no other, in the order of the cells. A tier without
/// splats lists none.
pub proof fn law_tiers_divide_up_cells(cloud: SplatCloud, cells: Seq<CellId>, tier: u8)
    requires
        cloud.divided(),
        cells.no_duplicates(),
    ensures
        cloud.in_cells(cells).no_duplicates(),
        cloud.in_cells_at(tier, cells).no_duplicates(),
        cloud.in_cells_at(tier, cells) == tier_part(cloud.splats@, cloud.in_cells(cells), tier),
        forall|x: usize| #[trigger]
            cloud.in_cells_at(tier, cells).contains(x) == (cloud.in_cells(cells).contains(x)
                && cloud.splats@[x as int].lod_tier == tier),
        (forall|x: int| 0 <= x < cloud.splats@.len() ==> (#[trigger] cloud.splats@[x]).lod_tier
            != tier) && cloud.indices_valid() ==> cloud.in_cells_at(tier, cells).len() == 0,
    decreases cells.len(),
{
    let all = cloud.in_cells(cells);
    if cells.len() > 0 {
        let head = cells.drop_last();
        let cell = cells.last();
        assert(head.no_duplicates());
        law_tiers_divide_up_cells(cloud, head, tier);
        assert(cells =~= head.push(cell));
        cloud.law_cells_are_put_together(tier, head, cell);
        lemma_tier_part_add(cloud.splats@, cloud.in_cells(head), cloud.in_cell(cell), tier);
        assert(cloud.in_tier(tier, cell) == tier_part(cloud.splats@, cloud.in_cell(cell), tier));
        let n = cloud.in_cells(head).len();
        assert forall|i: int, j: int| 0 <= i < all.len() && 0 <= j < all.len() && i != j implies all[i]
            != all[j] by {
            if i >= n && j >= n {
                assert(all[i] == cloud.in_cell(cell)[i - n]);
                assert(all[j] == cloud.in_cell(cell)[j - n]);
            } else if i < n && j < n {
                assert(all[i] == cloud.in_cells(head)[i]);
                assert(all[j] == cloud.in_cells(head)[j]);
            } else {
                let (low, high) = if i < n {
                    (i, j)
                } else {
                    (j, i)
                };
                lemma_listed_by_a_cell(cloud, head, low);
                let (c, k) = choose|c: int, k: int|
                    0 <= c < head.len() && 0 <= k < cloud.in_cell(head[c]).len()
                        && #[trigger] cloud.in_cell(head[c])[k] == cloud.in_cells(head)[low];
                assert(all[low] == cloud.in_cell(head[c])[k]);
                assert(all[high] == cloud.in_cell(cell)[high - n]);
                assert(cells[c] != cells[cells.len() - 1]);
            }
        }
    } else {
        cloud.law_cells_are_put_together(tier, cells, CellId { column: 0, row: 0 });
        assert(cells =~= Seq::<CellId>::empty());
    }
    lemma_tier_part(cloud.splats@, all, tier);
    let part = cloud.in_cells_at(tier, cells);
    if cloud.indices_valid() && part.len() > 0 {
        law_listed_splats_exist(cloud, tier, cells);
        assert(part[0] < cloud.splats@.len());
        assert(cloud.splats@[part[0] as int].lod_tier == tier);
    }
}

/// What is listed for some cells are splats of the cloud.
pub proof fn law_listed_splats_exist(cloud: SplatCloud, tier: u8, cells: Seq<CellId>)
    requires
        cloud.indices_valid(),
    ensures
        forall|k: int|
            0 <= k < cloud.in_cells(cells).len() ==> #[trigger] cloud.in_cells(cells)[k]
                < cloud.splats@.len(),
        forall|k: int|
            0 <= k < cloud.in_cells_at(tier, cells).len() ==> (#[trigger] cloud.in_cells_at(
                tier,
                cells,
            )[k]) < cloud.splats@.len() && cloud.splats@[cloud.in_cells_at(
                tier,
                cells,
            )[k] as int].lod_tier == tier,
    decreases cells.len(),
{
    if cells.len() > 0 {
        let head = cells.drop_last();
        let cell = cells.last();
        law_listed_splats_exist(cloud, tier, head);
        assert forall|k: int| 0 <= k < cloud.in_cells(cells).len() implies #[trigger] cloud.in_cells(
            cells,
        )[k] < cloud.splats@.len() by {
            let n = cloud.in_cells(head).len();
            if k < n {
                assert(cloud.in_cells(cells)[k] == cloud.in_cells(head)[k]);
            } else {
                assert(cloud.in_cells(cells)[k] == cloud.in_cell(cell)[k - n]);
            }
        }
        assert forall|k: int| 0 <= k < cloud.in_cells_at(tier, cells).len() implies (
        #[trigger] cloud.in_cells_at(tier, cells)[k]) < cloud.splats@.len()
            && cloud.splats@[cloud.in_cells_at(tier, cells)[k] as int].lod_tier == tier by {
            let n = cloud.in_cells_at(tier, head).len();
            if k < n {
                assert(cloud.in_cells_at(tier, cells)[k] == cloud.in_cells_at(tier, head)[k]);
            } else {
                assert(cloud.in_cells_at(tier, cells)[k] == cloud.in_tier(tier, cell)[k - n]);
            }
        }
    }
}

/// The splats of a tile: those of its cells, in its tier where it has one.
/// Without a cloud there are none.
pub fn tile_splats(cloud: Option<&SplatCloud>, tier: Option<u8>, cells: &[CellId]) -> (r: Vec<
    usize,
>)
    ensures
        r@ == (match (cloud, tier) {
            (Some(cloud), Some(tier)) => cloud.in_cells_at(tier, cells@),
            (Some(cloud), None) => cloud.in_cells(cells@),
            _ => Seq::empty(),
        }),
{
    match (cloud, tier) {
        (Some(cloud), Some(tier)) => cloud.splats_for_cells_at_lod(cells, tier),
        (Some(cloud), None) => cloud.splats_for_cells(cells),
        _ => Vec::new(),
    }
}

/// A splat as it is written, at a place relative to the center of the root
/// tile, with the coefficient that stands for its color.
pub open spec fn written_splat(splat: Splat, position: Vec3, sh0: Vec3) -> SplatVertex {
    SplatVertex {
        position,
        rgb: splat.rgb,
        rotation: splat.rotation,
        scale: splat.scale,
        opacity: splat.opacity,
        sh0,
    }
}

/// The splats of a tile as they are written, at the given places and with the
/// given coefficients.
pub fn gather_splats(
    cloud: &SplatCloud,
    indices: &[usize],
    positions: &[Vec3],
    sh0: &[Vec3],
) -> (r: Vec<SplatVertex>)
    requires
        forall|i: int| 0 <= i < indices@.len() ==> #[trigger] indices@[i] < cloud.splats@.len(),
        positions@.len() == indices@.len(),
        sh0@.len() == indices@.len(),
    ensures
        r@ == Seq::new(
            indices@.len(),
            |i: int| written_splat(cloud.splats@[indices@[i] as int], positions@[i], sh0@[i]),
        ),
        forall|i: int|
            0 <= i < r@.len() ==> {
                let splat = cloud.splats@[indices@[i] as int];
                &&& (#[trigger] r@[i]).position == positions@[i]
                &&& r@[i].sh0 == sh0@[i]
                &&& r@[i].rgb == splat.rgb
                &&& r@[i].rotation == splat.rotation
                &&& r@[i].scale == splat.scale
                &&& r@[i].opacity == splat.opacity
            },
{
    let mut r: Vec<SplatVertex> = Vec::new();
    let n: usize = indices.len();
    let mut i: usize = 0;
    while i < n
        invariant
            i <= n,
            n == indices@.len(),
            n == positions@.len(),
            n == sh0@.len(),
            forall|k: int|
                0 <= k < indices@.len() ==> #[trigger] indices@[k] < cloud.splats@.len(),
            r@ =~= Seq::new(
                i as nat,
                |k: int| written_splat(cloud.splats@[indices@[k] as int], positions@[k], sh0@[k]),
            ),
        decreases n - i,
    {
        assert(indices@[i as int] < cloud.splats@.len());
        let splat = cloud.splats[indices[i]];
        r.push(
            SplatVertex {
                position: positions[i],
                rgb: splat.rgb,
                rotation: splat.rotation,
                scale: splat.scale,
                opacity: splat.opacity,
                sh0: sh0[i],
            },
        );
        i += 1;
    }
    r
}

// ----------------------------------------------------------------- features

/// Whether a feature with a center lies in a box, seen from above. A feature
/// without vertices has no center.
pub open spec fn lies_within(
    center: Option<(u64, u64)>,
    min: (u64, u64),
    max: (u64, u64),
) -> bool {
    match center {
        None => false,
        Some((x, y)) => {
            &&& crate::float_bits::f64_le(min.0, x)
            &&& crate::float_bits::f64_le(x, max.0)
            &&& crate::float_bits::f64_le(min.1, y)
            &&& crate::float_bits::f64_le(y, max.1)
        },
    }
}

/// The numbers of the features that are kept, in order.
pub open spec fn kept_features(
    centers: Seq<Option<(u64, u64)>>,
    min: (u64, u64),
    max: (u64, u64),
) -> Seq<usize>
    decreases centers.len(),
{
    if centers.len() == 0 {
        Seq::empty()
    } else if lies_within(centers.last(), min, max) {
        kept_features(centers.drop_last(), min, max).push((centers.len() - 1) as usize)
    } else {
        kept_features(centers.drop_last(), min, max)
    }
}

/// Which features lie in the box of a point cloud, by the centers of their
/// vertices. Coordinates are doubles, by their bits.
pub fn filter_features_by_las_bbox(
    centers: &[Option<(u64, u64)>],
    min: (u64, u64),
    max: (u64, u64),
) -> (r: Vec<usize>)
    ensures
        r@ == kept_features(centers@, min, max),
{
    let mut r: Vec<usize> = Vec::new();
    let n: usize = centers.len();
    let mut i: usize = 0;
    while i < n
        invariant
            i <= n,
            n == centers@.len(),
            r@ == kept_features(centers@.take(i as int), min, max),
        decreases n - i,
    {
        proof {
            assert(centers@.take(i + 1).drop_last() =~= centers@.take(i as int));
        }
        let inside = match centers[i] {
            None => false,
            Some((x, y)) => le_f64(min.0, x) && le_f64(x, max.0) && le_f64(min.1, y) && le_f64(
                y,
                max.1,
            ),
        };
        if inside {
            r.push(i);
        }
        i += 1;
    }
    assert(centers@.take(n as int) =~= centers@);
    r
}

// -------------------------------------------------------------------- laws

proof fn lemma_short_at(data: Seq<u8>, at: int)
    requires
        0 <= at,
        at + 2 <= data.len(),
    ensures
        short_at(data, at) == data[at] + 0x100 * data[at + 1],
{
    let s = data.subrange(at, at + 2);
    crate::bytes::law_bytes_have_weights(s);
    assert(s[0] == data[at] && s[1] == data[at + 1]);
}

/// Whether the bytes of key `i` of a directory name a projected system (3072) or
/// a geographic one (2048), and the bytes that say where its value is are zero,
/// so that it is given in place, and it is not zero.
pub open spec fn holds_code(data: Seq<u8>, i: int) -> bool {
    let at = 8 + 8 * i;
    &&& data[at] == 0 && (data[at + 1] == 12 || data[at + 1] == 8)
    &&& data[at + 2] == 0 && data[at + 3] == 0
    &&& data[at + 6] != 0 || data[at + 7] != 0
}

/// A key directory gives the code in the first key that holds one, as far as
/// there are keys: the number of keys stands in the bytes 6 and 7, and the keys
/// take up eight bytes each from byte 8 on.
pub proof fn law_code_in_keys_is_found(data: Seq<u8>, i: int)
    requires
        0 <= i < data[6] + 0x100 * data[7],
        8 + 8 * i + 8 <= data.len(),
        holds_code(data, i),
        forall|k: int| 0 <= k < i ==> !#[trigger] holds_code(data, k),
    ensures
        keys_give(data, (data[8 + 8 * i + 6] + 0x100 * data[8 + 8 * i + 7]) as u32),
{
    let at = 8 + 8 * i;
    let code = (data[at + 6] + 0x100 * data[at + 7]) as u32;
    lemma_short_at(data, 6);
    lemma_short_at(data, at);
    lemma_short_at(data, at + 2);
    lemma_short_at(data, at + 6);
    assert(key_gives(data, i, code));
    assert forall|k: int, other: u32| 0 <= k < i implies !#[trigger] key_gives(data, k, other) by {
        let place = 8 + 8 * k;
        lemma_short_at(data, place);
        lemma_short_at(data, place + 2);
        lemma_short_at(data, place + 6);
        assert(!holds_code(data, k));
    }
}

/// A key directory gives no code where no key that is there holds one.
pub proof fn law_keys_without_code_give_none(data: Seq<u8>)
    requires
        data.len() >= 8,
        forall|k: int|
            0 <= k < data[6] + 0x100 * data[7] && 8 + 8 * k + 8 <= data.len()
                ==> !#[trigger] holds_code(data, k),
    ensures
        keys_give_none(data),
{
    lemma_short_at(data, 6);
    assert forall|k: int, other: u32| !#[trigger] key_gives(data, k, other) by {
        let place = 8 + 8 * k;
        if 0 <= k < data[6] + 0x100 * data[7] && place + 8 <= data.len() {
            lemma_short_at(data, place);
            lemma_short_at(data, place + 2);
            lemma_short_at(data, place + 6);
            assert(!holds_code(data, k));
        }
    }
}

proof fn lemma_code_follows(
    before: Seq<u8>,
    mark: Seq<u8>,
    quote: Seq<u8>,
    code: u32,
    after: Seq<u8>,
    quotable: bool,
)
    requires
        quote == Seq::<u8>::empty() || (quotable && quote == seq![0x22u8]),
        after.len() > 0 ==> !(0x30 <= after[0] <= 0x39),
        ({
            let digits = crate::text::digit_bytes(crate::text::decimal(code as nat));
            let text = before + mark + quote + digits + after;
            forall|k: int| 0 <= k < before.len() ==> !#[trigger] crate::text::occurs_at(
                text,
                mark,
                k,
            )
        }),
    ensures
        ({
            let digits = crate::text::digit_bytes(crate::text::decimal(code as nat));
            follows_mark(before + mark + quote + digits + after, mark, quotable, code)
        }),
{
    let digits = crate::text::digit_bytes(crate::text::decimal(code as nat));
    let text = before + mark + quote + digits + after;
    let at = before.len() as int;
    crate::text::law_decimal_is_read_back(code as nat);
    crate::text::law_digits_lead(digits, after);
    assert(text.subrange(at, at + mark.len()) =~= mark);
    assert(crate::text::first_at(text, mark, at));
    let start = at + mark.len() + quote.len();
    assert(text.skip(start) =~= digits + after);
    if quote.len() == 0 {
        assert(text[at + mark.len()] == digits[0]);
    } else {
        assert(text[at + mark.len()] == 0x22);
    }
    assert(digits_begin(text, at + mark.len(), quotable) == start);
}

/// The code of a coordinate system is read from its text: the number after the
/// first `AUTHORITY["EPSG",` with a quote before it or without, up to whatever is
/// no digit.
pub proof fn law_authority_code_is_read(
    before: Seq<u8>,
    quote: Seq<u8>,
    code: u32,
    after: Seq<u8>,
)
    requires
        quote == Seq::<u8>::empty() || quote == seq![0x22u8],
        after.len() > 0 ==> !(0x30 <= after[0] <= 0x39),
        ({
            let mark = vstd::utf8::encode_utf8("AUTHORITY[\"EPSG\","@);
            let digits = crate::text::digit_bytes(crate::text::decimal(code as nat));
            let text = before + mark + quote + digits + after;
            forall|k: int| 0 <= k < before.len() ==> !#[trigger] crate::text::occurs_at(
                text,
                mark,
                k,
            )
        }),
    ensures
        ({
            let mark = vstd::utf8::encode_utf8("AUTHORITY[\"EPSG\","@);
            let digits = crate::text::digit_bytes(crate::text::decimal(code as nat));
            text_gives(before + mark + quote + digits + after, code)
        }),
{
    let mark = vstd::utf8::encode_utf8("AUTHORITY[\"EPSG\","@);
    lemma_code_follows(before, mark, quote, code, after, true);
}

/// In a text without `AUTHORITY["EPSG",` the code is the number after the first
/// `ID["EPSG",` up to whatever is no digit.
pub proof fn law_id_code_is_read(before: Seq<u8>, code: u32, after: Seq<u8>)
    requires
        after.len() > 0 ==> !(0x30 <= after[0] <= 0x39),
        ({
            let mark = vstd::utf8::encode_utf8("ID[\"EPSG\","@);
            let digits = crate::text::digit_bytes(crate::text::decimal(code as nat));
            let text = before + mark + digits + after;
            &&& forall|k: int| 0 <= k < before.len() ==> !#[trigger] crate::text::occurs_at(
                text,
                mark,
                k,
            )
            &&& crate::text::absent(text, vstd::utf8::encode_utf8("AUTHORITY[\"EPSG\","@))
        }),
    ensures
        ({
            let mark = vstd::utf8::encode_utf8("ID[\"EPSG\","@);
            let digits = crate::text::digit_bytes(crate::text::decimal(code as nat));
            text_gives(before + mark + digits + after, code)
        }),
{
    let mark = vstd::utf8::encode_utf8("ID[\"EPSG\","@);
    let digits = crate::text::digit_bytes(crate::text::decimal(code as nat));
    let none = Seq::<u8>::empty();
    assert(before + mark + none + digits + after =~= before + mark + digits + after);
    lemma_code_follows(before, mark, none, code, after, false);
    let text = before + mark + digits + after;
    assert forall|at: int| #[trigger]
        crate::text::first_at(text, authority_mark(), at) implies false by {
        assert(!crate::text::occurs_at(text, authority_mark(), at));
    }
}

/// A text gives one code at most, and none where it gives none.
pub proof fn law_text_gives_one_code(text: Seq<u8>, a: u32, b: u32)
    ensures
        text_gives(text, a) && text_gives(text, b) ==> a == b,
        text_gives_none(text) ==> !text_gives(text, a),
{
    assert forall|x: int, y: int, mark: Seq<u8>| #[trigger]
        crate::text::first_at(text, mark, x) && #[trigger] crate::text::first_at(
            text,
            mark,
            y,
        ) implies x == y by {
        lemma_first_is_unique(text, mark, x, y);
    }
}

/// A point is in a tier or a coarser one if and only if its number is a multiple
/// of the stride of the tier; so each tier doubles the number of points, and
/// every point is in some tier.
pub proof fn law_tiers_double_the_points(n_tiers: u8, number: u64, tier: u8)
    requires
        tier < n_tiers,
    ensures
        0 <= tier_of(n_tiers, number) < n_tiers,
        tier_of(n_tiers, number) <= tier <==> number as int % vstd::arithmetic::power2::pow2(
            (n_tiers - 1 - tier) as nat,
        ) as int == 0,
{
    law_strided_tiers(n_tiers, number);
    let m = (n_tiers - 1) as nat;
    let k = (n_tiers - 1 - tier) as nat;
    vstd::arithmetic::power2::lemma_pow2_pos(k);
    vstd::arithmetic::power2::lemma_pow2_pos(m);
    vstd::arithmetic::power2::lemma2_to64();
    if number > 0 {
        lemma_halvings(number as nat, m);
        lemma_halvings(number as nat, k);
    } else {
        vstd::arithmetic::div_mod::lemma_small_mod(0, vstd::arithmetic::power2::pow2(m));
        vstd::arithmetic::div_mod::lemma_small_mod(0, vstd::arithmetic::power2::pow2(k));
    }
}

/// Each tier has splats half the size of the next coarser one; those of the
/// finest tier, or of the only one, are not doubled.
pub proof fn law_coarser_tiers_have_larger_splats(n_tiers: u8, tier: u8)
    ensures
        n_tiers > 1 && tier + 1 < n_tiers ==> doublings(n_tiers, tier) == doublings(
            n_tiers,
            (tier + 1) as u8,
        ) + 1,
        n_tiers > 1 ==> doublings(n_tiers, (n_tiers - 1) as u8) == 0,
        n_tiers <= 1 ==> doublings(n_tiers, tier) == 0,
{
}

/// Division that rounds towards zero: what is left has the sign of the number
/// that was divided and is smaller than the divisor.
pub proof fn law_division_rounds_towards_zero(a: int, b: int)
    requires
        b > 0,
    ensures
        a >= 0 ==> 0 <= a - b * truncated(a, b) < b,
        a <= 0 ==> -b < a - b * truncated(a, b) <= 0,
{
    if a >= 0 {
        vstd::arithmetic::div_mod::lemma_fundamental_div_mod(a, b);
        vstd::arithmetic::div_mod::lemma_mod_bound(a, b);
    } else {
        vstd::arithmetic::div_mod::lemma_fundamental_div_mod(-a, b);
        vstd::arithmetic::div_mod::lemma_mod_bound(-a, b);
        let q = (-a) / b;
        assert(b * (-q) == -(b * q)) by (nonlinear_arith);
    }
}

/// A feature is kept if and only if its center lies in the box, along both axes;
/// a feature without a center is not. Features keep their order.
pub proof fn law_kept_features_lie_in_the_box(
    centers: Seq<Option<(u64, u64)>>,
    min: (u64, u64),
    max: (u64, u64),
)
    requires
        centers.len() <= usize::MAX,
    ensures
        forall|i: int|
            0 <= i < centers.len() ==> (kept_features(centers, min, max).contains(i as usize)
                <==> (#[trigger] centers[i] matches Some(center) && {
                &&& crate::float_bits::f64_le(min.0, center.0)
                &&& crate::float_bits::f64_le(center.0, max.0)
                &&& crate::float_bits::f64_le(min.1, center.1)
                &&& crate::float_bits::f64_le(center.1, max.1)
            })),
        forall|k: int|
            0 <= k < kept_features(centers, min, max).len() ==> #[trigger] kept_features(
                centers,
                min,
                max,
            )[k] < centers.len(),
        forall|j: int, k: int|
            0 <= j < k < kept_features(centers, min, max).len() ==> #[trigger] kept_features(
                centers,
                min,
                max,
            )[j] < #[trigger] kept_features(centers, min, max)[k],
    decreases centers.len(),
{
    if centers.len() > 0 {
        let head = centers.drop_last();
        let before = kept_features(head, min, max);
        let all = kept_features(centers, min, max);
        law_kept_features_lie_in_the_box(head, min, max);
        let last = (centers.len() - 1) as usize;
        assert(!before.contains(last)) by {
            if before.contains(last) {
                let k = choose|k: int| 0 <= k < before.len() && before[k] == last;
                assert(before[k] < head.len());
            }
        }
        assert forall|i: int| 0 <= i < centers.len() implies (all.contains(i as usize) <==> (
        #[trigger] centers[i] matches Some(center) && {
            &&& crate::float_bits::f64_le(min.0, center.0)
            &&& crate::float_bits::f64_le(center.0, max.0)
            &&& crate::float_bits::f64_le(min.1, center.1)
            &&& crate::float_bits::f64_le(center.1, max.1)
        })) by {
            if lies_within(centers.last(), min, max) {
                vstd::seq_lib::lemma_seq_contains_after_push(before, last, i as usize);
            }
            if i < head.len() {
                assert(head[i] == centers[i]);
            } else {
                assert(centers[i] == centers.last());
            }
        }
    }
}

/// A code comes from records with a coordinate system text, which have the number
/// 2112, and from key directories, which have the number 34735, and from no
/// others. No record both gives a code and gives none.
pub proof fn law_records_that_give_codes(vlr: Vlr, code: u32)
    ensures
        vlr.record_id == 2112 && text_gives(vlr.data@, code) ==> record_gives(vlr, code),
        vlr.record_id == 34735 && keys_give(vlr.data@, code) ==> record_gives(vlr, code),
        vlr.record_id != 2112 && vlr.record_id != 34735 ==> record_gives_none(vlr)
            && !record_gives(vlr, code),
        record_gives_none(vlr) ==> !record_gives(vlr, code),
{
    law_text_gives_one_code(vlr.data@, code, code);
}

/// The name of a coordinate system is "EPSG:" and its code in decimal; so no two
/// codes share a name.
pub proof fn law_names_tell_the_code(a: u32, b: u32)
    ensures
        epsg_name(a).take(5) == "EPSG:"@,
        crate::text::digits_value(crate::text::digit_bytes(epsg_name(a).skip(5))) == a,
        epsg_name(a) == epsg_name(b) ==> a == b,
{
    reveal_strlit("EPSG:");
    assert("EPSG:"@.len() == 5);
    assert(epsg_name(a).take(5) =~= "EPSG:"@);
    assert(epsg_name(a).skip(5) =~= crate::text::decimal(a as nat));
    assert(epsg_name(b).skip(5) =~= crate::text::decimal(b as nat));
    crate::text::law_decimal_is_read_back(a as nat);
    crate::text::law_decimal_is_read_back(b as nat);
}

} // verus!
