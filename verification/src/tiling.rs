//! The decisions of a run: whether the input fits in memory, how it is cut
//! into cells and tiles, what becomes of a tile, and where a tileset is split.

use crate::float_bits::lt_f64;
use crate::text::chars_of;
use vstd::prelude::*;

verus! {

// ------------------------------------------------------------------ formats

/// What a tile can be written as.
#[derive(Clone, Copy, Debug, PartialEq, Eq, Structural)]
pub enum Formats {
    _3DTiles,
    CityJSON,
}

impl Formats {
    /// The name of the format.
    pub open spec fn name(self) -> Seq<char> {
        match self {
            Formats::_3DTiles => "3DTiles"@,
            Formats::CityJSON => "CityJSON"@,
        }
    }

    /// The name of the format.
    pub fn to_string(&self) -> (r: String)
        ensures
            r@ == self.name(),
    {
        match self {
            Formats::_3DTiles => "3DTiles".to_owned(),
            Formats::CityJSON => "CityJSON".to_owned(),
        }
    }
}

// ------------------------------------------------------------------- memory

/// How many bytes reading a file is taken to need: three times its size.
pub fn memory_needed(file_size: u64) -> (r: u128)
    ensures
        r == file_size * 3,
{
    file_size as u128 * 3
}

/// Whether reading a file would need more than seven tenths of the memory that
/// is available. Where nothing is known of the memory, it is taken to be as
/// large as can be.
pub fn exceeds_memory(file_size: u64, available: Option<u64>) -> (r: bool)
    ensures
        r == (file_size * 3 > (match available {
            Some(bytes) => bytes,
            None => u64::MAX,
        }) * 7 / 10),
        available matches Some(bytes) ==> (r <==> 30 * file_size > 7 * bytes),
{
    let bytes: u64 = match available {
        Some(bytes) => bytes,
        None => u64::MAX,
    };
    memory_needed(file_size) > bytes as u128 * 7 / 10
}

// --------------------------------------------------------- reference systems

/// What follows the last slash; all of it where there is none.
pub open spec fn last_segment(s: Seq<char>) -> Seq<char>
    decreases s.len(),
{
    if s.len() == 0 || s.last() == '/' {
        Seq::empty()
    } else {
        last_segment(s.drop_last()).push(s.last())
    }
}

/// Whether a character is a decimal digit.
pub open spec fn is_decimal(c: char) -> bool {
    '0' <= c <= '9'
}

/// The number that some decimal digits spell.
pub open spec fn spelled(s: Seq<char>) -> nat
    decreases s.len(),
{
    if s.len() == 0 {
        0
    } else {
        10 * spelled(s.drop_last()) + (s.last() as int - '0' as int) as nat
    }
}

/// What is left of a number after its sign, which may be a plus.
pub open spec fn unsigned_part(s: Seq<char>) -> Seq<char> {
    if s.len() > 0 && s[0] == '+' {
        s.skip(1)
    } else {
        s
    }
}

/// The code that a text spells: decimal digits, with or without a plus before
/// them, for a number of at most 16 bits.
pub open spec fn code_spelled(s: Seq<char>) -> Option<u16> {
    let digits = unsigned_part(s);
    if digits.len() > 0 && (forall|i: int| 0 <= i < digits.len() ==> is_decimal(#[trigger] digits[i]))
        && spelled(digits) <= u16::MAX {
        Some(spelled(digits) as u16)
    } else {
        None
    }
}

proof fn lemma_spelled_grows(s: Seq<char>, n: int)
    requires
        0 <= n <= s.len(),
    ensures
        spelled(s.take(n)) <= spelled(s),
    decreases s.len(),
{
    if n == s.len() {
        assert(s.take(n) =~= s);
    } else {
        assert(s.drop_last().take(n) =~= s.take(n));
        lemma_spelled_grows(s.drop_last(), n);
    }
}

proof fn lemma_last_segment(s: Seq<char>, start: int)
    requires
        0 <= start <= s.len(),
        start > 0 ==> s[start - 1] == '/',
        forall|i: int| start <= i < s.len() ==> #[trigger] s[i] != '/',
    ensures
        last_segment(s) == s.skip(start),
    decreases s.len() - start,
{
    if start == s.len() {
        assert(s.skip(start) =~= Seq::<char>::empty());
    } else {
        let head = s.drop_last();
        assert forall|i: int| start <= i < head.len() implies #[trigger] head[i] != '/' by {
            assert(head[i] == s[i]);
        }
        assert(s[s.len() - 1] != '/');
        lemma_last_segment(head, start);
        assert(s.skip(start) =~= head.skip(start).push(s.last()));
    }
}

/// The code of a reference system, which is what the last part of its address
/// spells.
pub fn reference_epsg(reference_system: &str) -> (r: Option<u16>)
    ensures
        r == code_spelled(last_segment(reference_system@)),
{
    let chars: Vec<char> = chars_of(reference_system);
    let n: usize = chars.len();
    let mut start: usize = n;
    while start > 0 && chars[start - 1] != '/'
        invariant
            start <= n,
            n == chars@.len(),
            forall|i: int| start <= i < n ==> #[trigger] chars@[i] != '/',
        decreases start,
    {
        start -= 1;
    }
    let ghost segment = chars@.skip(start as int);
    proof {
        lemma_last_segment(chars@, start as int);
    }
    let mut at: usize = start;
    if at < n && chars[at] == '+' {
        at += 1;
    }
    let ghost digits = chars@.skip(at as int);
    assert(digits =~= unsigned_part(segment));
    if at == n {
        return None;
    }
    let mut value: u16 = 0;
    let mut i: usize = at;
    assert(digits.take(0) =~= Seq::<char>::empty());
    while i < n
        invariant
            at <= i <= n,
            at < n,
            n == chars@.len(),
            digits == chars@.skip(at as int),
            digits == unsigned_part(last_segment(reference_system@)),
            forall|k: int| 0 <= k < i - at ==> is_decimal(#[trigger] digits[k]),
            value == spelled(digits.take(i - at)),
        decreases n - i,
    {
        let c: char = chars[i];
        assert(digits[i - at] == c);
        if c < '0' || c > '9' {
            assert(!is_decimal(digits[i - at]));
            return None;
        }
        proof {
            assert(digits.take(i + 1 - at).drop_last() =~= digits.take(i - at));
            lemma_spelled_grows(digits, i + 1 - at);
        }
        let next: u32 = value as u32 * 10 + (c as u32 - 48);
        if next > 65535 {
            return None;
        }
        value = next as u16;
        i += 1;
    }
    assert(digits.take(n - at) =~= digits);
    Some(value)
}

// -------------------------------------------------------- cells and quadtree

/// The largest cell that is used where tiles hold splats.
pub const SPLAT_CELLSIZE: u32 = 100;

/// The size of the grid cells. Splats need small ones.
pub fn effective_cellsize(cellsize: u32, splats: bool) -> (r: u32)
    ensures
        r == (if splats && cellsize > SPLAT_CELLSIZE {
            SPLAT_CELLSIZE
        } else {
            cellsize
        }),
        r <= cellsize,
        splats ==> r <= 100,
        r == cellsize || r == 100,
        !splats ==> r == cellsize,
{
    if splats && cellsize > SPLAT_CELLSIZE {
        SPLAT_CELLSIZE
    } else {
        cellsize
    }
}

/// What the size of a quadtree node is measured by.
#[derive(Clone, Copy, Debug, PartialEq, Eq, Structural)]
pub enum QuadTreeCriteria {
    Objects,
    Vertices,
}

/// How much a quadtree node may hold before it is divided.
#[derive(Clone, Copy, Debug, PartialEq, Eq, Structural)]
pub enum QuadTreeCapacity {
    Objects(usize),
    Vertices(usize),
}

/// How much a quadtree node may hold. With splats, nothing: each cell becomes
/// a tile of its own.
pub fn effective_capacity(
    criteria: QuadTreeCriteria,
    capacity: usize,
    splats: bool,
) -> (r: QuadTreeCapacity)
    ensures
        r == (if splats {
            QuadTreeCapacity::Vertices(0)
        } else {
            match criteria {
                QuadTreeCriteria::Objects => QuadTreeCapacity::Objects(capacity),
                QuadTreeCriteria::Vertices => QuadTreeCapacity::Vertices(capacity),
            }
        }),
{
    if splats {
        return QuadTreeCapacity::Vertices(0);
    }
    match criteria {
        QuadTreeCriteria::Objects => QuadTreeCapacity::Objects(capacity),
        QuadTreeCriteria::Vertices => QuadTreeCapacity::Vertices(capacity),
    }
}

/// A range of heights, by the bits of its double precision ends, and how deep
/// it is.
#[derive(Clone, Copy, Debug, PartialEq, Eq, Structural)]
pub struct HeightRange {
    pub lowest: u64,
    pub highest: u64,
    pub depth: u64,
}

/// The heights of the grid: those of the points where they reach deeper.
pub fn grid_heights(grid: HeightRange, points: Option<HeightRange>) -> (r: HeightRange)
    ensures
        r == (match points {
            Some(range) => if crate::float_bits::f64_lt(grid.depth, range.depth) {
                range
            } else {
                grid
            },
            None => grid,
        }),
        r == grid || points == Some(r),
        !crate::float_bits::f64_lt(r.depth, grid.depth),
        points matches Some(range) ==> !crate::float_bits::f64_lt(r.depth, range.depth),
{
    match points {
        Some(range) => if lt_f64(grid.depth, range.depth) {
            range
        } else {
            grid
        },
        None => grid,
    }
}

// -------------------------------------------------------------------- tiles

/// Which tiles of a tileset are written.
#[derive(Clone, Copy, Debug, PartialEq, Eq, Structural)]
pub enum TileChoice {
    /// All that have content.
    WithContent,
    /// The leaves.
    Leaves,
}

/// Which tiles of an explicit tileset are written. With levels of detail for
/// splats, inner tiles have content too.
pub fn choose_tiles(splat_levels: bool) -> (r: TileChoice)
    ensures
        r == (if splat_levels {
            TileChoice::WithContent
        } else {
            TileChoice::Leaves
        }),
{
    if splat_levels {
        TileChoice::WithContent
    } else {
        TileChoice::Leaves
    }
}

/// Whether a tile is passed over: it holds no items and there are no splats.
pub fn skips_tile(items: usize, splats: bool) -> (r: bool)
    ensures
        r == (items == 0 && !splats),
{
    items == 0 && !splats
}

/// The progress that is reported after `done` of `total` tiles, in percent:
/// after every tenth tile and after the last one.
pub fn progress(done: usize, total: usize) -> (r: Option<u128>)
    requires
        total > 0,
    ensures
        r == (if done % 10 == 0 || done == total {
            Some((done * 100 / total as int) as u128)
        } else {
            None
        }),
        r matches Some(percent) ==> percent * total <= done * 100 < (percent + 1) * total,
        r is Some <==> done == total || exists|k: int| done == #[trigger] (10 * k),
{
    proof {
        let q = done * 100 / total as int;
        vstd::arithmetic::div_mod::lemma_fundamental_div_mod(done * 100, total as int);
        vstd::arithmetic::div_mod::lemma_mod_bound(done * 100, total as int);
        assert(total * q == q * total) by (nonlinear_arith);
        assert((q + 1) * total == q * total + total) by (nonlinear_arith);
        if done % 10 == 0 {
            assert(done == 10 * (done as int / 10));
        }
    }
    if done % 10 == 0 || done == total {
        let hundredfold: u128 = done as u128 * 100;
        proof {
            vstd::arithmetic::div_mod::lemma_div_is_ordered_by_denominator(
                hundredfold as int,
                1,
                total as int,
            );
        }
        Some(hundredfold / total as u128)
    } else {
        None
    }
}

/// What a conversion in a process of its own came to.
#[derive(Clone, Copy, Debug, PartialEq, Eq, Structural)]
pub enum Conversion {
    /// The process could not be started.
    NotStarted,
    /// It has ended, or was ended because it took too long, and the output
    /// file exists or does not.
    Ended { output: bool },
}

/// Whether a conversion has failed. The output decides, not how the process
/// ended.
pub fn conversion_failed(conversion: Conversion) -> (r: bool)
    ensures
        r == (conversion != Conversion::Ended { output: true }),
{
    match conversion {
        Conversion::NotStarted => true,
        Conversion::Ended { output } => !output,
    }
}

/// The features of the cells of a tile, one cell after the other: a feature
/// that lies in several cells occurs as often.
pub fn input_features(cells: &[Vec<usize>]) -> (r: Vec<usize>)
    ensures
        r@ == crate::gltf_writer::feature::all_features(cells@),
{
    let mut r: Vec<usize> = Vec::new();
    let n: usize = cells.len();
    let mut c: usize = 0;
    while c < n
        invariant
            c <= n,
            n == cells@.len(),
            r@ == crate::gltf_writer::feature::all_features(cells@.take(c as int)),
        decreases n - c,
    {
        let ghost before = r@;
        let cell = &cells[c];
        let m: usize = cell.len();
        let mut i: usize = 0;
        while i < m
            invariant
                i <= m,
                m == cell@.len(),
                r@ =~= before + cell@.take(i as int),
            decreases m - i,
        {
            r.push(cell[i]);
            i += 1;
        }
        proof {
            assert(cell@.take(m as int) =~= cell@);
            assert(cells@.take(c + 1).drop_last() =~= cells@.take(c as int));
        }
        c += 1;
    }
    assert(cells@.take(n as int) =~= cells@);
    r
}

// ---------------------------------------------------------------- splitting

/// How many levels a tileset may have and still be written as one.
pub const WHOLE_LEVELS: usize = 5;

/// How many tiles a quadtree of some depth has when it is full.
pub open spec fn full_tree(depth: nat) -> nat
    decreases depth,
{
    if depth == 0 {
        0
    } else {
        4 * full_tree((depth - 1) as nat) + 1
    }
}

/// Whether, in a full tree with `levels` levels, the tree above a level has
/// fewer tiles than the trees that begin at it.
pub open spec fn splits_well(levels: nat, level: nat) -> bool {
    level < levels && full_tree(level) < full_tree((levels - level) as nat)
}

/// A deeper full tree has more tiles.
pub proof fn law_deeper_is_larger(a: nat, b: nat)
    requires
        a < b,
    ensures
        full_tree(a) < full_tree(b),
    decreases b,
{
    if a < b - 1 {
        law_deeper_is_larger(a, (b - 1) as nat);
    }
}

/// Three times the tiles of a full tree and one more make a power of four.
pub proof fn law_full_tree_is_geometric(depth: nat)
    ensures
        3 * full_tree(depth) + 1 == vstd::arithmetic::power::pow(4, depth),
    decreases depth,
{
    reveal(vstd::arithmetic::power::pow);
    if depth > 0 {
        law_full_tree_is_geometric((depth - 1) as nat);
    }
}

/// A level splits well if and only if it lies in the upper half.
pub proof fn law_upper_half_splits_well(levels: nat, level: nat)
    ensures
        splits_well(levels, level) <==> 2 * level < levels,
{
    if level < levels {
        let below = (levels - level) as nat;
        if level < below {
            law_deeper_is_larger(level, below);
        } else if below < level {
            law_deeper_is_larger(below, level);
        }
    }
}

/// Where a tileset is split into external tilesets: at the deepest level at
/// which the main tileset is smaller than the ones that it is split into.
/// A tileset with few levels is not split.
pub fn split_level(levels: usize) -> (r: Option<usize>)
    ensures
        match r {
            Some(level) => {
                &&& levels > WHOLE_LEVELS
                &&& splits_well(levels as nat, level as nat)
                &&& forall|other: nat|
                    level < other ==> !#[trigger] splits_well(levels as nat, other)
            },
            None => levels <= WHOLE_LEVELS,
        },
{
    if levels <= WHOLE_LEVELS {
        return None;
    }
    let level: usize = (levels - 1) / 2;
    proof {
        law_upper_half_splits_well(levels as nat, level as nat);
        assert forall|other: nat| level < other implies !#[trigger] splits_well(
            levels as nat,
            other,
        ) by {
            law_upper_half_splits_well(levels as nat, other);
        }
    }
    Some(level)
}

// -------------------------------------------------------------------- laws

/// The digits of a number in decimal spell the number.
proof fn lemma_decimal_spelled(n: nat)
    ensures
        spelled(crate::text::decimal(n)) == n,
    decreases n,
{
    crate::text::law_decimal_digits(n);
    let d = crate::text::decimal(n);
    if n >= 10 {
        lemma_decimal_spelled(n / 10);
    } else {
        assert(d.drop_last() =~= Seq::<char>::empty());
        reveal_with_fuel(spelled, 2);
    }
}

/// What follows the last slash is the last part of an address; without a slash
/// that is the whole.
pub proof fn law_last_segment(before: Seq<char>, last: Seq<char>)
    requires
        !last.contains('/'),
    ensures
        last_segment(last) == last,
        last_segment(before + seq!['/'] + last) == last,
{
    let s = before + seq!['/'] + last;
    assert(last.skip(0) =~= last);
    assert(s.skip(before.len() + 1int) =~= last);
    assert forall|i: int| before.len() + 1 <= i < s.len() implies #[trigger] s[i] != '/' by {
        assert(s[i] == last[i - before.len() - 1]);
    }
    assert forall|i: int| 0 <= i < last.len() implies #[trigger] last[i] != '/' by {}
    lemma_last_segment(s, before.len() + 1int);
    lemma_last_segment(last, 0);
}

/// The code at the end of the address of a reference system is read, with a
/// plus before it or without, whatever comes before the last slash.
pub proof fn law_reference_code_is_read(before: Seq<char>, code: u16)
    ensures
        code_spelled(
            last_segment(before + seq!['/'] + crate::text::decimal(code as nat)),
        ) == Some(code),
        code_spelled(last_segment(crate::text::decimal(code as nat))) == Some(code),
        code_spelled(
            last_segment(before + seq!['/'] + (seq!['+'] + crate::text::decimal(code as nat))),
        ) == Some(code),
{
    let d = crate::text::decimal(code as nat);
    let signed = seq!['+'] + d;
    crate::text::law_decimal_digits(code as nat);
    lemma_decimal_spelled(code as nat);
    assert(!d.contains('/')) by {
        if d.contains('/') {
            let i = choose|i: int| 0 <= i < d.len() && d[i] == '/';
            assert('0' <= d[i]);
        }
    }
    assert(!signed.contains('/')) by {
        if signed.contains('/') {
            let i = choose|i: int| 0 <= i < signed.len() && signed[i] == '/';
            if i > 0 {
                assert('0' <= d[i - 1]);
                assert(signed[i] == d[i - 1]);
            }
        }
    }
    law_last_segment(before, d);
    law_last_segment(before, signed);
    assert(signed.skip(1) =~= d);
    assert('0' <= d[0]);
    assert(unsigned_part(d) == d);
    assert(unsigned_part(signed) == d);
    assert forall|i: int| 0 <= i < d.len() implies is_decimal(#[trigger] d[i]) by {
        assert('0' <= d[i] <= '9');
    }
}

/// A text with anything but digits after its sign gives no code.
pub proof fn law_other_texts_give_no_code(s: Seq<char>, i: int)
    requires
        0 <= i < s.len(),
        !('0' <= s[i] <= '9'),
        i > 0 || s[0] != '+' || s.len() == 1,
    ensures
        code_spelled(s) is None,
{
    let digits = unsigned_part(s);
    if s[0] == '+' {
        if i > 0 {
            assert(digits[i - 1] == s[i]);
            assert(!is_decimal(digits[i - 1]));
        }
    } else {
        assert(!is_decimal(digits[i]));
    }
}

} // verus!
