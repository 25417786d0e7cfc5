//! The data of a tile as bytes, and the pieces that it is laid out in.

use crate::bytes::{push_all, push_u16_le, push_u32_le};
use crate::float_bits::{F32_NAN, F32_ONE};
use crate::gltf_writer::attributes::{
    infer_schema, Attr, AttrType, AttrValue, AttributeSet, Column,
};
use crate::gltf_writer::layout::{BinWriter, Laid, Piece, PieceUse};
use crate::gltf_writer::mesh::{MeshBuilder, SplatVertex, TilesVersion, Vec3, Vec4};
use vstd::prelude::*;

verus! {

broadcast use crate::bytes::lemma_le_bytes_len;

// ------------------------------------------------------------ number lists

/// Four bytes for a word, least significant first.
pub open spec fn word(n: u32) -> Seq<u8> {
    crate::bytes::le_bytes(n as nat, 4)
}

/// A list of words.
pub open spec fn words(s: Seq<u32>) -> Seq<u8>
    decreases s.len(),
{
    if s.len() == 0 {
        Seq::empty()
    } else {
        words(s.drop_last()) + word(s.last())
    }
}

/// A list of three numbers each.
pub open spec fn triples(s: Seq<Vec3>) -> Seq<u8>
    decreases s.len(),
{
    if s.len() == 0 {
        Seq::empty()
    } else {
        triples(s.drop_last()) + word(s.last().x) + word(s.last().y) + word(s.last().z)
    }
}

/// A list of four numbers each.
pub open spec fn quadruples(s: Seq<Vec4>) -> Seq<u8>
    decreases s.len(),
{
    if s.len() == 0 {
        Seq::empty()
    } else {
        quadruples(s.drop_last()) + word(s.last().x) + word(s.last().y) + word(s.last().z) + word(
            s.last().w,
        )
    }
}

/// A list of 16-bit numbers, the low halves of words, each followed by two
/// zeros.
pub open spec fn spaced_halves(s: Seq<u32>) -> Seq<u8>
    decreases s.len(),
{
    if s.len() == 0 {
        Seq::empty()
    } else {
        spaced_halves(s.drop_last()) + crate::bytes::le_bytes(
            (s.last() % 0x1_0000) as nat,
            2,
        ) + seq![0u8, 0u8]
    }
}

/// The sizes of the lists.
pub proof fn lemma_sizes(a: Seq<u32>, b: Seq<Vec3>, c: Seq<Vec4>)
    ensures
        words(a).len() == 4 * a.len(),
        spaced_halves(a).len() == 4 * a.len(),
        triples(b).len() == 12 * b.len(),
        quadruples(c).len() == 16 * c.len(),
    decreases a.len() + b.len() + c.len(),
{
    if a.len() > 0 {
        lemma_sizes(a.drop_last(), b, c);
    }
    if b.len() > 0 {
        lemma_sizes(a, b.drop_last(), c);
    }
    if c.len() > 0 {
        lemma_sizes(a, b, c.drop_last());
    }
}

pub(crate) fn words_bytes(s: &[u32]) -> (out: Vec<u8>)
    ensures
        out@ == words(s@),
{
    let mut out: Vec<u8> = Vec::new();
    let n: usize = s.len();
    let mut i: usize = 0;
    while i < n
        invariant
            i <= n,
            n == s@.len(),
            out@ == words(s@.take(i as int)),
        decreases n - i,
    {
        proof {
            assert(s@.take(i + 1).drop_last() =~= s@.take(i as int));
        }
        push_u32_le(&mut out, s[i]);
        i += 1;
    }
    assert(s@.take(n as int) =~= s@);
    out
}

pub(crate) fn triples_bytes(s: &[Vec3]) -> (out: Vec<u8>)
    ensures
        out@ == triples(s@),
{
    let mut out: Vec<u8> = Vec::new();
    let n: usize = s.len();
    let mut i: usize = 0;
    while i < n
        invariant
            i <= n,
            n == s@.len(),
            out@ == triples(s@.take(i as int)),
        decreases n - i,
    {
        proof {
            assert(s@.take(i + 1).drop_last() =~= s@.take(i as int));
        }
        push_u32_le(&mut out, s[i].x);
        push_u32_le(&mut out, s[i].y);
        push_u32_le(&mut out, s[i].z);
        i += 1;
    }
    assert(s@.take(n as int) =~= s@);
    out
}

pub(crate) fn quadruples_bytes(s: &[Vec4]) -> (out: Vec<u8>)
    ensures
        out@ == quadruples(s@),
{
    let mut out: Vec<u8> = Vec::new();
    let n: usize = s.len();
    let mut i: usize = 0;
    while i < n
        invariant
            i <= n,
            n == s@.len(),
            out@ == quadruples(s@.take(i as int)),
        decreases n - i,
    {
        proof {
            assert(s@.take(i + 1).drop_last() =~= s@.take(i as int));
        }
        push_u32_le(&mut out, s[i].x);
        push_u32_le(&mut out, s[i].y);
        push_u32_le(&mut out, s[i].z);
        push_u32_le(&mut out, s[i].w);
        i += 1;
    }
    assert(s@.take(n as int) =~= s@);
    out
}

pub(crate) fn spaced_halves_bytes(s: &[u32]) -> (out: Vec<u8>)
    ensures
        out@ == spaced_halves(s@),
{
    let mut out: Vec<u8> = Vec::new();
    let n: usize = s.len();
    let mut i: usize = 0;
    while i < n
        invariant
            i <= n,
            n == s@.len(),
            out@ == spaced_halves(s@.take(i as int)),
        decreases n - i,
    {
        proof {
            assert(s@.take(i + 1).drop_last() =~= s@.take(i as int));
        }
        let ghost before = out@;
        push_u16_le(&mut out, (s[i] % 0x1_0000) as u16);
        out.push(0);
        out.push(0);
        assert(out@ =~= before + crate::bytes::le_bytes((s@[i as int] % 0x1_0000) as nat, 2)
            + seq![0u8, 0u8]);
        i += 1;
    }
    assert(s@.take(n as int) =~= s@);
    out
}

/// The 16-bit number that is written for a vertex tells the row of its surface
/// where there are at most 65535 rows. A vertex without a row has the number
/// 65535, which is that of no row.
pub proof fn law_written_numbers_tell_rows(ids: Seq<u32>, rows: u32, i: int)
    requires
        0 <= i < ids.len(),
        rows <= 65535,
        ids[i] < rows || ids[i] == crate::gltf_writer::feature::NO_ROW,
    ensures
        4 * i + 2 <= spaced_halves(ids).len(),
        crate::bytes::le_value(spaced_halves(ids).subrange(4 * i, 4 * i + 2)) == (if ids[i]
            == crate::gltf_writer::feature::NO_ROW {
            65535
        } else {
            ids[i] as int
        }),
        ids[i] < rows ==> crate::bytes::le_value(
            spaced_halves(ids).subrange(4 * i, 4 * i + 2),
        ) != 65535,
    decreases ids.len(),
{
    let head = ids.drop_last();
    let before = spaced_halves(head);
    lemma_sizes(head, Seq::empty(), Seq::empty());
    lemma_sizes(ids, Seq::empty(), Seq::empty());
    if i < head.len() {
        law_written_numbers_tell_rows(head, rows, i);
        assert(spaced_halves(ids).subrange(4 * i, 4 * i + 2) =~= before.subrange(
            4 * i,
            4 * i + 2,
        ));
    } else {
        let low = (ids[i] % 0x1_0000) as nat;
        reveal_with_fuel(crate::bytes::byte_range, 3);
        crate::bytes::lemma_le_round_trip(low, 2);
        assert(spaced_halves(ids).subrange(4 * i, 4 * i + 2) =~= crate::bytes::le_bytes(low, 2));
    }
}

/// Bytes that stand in a longer list spell the same number there.
pub(crate) proof fn lemma_spelled_within(s: Seq<u8>, part: Seq<u8>, start: int, at: int, n: int)
    requires
        0 <= start,
        start + part.len() <= s.len(),
        s.subrange(start, start + part.len()) == part,
        crate::bytes::spells_word(part, at, n),
    ensures
        crate::bytes::spells_word(s, start + at, n),
{
    let own = s.subrange(start, start + part.len());
    assert(own[at] == s[start + at]);
    assert(own[at + 1] == s[start + at + 1]);
    assert(own[at + 2] == s[start + at + 2]);
    assert(own[at + 3] == s[start + at + 3]);
}

/// In a list of words, word `i` takes up the four bytes from `4 * i` on.
pub proof fn law_words_are_spelled(s: Seq<u32>, i: int)
    requires
        0 <= i < s.len(),
    ensures
        words(s).len() == 4 * s.len(),
        crate::bytes::spells_word(words(s), 4 * i, s[i] as int),
    decreases s.len(),
{
    let head = s.drop_last();
    let before = words(head);
    lemma_sizes(head, Seq::empty(), Seq::empty());
    lemma_sizes(s, Seq::empty(), Seq::empty());
    if i < head.len() {
        law_words_are_spelled(head, i);
        assert(words(s).subrange(0, before.len() as int) =~= before);
        lemma_spelled_within(words(s), before, 0, 4 * i, s[i] as int);
    } else {
        let own = word(s.last());
        crate::bytes::law_word_is_spelled(s.last());
        assert(words(s).subrange(before.len() as int, before.len() as int + own.len()) =~= own);
        lemma_spelled_within(words(s), own, before.len() as int, 0, s[i] as int);
    }
}

/// In a list of triples, coordinate `k` of element `i` takes up the four bytes
/// from `12 * i + 4 * k` on.
pub proof fn law_triples_are_spelled(s: Seq<Vec3>, i: int)
    requires
        0 <= i < s.len(),
    ensures
        triples(s).len() == 12 * s.len(),
        crate::bytes::spells_word(triples(s), 12 * i, s[i].x as int),
        crate::bytes::spells_word(triples(s), 12 * i + 4, s[i].y as int),
        crate::bytes::spells_word(triples(s), 12 * i + 8, s[i].z as int),
    decreases s.len(),
{
    let head = s.drop_last();
    let last = s.last();
    let before = triples(head);
    let all = triples(s);
    lemma_sizes(Seq::empty(), head, Seq::empty());
    lemma_sizes(Seq::empty(), s, Seq::empty());
    if i < head.len() {
        law_triples_are_spelled(head, i);
        assert(all.subrange(0, before.len() as int) =~= before);
        lemma_spelled_within(all, before, 0, 12 * i, s[i].x as int);
        lemma_spelled_within(all, before, 0, 12 * i + 4, s[i].y as int);
        lemma_spelled_within(all, before, 0, 12 * i + 8, s[i].z as int);
    } else {
        let at = before.len() as int;
        crate::bytes::law_word_is_spelled(last.x);
        crate::bytes::law_word_is_spelled(last.y);
        crate::bytes::law_word_is_spelled(last.z);
        assert(all.subrange(at, at + word(last.x).len()) =~= word(last.x));
        assert(all.subrange(at + 4, at + 4 + word(last.y).len()) =~= word(last.y));
        assert(all.subrange(at + 8, at + 8 + word(last.z).len()) =~= word(last.z));
        lemma_spelled_within(all, word(last.x), at, 0, s[i].x as int);
        lemma_spelled_within(all, word(last.y), at + 4, 0, s[i].y as int);
        lemma_spelled_within(all, word(last.z), at + 8, 0, s[i].z as int);
    }
}

/// In a list of quadruples, number `k` of element `i` takes up the four bytes
/// from `16 * i + 4 * k` on.
pub proof fn law_quadruples_are_spelled(s: Seq<Vec4>, i: int)
    requires
        0 <= i < s.len(),
    ensures
        quadruples(s).len() == 16 * s.len(),
        crate::bytes::spells_word(quadruples(s), 16 * i, s[i].x as int),
        crate::bytes::spells_word(quadruples(s), 16 * i + 4, s[i].y as int),
        crate::bytes::spells_word(quadruples(s), 16 * i + 8, s[i].z as int),
        crate::bytes::spells_word(quadruples(s), 16 * i + 12, s[i].w as int),
    decreases s.len(),
{
    let head = s.drop_last();
    let last = s.last();
    let before = quadruples(head);
    let all = quadruples(s);
    lemma_sizes(Seq::empty(), Seq::empty(), head);
    lemma_sizes(Seq::empty(), Seq::empty(), s);
    if i < head.len() {
        law_quadruples_are_spelled(head, i);
        assert(all.subrange(0, before.len() as int) =~= before);
        lemma_spelled_within(all, before, 0, 16 * i, s[i].x as int);
        lemma_spelled_within(all, before, 0, 16 * i + 4, s[i].y as int);
        lemma_spelled_within(all, before, 0, 16 * i + 8, s[i].z as int);
        lemma_spelled_within(all, before, 0, 16 * i + 12, s[i].w as int);
    } else {
        let at = before.len() as int;
        let own = word(last.x) + word(last.y) + word(last.z) + word(last.w);
        lemma_four_words(last);
        assert(all =~= before + own);
        assert(all.subrange(at, at + own.len()) =~= own);
        lemma_spelled_within(all, own, at, 0, s[i].x as int);
        lemma_spelled_within(all, own, at, 4, s[i].y as int);
        lemma_spelled_within(all, own, at, 8, s[i].z as int);
        lemma_spelled_within(all, own, at, 12, s[i].w as int);
    }
}

proof fn lemma_four_words(v: Vec4)
    ensures
        ({
            let own = word(v.x) + word(v.y) + word(v.z) + word(v.w);
            &&& own.len() == 16
            &&& crate::bytes::spells_word(own, 0, v.x as int)
            &&& crate::bytes::spells_word(own, 4, v.y as int)
            &&& crate::bytes::spells_word(own, 8, v.z as int)
            &&& crate::bytes::spells_word(own, 12, v.w as int)
        }),
{
    crate::bytes::law_word_is_spelled(v.x);
    crate::bytes::law_word_is_spelled(v.y);
    crate::bytes::law_word_is_spelled(v.z);
    crate::bytes::law_word_is_spelled(v.w);
}

/// In a list of 16-bit numbers, number `i` takes up the two bytes from `4 * i`
/// on, and two zeros follow. It is what is left of the word modulo `2^16`.
pub proof fn law_halves_are_spelled(s: Seq<u32>, i: int)
    requires
        0 <= i < s.len(),
    ensures
        spaced_halves(s).len() == 4 * s.len(),
        crate::bytes::spells_word(spaced_halves(s), 4 * i, s[i] as int % 0x1_0000),
    decreases s.len(),
{
    let head = s.drop_last();
    let before = spaced_halves(head);
    let all = spaced_halves(s);
    lemma_sizes(head, Seq::empty(), Seq::empty());
    lemma_sizes(s, Seq::empty(), Seq::empty());
    if i < head.len() {
        law_halves_are_spelled(head, i);
        assert(all.subrange(0, before.len() as int) =~= before);
        lemma_spelled_within(all, before, 0, 4 * i, s[i] as int % 0x1_0000);
    } else {
        let low = (s.last() % 0x1_0000) as nat;
        let own = crate::bytes::le_bytes(low, 2);
        reveal_with_fuel(crate::bytes::byte_range, 3);
        crate::bytes::lemma_le_round_trip(low, 2);
        crate::bytes::law_bytes_have_weights(own);
        assert(all[4 * i] == own[0]);
        assert(all[4 * i + 1] == own[1]);
        assert(all[4 * i + 2] == 0);
        assert(all[4 * i + 3] == 0);
    }
}

/// The bytes of a list tell the list: lists of words, of triples or of
/// quadruples with the same bytes are the same.
pub proof fn law_bytes_tell_the_list(
    a: Seq<u32>,
    b: Seq<u32>,
    c: Seq<Vec3>,
    d: Seq<Vec3>,
    e: Seq<Vec4>,
    f: Seq<Vec4>,
)
    ensures
        words(a) == words(b) ==> a == b,
        triples(c) == triples(d) ==> c == d,
        quadruples(e) == quadruples(f) ==> e == f,
{
    lemma_sizes(a, c, e);
    lemma_sizes(b, d, f);
    if words(a) == words(b) {
        assert forall|i: int| 0 <= i < a.len() implies a[i] == b[i] by {
            law_words_are_spelled(a, i);
            law_words_are_spelled(b, i);
        }
        assert(a =~= b);
    }
    if triples(c) == triples(d) {
        assert forall|i: int| 0 <= i < c.len() implies c[i] == d[i] by {
            law_triples_are_spelled(c, i);
            law_triples_are_spelled(d, i);
        }
        assert(c =~= d);
    }
    if quadruples(e) == quadruples(f) {
        assert forall|i: int| 0 <= i < e.len() implies e[i] == f[i] by {
            law_quadruples_are_spelled(e, i);
            law_quadruples_are_spelled(f, i);
        }
        assert(e =~= f);
    }
}

// ----------------------------------------------------------- string tables

/// The characters of a list of texts, each ended by a zero.
pub open spec fn table_data(texts: Seq<Seq<char>>) -> Seq<u8>
    decreases texts.len(),
{
    if texts.len() == 0 {
        Seq::empty()
    } else {
        table_data(texts.drop_last()) + vstd::utf8::encode_utf8(texts.last()) + seq![0u8]
    }
}

/// Where each text begins in the data, and where the data ends.
pub open spec fn table_offsets(texts: Seq<Seq<char>>) -> Seq<u32> {
    Seq::new(texts.len() + 1, |i: int| table_data(texts.take(i)).len() as u32)
}

/// Whether the offsets fit in words.
pub open spec fn table_fits(texts: Seq<Seq<char>>) -> bool {
    table_data(texts).len() <= u32::MAX
}

/// The pieces of a string table.
pub open spec fn table_pieces(texts: Seq<Seq<char>>) -> Seq<Piece> {
    seq![
        Piece { bytes: table_data(texts), unit: 1, purpose: PieceUse::Table },
        Piece { bytes: words(table_offsets(texts)), unit: 4, purpose: PieceUse::Table },
    ]
}

/// The data of some of the texts is no longer than that of all.
proof fn lemma_table_grows(texts: Seq<Seq<char>>, n: int)
    requires
        0 <= n <= texts.len(),
    ensures
        table_data(texts.take(n)).len() <= table_data(texts).len(),
    decreases texts.len(),
{
    if n == texts.len() {
        assert(texts.take(n) =~= texts);
    } else {
        assert(texts.drop_last().take(n) =~= texts.take(n));
        lemma_table_grows(texts.drop_last(), n);
    }
}

/// A text can be read back from a string table: between its offset and the
/// next lie its characters and the zero.
pub proof fn law_table_gives_back_its_texts(texts: Seq<Seq<char>>, i: int)
    requires
        table_fits(texts),
        0 <= i < texts.len(),
    ensures
        table_offsets(texts)[i] <= table_offsets(texts)[i + 1] <= table_data(texts).len(),
        table_data(texts).subrange(
            table_offsets(texts)[i] as int,
            table_offsets(texts)[i + 1] as int,
        ) == vstd::utf8::encode_utf8(texts[i]) + seq![0u8],
    decreases texts.len(),
{
    lemma_table_grows(texts, i);
    lemma_table_grows(texts, i + 1);
    assert(texts.take(i + 1).drop_last() =~= texts.take(i));
    assert(texts.take(i + 1).last() == texts[i]);
    let own = vstd::utf8::encode_utf8(texts[i]) + seq![0u8];
    let start = table_data(texts.take(i)).len() as int;
    let end = table_data(texts.take(i + 1)).len() as int;
    assert(table_data(texts.take(i + 1)) =~= table_data(texts.take(i)) + own);
    if i + 1 == texts.len() {
        assert(texts.take(i + 1) =~= texts);
        assert(table_data(texts).subrange(start, end) =~= own);
    } else {
        let rest = texts.drop_last();
        lemma_table_grows(texts, rest.len() as int);
        assert(texts.take(rest.len() as int) =~= rest);
        law_table_gives_back_its_texts(rest, i);
        assert(rest.take(i) =~= texts.take(i));
        assert(rest.take(i + 1) =~= texts.take(i + 1));
        lemma_table_grows(rest, i + 1);
        assert(table_data(texts).subrange(start, end) =~= table_data(rest).subrange(start, end));
    }
}

/// A string table that is being filled.
struct StringTable {
    data: Vec<u8>,
    offsets: Vec<u32>,
    texts: Ghost<Seq<Seq<char>>>,
}

impl StringTable {
    spec fn wf(self) -> bool {
        &&& self.data@ == table_data(self.texts@)
        &&& self.offsets@ == table_offsets(self.texts@)
        &&& table_fits(self.texts@)
    }

    fn new() -> (r: StringTable)
        ensures
            r.wf(),
            r.texts@ == Seq::<Seq<char>>::empty(),
    {
        let offsets: Vec<u32> = vec![0];
        let r = StringTable { data: Vec::new(), offsets, texts: Ghost(Seq::empty()) };
        assert(r.texts@.take(0) =~= r.texts@);
        assert(r.offsets@ =~= table_offsets(r.texts@));
        r
    }

    /// Adds a text, unless the data would grow too large.
    fn add(&mut self, text: &str) -> (fits: bool)
        requires
            old(self).wf(),
        ensures
            fits == table_fits(old(self).texts@.push(text@)),
            fits ==> final(self).wf() && final(self).texts@ == old(self).texts@.push(text@),
    {
        let bytes = text.as_bytes();
        let ghost before = self.texts@;
        let ghost now = before.push(text@);
        proof {
            assert(now.drop_last() =~= before);
        }
        let room: u32 = u32::MAX - self.data.len() as u32;
        if bytes.len() >= room as usize {
            return false;
        }
        push_all(&mut self.data, bytes);
        self.data.push(0);
        self.offsets.push(self.data.len() as u32);
        self.texts = Ghost(now);
        proof {
            assert(self.data@ =~= table_data(now));
            assert forall|i: int| 0 <= i < self.offsets@.len() implies self.offsets@[i]
                == table_offsets(now)[i] by {
                if i < before.len() + 1 {
                    assert(before.take(i) =~= now.take(i));
                } else {
                    assert(now.take(i) =~= now);
                }
            }
            assert(self.offsets@ =~= table_offsets(now));
        }
        true
    }

    /// Lays the table out.
    fn write(self, w: &mut BinWriter)
        requires
            self.wf(),
        ensures
            final(w)@ == crate::gltf_writer::layout::lay_all(
                old(w)@,
                table_pieces(self.texts@),
            ),
    {
        let ghost l = w@;
        let offsets = words_bytes(self.offsets.as_slice());
        w.add(self.data, 1, PieceUse::Table);
        w.add(offsets, 4, PieceUse::Table);
        proof {
            lemma_two_pieces(l, table_pieces(self.texts@));
        }
    }
}

proof fn lemma_two_pieces(l: Laid, pieces: Seq<Piece>)
    requires
        pieces.len() == 2,
    ensures
        crate::gltf_writer::layout::lay_all(l, pieces) == crate::gltf_writer::layout::lay(
            crate::gltf_writer::layout::lay(l, pieces[0]),
            pieces[1],
        ),
{
    reveal_with_fuel(crate::gltf_writer::layout::lay_all, 3);
}

/// Lays out a table of texts, unless it is too large.
fn write_texts(w: &mut BinWriter, texts: &[String]) -> (fits: bool)
    ensures
        fits == table_fits(crate::json::texts_of(texts@)),
        fits ==> final(w)@ == crate::gltf_writer::layout::lay_all(
            old(w)@,
            table_pieces(crate::json::texts_of(texts@)),
        ),
{
    let ghost all = crate::json::texts_of(texts@);
    let mut table = StringTable::new();
    let n: usize = texts.len();
    let mut i: usize = 0;
    assert(all.take(0) =~= Seq::<Seq<char>>::empty());
    while i < n
        invariant
            i <= n,
            n == texts@.len(),
            all == crate::json::texts_of(texts@),
            table.wf(),
            table.texts@ == all.take(i as int),
        decreases n - i,
    {
        proof {
            assert(all.take(i + 1) =~= all.take(i as int).push(texts@[i as int]@));
            lemma_table_grows(all, i + 1);
        }
        if !table.add(texts[i].as_str()) {
            return false;
        }
        i += 1;
    }
    assert(all.take(n as int) =~= all);
    table.write(w);
    true
}

// ----------------------------------------------------------------- columns

/// The text of a row in a column of texts; nothing where it has none.
pub open spec fn text_in(row: Map<Seq<char>, Attr>, name: Seq<char>) -> Seq<char> {
    if row.contains_key(name) {
        match row[name] {
            Attr::Text(s) => s,
            _ => Seq::empty(),
        }
    } else {
        Seq::empty()
    }
}

/// The number of a row in a column of single precision numbers; NaN where it
/// has none.
pub open spec fn single_in(row: Map<Seq<char>, Attr>, name: Seq<char>) -> u32 {
    if row.contains_key(name) {
        match row[name] {
            Attr::Integer { single, .. } => single,
            Attr::Real { single } => single,
            _ => F32_NAN,
        }
    } else {
        F32_NAN
    }
}

/// The number of a row in a column of whole numbers, as a 32-bit pattern; the
/// smallest number where it has none. A number that needs more bits loses the
/// high ones.
pub open spec fn integer_in(row: Map<Seq<char>, Attr>, name: Seq<char>) -> u32 {
    if row.contains_key(name) {
        match row[name] {
            Attr::Integer { value: Some(v), .. } => (v as int % 0x1_0000_0000) as u32,
            _ => 0x8000_0000,
        }
    } else {
        0x8000_0000
    }
}

/// The flag of a row in a column of flags: 1, 0, or 255 where it has none.
pub open spec fn flag_in(row: Map<Seq<char>, Attr>, name: Seq<char>) -> u8 {
    if row.contains_key(name) {
        match row[name] {
            Attr::Flag(b) => if b {
                1
            } else {
                0
            },
            _ => 255,
        }
    } else {
        255
    }
}

/// The texts of a column.
pub open spec fn column_texts(rows: Seq<Map<Seq<char>, Attr>>, name: Seq<char>) -> Seq<Seq<char>> {
    Seq::new(rows.len(), |i: int| text_in(rows[i], name))
}

/// The single precision numbers of a column.
pub open spec fn column_singles(rows: Seq<Map<Seq<char>, Attr>>, name: Seq<char>) -> Seq<u32> {
    Seq::new(rows.len(), |i: int| single_in(rows[i], name))
}

/// The whole numbers of a column.
pub open spec fn column_integers(rows: Seq<Map<Seq<char>, Attr>>, name: Seq<char>) -> Seq<u32> {
    Seq::new(rows.len(), |i: int| integer_in(rows[i], name))
}

/// The flags of a column.
pub open spec fn column_flags(rows: Seq<Map<Seq<char>, Attr>>, name: Seq<char>) -> Seq<u8> {
    Seq::new(rows.len(), |i: int| flag_in(rows[i], name))
}

/// The pieces of a column.
pub open spec fn column_pieces(
    rows: Seq<Map<Seq<char>, Attr>>,
    column: (Seq<char>, AttrType),
) -> Seq<Piece> {
    match column.1 {
        AttrType::String => table_pieces(column_texts(rows, column.0)),
        AttrType::Float32 => seq![
            Piece {
                bytes: words(column_singles(rows, column.0)),
                unit: 4,
                purpose: PieceUse::Table,
            },
        ],
        AttrType::Int32 => seq![
            Piece {
                bytes: words(column_integers(rows, column.0)),
                unit: 4,
                purpose: PieceUse::Table,
            },
        ],
        AttrType::Boolean => seq![
            Piece { bytes: column_flags(rows, column.0), unit: 1, purpose: PieceUse::Table },
            Piece { bytes: Seq::empty(), unit: 4, purpose: PieceUse::Alignment },
        ],
    }
}

/// The pieces of some columns.
pub open spec fn columns_pieces(
    rows: Seq<Map<Seq<char>, Attr>>,
    columns: Seq<(Seq<char>, AttrType)>,
) -> Seq<Piece>
    decreases columns.len(),
{
    if columns.len() == 0 {
        Seq::empty()
    } else {
        columns_pieces(rows, columns.drop_last()) + column_pieces(rows, columns.last())
    }
}

/// Whether the offsets of every column of texts fit in words.
pub open spec fn columns_fit(
    rows: Seq<Map<Seq<char>, Attr>>,
    columns: Seq<(Seq<char>, AttrType)>,
) -> bool {
    forall|i: int|
        0 <= i < columns.len() && (#[trigger] columns[i]).1 == AttrType::String ==> table_fits(
            column_texts(rows, columns[i].0),
        )
}

/// The low 32 bits of a number in two's complement.
fn low_word(v: i64) -> (r: u32)
    ensures
        r == v as int % 0x1_0000_0000,
{
    let shifted: u128 = (v as i128 + 0x8000_0000_0000_0000) as u128;
    (shifted % 0x1_0000_0000) as u32
}

/// The value of a row in the column of a name.
fn row_value<'a>(
    sets: &'a [AttributeSet],
    rows: &[Option<usize>],
    i: usize,
    name: &str,
) -> (r: Option<&'a AttrValue>)
    requires
        crate::gltf_writer::attributes::rows_wf(sets@, rows@),
        i < rows@.len(),
    ensures
        ({
            let row = crate::gltf_writer::attributes::row_maps(sets@, rows@)[i as int];
            match r {
                Some(value) => row.contains_key(name@) && row[name@] == value@,
                None => !row.contains_key(name@),
            }
        }),
{
    match rows[i] {
        Some(k) => {
            assert(rows@[i as int] matches Some(k) ==> k < sets@.len());
            sets[k].get(name)
        },
        None => None,
    }
}

/// Lays out a column, unless its texts are too large.
fn write_column(
    w: &mut BinWriter,
    sets: &[AttributeSet],
    rows: &[Option<usize>],
    column: &Column,
) -> (fits: bool)
    requires
        crate::gltf_writer::attributes::rows_wf(sets@, rows@),
    ensures
        ({
            let maps = crate::gltf_writer::attributes::row_maps(sets@, rows@);
            &&& fits == (column@.1 == AttrType::String ==> table_fits(
                column_texts(maps, column@.0),
            ))
            &&& fits ==> final(w)@ == crate::gltf_writer::layout::lay_all(
                old(w)@,
                column_pieces(maps, column@),
            )
        }),
{
    let ghost maps = crate::gltf_writer::attributes::row_maps(sets@, rows@);
    let ghost l = w@;
    let name = column.name();
    let n: usize = rows.len();
    let mut i: usize = 0;
    match column.kind() {
        AttrType::String => {
            let ghost all = column_texts(maps, name@);
            let mut table = StringTable::new();
            assert(all.take(0) =~= Seq::<Seq<char>>::empty());
            while i < n
                invariant
                    i <= n,
                    n == rows@.len(),
                    crate::gltf_writer::attributes::rows_wf(sets@, rows@),
                    maps == crate::gltf_writer::attributes::row_maps(sets@, rows@),
                    all == column_texts(maps, name@),
                    column@ == (name@, AttrType::String),
                    table.wf(),
                    table.texts@ == all.take(i as int),
                decreases n - i,
            {
                let ghost text = text_in(maps[i as int], name@);
                proof {
                    assert(all.take(i + 1) =~= all.take(i as int).push(text));
                    lemma_table_grows(all, i + 1);
                }
                let fits = match row_value(sets, rows, i, name) {
                    Some(AttrValue::Text(s)) => table.add(s.as_str()),
                    _ => {
                        proof {
                            reveal_strlit("");
                            assert(""@ =~= Seq::<char>::empty());
                        }
                        table.add("")
                    },
                };
                if !fits {
                    return false;
                }
                i += 1;
            }
            assert(all.take(n as int) =~= all);
            table.write(w);
            true
        },
        AttrType::Float32 => {
            let mut data: Vec<u8> = Vec::new();
            let ghost all = column_singles(maps, name@);
            while i < n
                invariant
                    i <= n,
                    n == rows@.len(),
                    crate::gltf_writer::attributes::rows_wf(sets@, rows@),
                    maps == crate::gltf_writer::attributes::row_maps(sets@, rows@),
                    all == column_singles(maps, name@),
                    data@ == words(all.take(i as int)),
                decreases n - i,
            {
                let single: u32 = match row_value(sets, rows, i, name) {
                    Some(AttrValue::Integer { single, .. }) => *single,
                    Some(AttrValue::Real { single }) => *single,
                    _ => F32_NAN,
                };
                proof {
                    assert(all.take(i + 1).drop_last() =~= all.take(i as int));
                    assert(all.take(i + 1).last() == single);
                }
                push_u32_le(&mut data, single);
                i += 1;
            }
            assert(all.take(n as int) =~= all);
            w.add(data, 4, PieceUse::Table);
            proof {
                lemma_one_piece(l, column_pieces(maps, column@));
            }
            true
        },
        AttrType::Int32 => {
            let mut data: Vec<u8> = Vec::new();
            let ghost all = column_integers(maps, name@);
            while i < n
                invariant
                    i <= n,
                    n == rows@.len(),
                    crate::gltf_writer::attributes::rows_wf(sets@, rows@),
                    maps == crate::gltf_writer::attributes::row_maps(sets@, rows@),
                    all == column_integers(maps, name@),
                    data@ == words(all.take(i as int)),
                decreases n - i,
            {
                let pattern: u32 = match row_value(sets, rows, i, name) {
                    Some(AttrValue::Integer { value: Some(v), .. }) => low_word(*v),
                    _ => 0x8000_0000,
                };
                proof {
                    assert(all.take(i + 1).drop_last() =~= all.take(i as int));
                    assert(all.take(i + 1).last() == pattern);
                }
                push_u32_le(&mut data, pattern);
                i += 1;
            }
            assert(all.take(n as int) =~= all);
            w.add(data, 4, PieceUse::Table);
            proof {
                lemma_one_piece(l, column_pieces(maps, column@));
            }
            true
        },
        AttrType::Boolean => {
            let mut data: Vec<u8> = Vec::new();
            let ghost all = column_flags(maps, name@);
            while i < n
                invariant
                    i <= n,
                    n == rows@.len(),
                    crate::gltf_writer::attributes::rows_wf(sets@, rows@),
                    maps == crate::gltf_writer::attributes::row_maps(sets@, rows@),
                    all == column_flags(maps, name@),
                    data@ == all.take(i as int),
                decreases n - i,
            {
                let flag: u8 = match row_value(sets, rows, i, name) {
                    Some(AttrValue::Flag(b)) => if *b {
                        1
                    } else {
                        0
                    },
                    _ => 255,
                };
                proof {
                    assert(all.take(i + 1) =~= all.take(i as int).push(flag));
                }
                data.push(flag);
                i += 1;
            }
            assert(all.take(n as int) =~= all);
            w.add(data, 1, PieceUse::Table);
            let none: Vec<u8> = Vec::new();
            assert(none@ =~= Seq::<u8>::empty());
            w.add(none, 4, PieceUse::Alignment);
            proof {
                lemma_two_pieces(l, column_pieces(maps, column@));
            }
            true
        },
    }
}

proof fn lemma_one_piece(l: Laid, pieces: Seq<Piece>)
    requires
        pieces.len() == 1,
    ensures
        crate::gltf_writer::layout::lay_all(l, pieces) == crate::gltf_writer::layout::lay(
            l,
            pieces[0],
        ),
{
    reveal_with_fuel(crate::gltf_writer::layout::lay_all, 2);
}

/// Lays out the columns, unless some texts are too large.
fn write_columns(
    w: &mut BinWriter,
    sets: &[AttributeSet],
    rows: &[Option<usize>],
    columns: &[Column],
) -> (fits: bool)
    requires
        crate::gltf_writer::attributes::rows_wf(sets@, rows@),
    ensures
        ({
            let maps = crate::gltf_writer::attributes::row_maps(sets@, rows@);
            let list = crate::gltf_writer::attributes::columns_of(columns@);
            &&& fits == columns_fit(maps, list)
            &&& fits ==> final(w)@ == crate::gltf_writer::layout::lay_all(
                old(w)@,
                columns_pieces(maps, list),
            )
        }),
{
    let ghost maps = crate::gltf_writer::attributes::row_maps(sets@, rows@);
    let ghost list = crate::gltf_writer::attributes::columns_of(columns@);
    let ghost l = w@;
    let n: usize = columns.len();
    let mut i: usize = 0;
    while i < n
        invariant
            i <= n,
            n == columns@.len(),
            crate::gltf_writer::attributes::rows_wf(sets@, rows@),
            maps == crate::gltf_writer::attributes::row_maps(sets@, rows@),
            list == crate::gltf_writer::attributes::columns_of(columns@),
            columns_fit(maps, list.take(i as int)),
            w@ == crate::gltf_writer::layout::lay_all(
                l,
                columns_pieces(maps, list.take(i as int)),
            ),
        decreases n - i,
    {
        let ghost before = columns_pieces(maps, list.take(i as int));
        proof {
            assert(list[i as int] == columns@[i as int]@);
            assert(list.take(i + 1).drop_last() =~= list.take(i as int));
            assert(list.take(i + 1).last() == list[i as int]);
            crate::gltf_writer::layout::lemma_lay_all_add(
                l,
                before,
                column_pieces(maps, list[i as int]),
            );
        }
        if !write_column(w, sets, rows, &columns[i]) {
            return false;
        }
        proof {
            assert forall|k: int|
                0 <= k < i + 1 && (#[trigger] list.take(i + 1)[k]).1
                    == AttrType::String implies table_fits(
                column_texts(maps, list.take(i + 1)[k].0),
            ) by {
                if k < i {
                    assert(list.take(i as int)[k] == list.take(i + 1)[k]);
                }
            }
        }
        i += 1;
    }
    assert(list.take(n as int) =~= list);
    true
}

// ------------------------------------------------------------------- tiles

/// The pieces of the mesh.
pub open spec fn mesh_pieces(m: MeshBuilder) -> Seq<Piece> {
    seq![
        Piece { bytes: triples(m.positions@), unit: 1, purpose: PieceUse::Vertices },
        Piece { bytes: triples(m.normals@), unit: 1, purpose: PieceUse::Vertices },
        Piece { bytes: quadruples(m.colors@), unit: 1, purpose: PieceUse::Vertices },
        Piece { bytes: spaced_halves(m.batch_ids@), unit: 1, purpose: PieceUse::StridedVertices },
        Piece { bytes: words(m.indices@), unit: 1, purpose: PieceUse::Indices },
    ]
}

/// The pieces of the numbers that were computed for each surface.
pub open spec fn measure_pieces(m: MeshBuilder) -> Seq<Piece> {
    seq![
        Piece { bytes: words(m.batch_id_to_area@), unit: 1, purpose: PieceUse::Table },
        Piece { bytes: words(m.batch_id_to_azimuth@), unit: 1, purpose: PieceUse::Table },
        Piece { bytes: words(m.batch_id_to_elevation@), unit: 1, purpose: PieceUse::Table },
    ]
}

/// The columns of the attribute table.
pub open spec fn attribute_columns(m: MeshBuilder) -> Seq<(Seq<char>, AttrType)> {
    crate::gltf_writer::attributes::schema_of(m.rows())
}

/// The pieces of the table of surfaces.
pub open spec fn metadata_pieces(m: MeshBuilder) -> Seq<Piece> {
    table_pieces(crate::json::texts_of(m.batch_id_to_cityobject_id@)) + table_pieces(
        crate::json::texts_of(m.batch_id_to_cityobject_type@),
    ) + table_pieces(crate::json::texts_of(m.batch_id_to_surface_type@)) + measure_pieces(m)
        + columns_pieces(m.rows(), attribute_columns(m))
}

/// Whether the offsets of all tables of texts fit in words.
pub open spec fn metadata_fits(m: MeshBuilder) -> bool {
    &&& table_fits(crate::json::texts_of(m.batch_id_to_cityobject_id@))
    &&& table_fits(crate::json::texts_of(m.batch_id_to_cityobject_type@))
    &&& table_fits(crate::json::texts_of(m.batch_id_to_surface_type@))
    &&& columns_fit(m.rows(), attribute_columns(m))
}

/// The pieces of the splats.
pub open spec fn splat_pieces(splats: Seq<SplatVertex>) -> Seq<Piece> {
    seq![
        Piece {
            bytes: triples(Seq::new(splats.len(), |i: int| splats[i].position)),
            unit: 4,
            purpose: PieceUse::Table,
        },
        Piece {
            bytes: quadruples(Seq::new(splats.len(), |i: int| opaque_color(splats[i].rgb))),
            unit: 1,
            purpose: PieceUse::Table,
        },
        Piece {
            bytes: quadruples(Seq::new(splats.len(), |i: int| splats[i].rotation)),
            unit: 1,
            purpose: PieceUse::Table,
        },
        Piece {
            bytes: triples(Seq::new(splats.len(), |i: int| splats[i].scale)),
            unit: 1,
            purpose: PieceUse::Table,
        },
        Piece {
            bytes: words(Seq::new(splats.len(), |i: int| splats[i].opacity)),
            unit: 1,
            purpose: PieceUse::Table,
        },
        Piece {
            bytes: triples(Seq::new(splats.len(), |i: int| splats[i].sh0)),
            unit: 1,
            purpose: PieceUse::Table,
        },
    ]
}

/// A color without transparency.
pub open spec fn opaque_color(rgb: Vec3) -> Vec4 {
    Vec4 { x: rgb.x, y: rgb.y, z: rgb.z, w: crate::float_bits::F32_ONE }
}

/// The pieces of a tile: those of the mesh, for version 1.1 those of the table
/// of its surfaces, and those of the splats, as far as there are any.
pub open spec fn tile_pieces(m: MeshBuilder, version: TilesVersion, splats: Seq<SplatVertex>) -> Seq<
    Piece,
> {
    (if m.has_mesh() {
        mesh_pieces(m)
    } else {
        Seq::empty()
    }) + (if m.has_mesh() && version == TilesVersion::V1_1 {
        metadata_pieces(m)
    } else {
        Seq::empty()
    }) + (if splats.len() > 0 {
        splat_pieces(splats)
    } else {
        Seq::empty()
    })
}

/// The buffer of a tile.
pub open spec fn tile_laid(m: MeshBuilder, version: TilesVersion, splats: Seq<SplatVertex>) -> Laid {
    crate::gltf_writer::layout::lay_all(
        crate::gltf_writer::layout::nothing_laid(),
        tile_pieces(m, version, splats),
    )
}

/// Lays out the mesh.
fn write_mesh(w: &mut BinWriter, m: &MeshBuilder)
    ensures
        final(w)@ == crate::gltf_writer::layout::lay_all(old(w)@, mesh_pieces(*m)),
{
    w.add(triples_bytes(m.positions.as_slice()), 1, PieceUse::Vertices);
    w.add(triples_bytes(m.normals.as_slice()), 1, PieceUse::Vertices);
    w.add(quadruples_bytes(m.colors.as_slice()), 1, PieceUse::Vertices);
    w.add(spaced_halves_bytes(m.batch_ids.as_slice()), 1, PieceUse::StridedVertices);
    w.add(words_bytes(m.indices.as_slice()), 1, PieceUse::Indices);
    proof {
        reveal_with_fuel(crate::gltf_writer::layout::lay_all, 6);
        let p = mesh_pieces(*m);
        assert(p.drop_last().drop_last().drop_last().drop_last().drop_last() =~= Seq::<
            Piece,
        >::empty());
    }
}

/// Lays out the table of surfaces, unless some texts are too large. Returns
/// the columns of the attribute table.
fn write_metadata(w: &mut BinWriter, m: &MeshBuilder) -> (r: Option<Vec<Column>>)
    requires
        m.wf(),
    ensures
        r is Some == metadata_fits(*m),
        r matches Some(columns) ==> {
            &&& crate::gltf_writer::attributes::columns_of(columns@) == attribute_columns(*m)
            &&& final(w)@ == crate::gltf_writer::layout::lay_all(old(w)@, metadata_pieces(*m))
        },
{
    let ghost l = w@;
    let ghost a = table_pieces(crate::json::texts_of(m.batch_id_to_cityobject_id@));
    let ghost b = table_pieces(crate::json::texts_of(m.batch_id_to_cityobject_type@));
    let ghost c = table_pieces(crate::json::texts_of(m.batch_id_to_surface_type@));
    let ghost d = measure_pieces(*m);
    let ghost e = columns_pieces(m.rows(), attribute_columns(*m));
    if !write_texts(w, m.batch_id_to_cityobject_id.as_slice()) {
        return None;
    }
    if !write_texts(w, m.batch_id_to_cityobject_type.as_slice()) {
        return None;
    }
    if !write_texts(w, m.batch_id_to_surface_type.as_slice()) {
        return None;
    }
    let ghost l3 = w@;
    w.add(words_bytes(m.batch_id_to_area.as_slice()), 1, PieceUse::Table);
    w.add(words_bytes(m.batch_id_to_azimuth.as_slice()), 1, PieceUse::Table);
    w.add(words_bytes(m.batch_id_to_elevation.as_slice()), 1, PieceUse::Table);
    proof {
        reveal_with_fuel(crate::gltf_writer::layout::lay_all, 4);
        assert(d.drop_last().drop_last().drop_last() =~= Seq::<Piece>::empty());
        assert(w@ == crate::gltf_writer::layout::lay_all(l3, d));
    }
    let sets = m.attribute_sets.as_slice();
    let rows = m.batch_id_to_attributes.as_slice();
    let columns = infer_schema(sets, rows);
    if !write_columns(w, sets, rows, columns.as_slice()) {
        return None;
    }
    proof {
        crate::gltf_writer::layout::lemma_lay_all_add(l, a, b);
        crate::gltf_writer::layout::lemma_lay_all_add(l, a + b, c);
        crate::gltf_writer::layout::lemma_lay_all_add(l, a + b + c, d);
        crate::gltf_writer::layout::lemma_lay_all_add(l, a + b + c + d, e);
    }
    Some(columns)
}

/// Lays out the splats.
fn write_splats(w: &mut BinWriter, splats: &[SplatVertex])
    ensures
        final(w)@ == crate::gltf_writer::layout::lay_all(old(w)@, splat_pieces(splats@)),
{
    let mut positions: Vec<Vec3> = Vec::new();
    let mut colors: Vec<Vec4> = Vec::new();
    let mut rotations: Vec<Vec4> = Vec::new();
    let mut scales: Vec<Vec3> = Vec::new();
    let mut opacities: Vec<u32> = Vec::new();
    let mut sh0: Vec<Vec3> = Vec::new();
    let n: usize = splats.len();
    let mut i: usize = 0;
    while i < n
        invariant
            i <= n,
            n == splats@.len(),
            positions@ =~= Seq::new(i as nat, |k: int| splats@[k].position),
            colors@ =~= Seq::new(i as nat, |k: int| opaque_color(splats@[k].rgb)),
            rotations@ =~= Seq::new(i as nat, |k: int| splats@[k].rotation),
            scales@ =~= Seq::new(i as nat, |k: int| splats@[k].scale),
            opacities@ =~= Seq::new(i as nat, |k: int| splats@[k].opacity),
            sh0@ =~= Seq::new(i as nat, |k: int| splats@[k].sh0),
        decreases n - i,
    {
        let splat = splats[i];
        positions.push(splat.position);
        colors.push(Vec4 { x: splat.rgb.x, y: splat.rgb.y, z: splat.rgb.z, w: F32_ONE });
        rotations.push(splat.rotation);
        scales.push(splat.scale);
        opacities.push(splat.opacity);
        sh0.push(splat.sh0);
        i += 1;
    }
    w.add(triples_bytes(positions.as_slice()), 4, PieceUse::Table);
    w.add(quadruples_bytes(colors.as_slice()), 1, PieceUse::Table);
    w.add(quadruples_bytes(rotations.as_slice()), 1, PieceUse::Table);
    w.add(triples_bytes(scales.as_slice()), 1, PieceUse::Table);
    w.add(words_bytes(opacities.as_slice()), 1, PieceUse::Table);
    w.add(triples_bytes(sh0.as_slice()), 1, PieceUse::Table);
    proof {
        reveal_with_fuel(crate::gltf_writer::layout::lay_all, 7);
        let p = splat_pieces(splats@);
        assert(p.drop_last().drop_last().drop_last().drop_last().drop_last().drop_last() =~= Seq::<
            Piece,
        >::empty());
    }
}

/// Lays out a tile, unless some texts are too large. Returns the buffer and
/// the columns of the attribute table.
pub(crate) fn write_tile(m: &MeshBuilder, version: TilesVersion, splats: &[SplatVertex]) -> (r:
    Option<(BinWriter, Vec<Column>)>)
    requires
        m.wf(),
    ensures
        r is None == (m.has_mesh() && version == TilesVersion::V1_1 && !metadata_fits(*m)),
        r matches Some(done) ==> {
            &&& done.0@ == tile_laid(*m, version, splats@)
            &&& m.has_mesh() && version == TilesVersion::V1_1
                ==> crate::gltf_writer::attributes::columns_of(done.1@) == attribute_columns(*m)
        },
{
    let mut w = BinWriter::new();
    let ghost l = w@;
    let mut columns: Vec<Column> = Vec::new();
    let ghost a = if m.has_mesh() {
        mesh_pieces(*m)
    } else {
        Seq::empty()
    };
    let ghost b = if m.has_mesh() && version == TilesVersion::V1_1 {
        metadata_pieces(*m)
    } else {
        Seq::empty()
    };
    let ghost c = if splats@.len() > 0 {
        splat_pieces(splats@)
    } else {
        Seq::empty()
    };
    if m.positions.len() > 0 {
        write_mesh(&mut w, m);
        if version == TilesVersion::V1_1 {
            match write_metadata(&mut w, m) {
                Some(list) => {
                    columns = list;
                },
                None => {
                    return None;
                },
            }
        }
    }
    if splats.len() > 0 {
        write_splats(&mut w, splats);
    }
    proof {
        crate::gltf_writer::layout::lemma_lay_all_add(l, a, b);
        crate::gltf_writer::layout::lemma_lay_all_add(l, a + b, c);
    }
    Some((w, columns))
}

// -------------------------------------------------------------------- laws

/// Whether laying out `pieces` from a multiple of four on ends at a multiple
/// of four, and gives views that all begin at multiples of four.
#[verifier::opaque]
pub open spec fn keeps_alignment(pieces: Seq<Piece>) -> bool {
    forall|l: Laid|
        l.bytes.len() % 4 == 0 ==> {
            let done = #[trigger] crate::gltf_writer::layout::lay_all(l, pieces);
            &&& done.bytes.len() % 4 == 0
            &&& done.bytes.len() <= usize::MAX ==> forall|i: int|
                l.views.len() <= i < done.views.len() ==> (#[trigger] done.views[i]).offset % 4 == 0
        }
}

proof fn lemma_alignment_add(a: Seq<Piece>, b: Seq<Piece>)
    requires
        keeps_alignment(a),
        keeps_alignment(b),
    ensures
        keeps_alignment(a + b),
{
    reveal(keeps_alignment);
    assert forall|l: Laid| l.bytes.len() % 4 == 0 implies {
        let done = #[trigger] crate::gltf_writer::layout::lay_all(l, a + b);
        &&& done.bytes.len() % 4 == 0
        &&& done.bytes.len() <= usize::MAX ==> forall|i: int|
            l.views.len() <= i < done.views.len() ==> (#[trigger] done.views[i]).offset % 4 == 0
    } by {
        crate::gltf_writer::layout::lemma_lay_all_add(l, a, b);
        let mid = crate::gltf_writer::layout::lay_all(l, a);
        let done = crate::gltf_writer::layout::lay_all(mid, b);
        crate::gltf_writer::layout::law_laying_keeps_what_was_there(mid, b);
        if done.bytes.len() <= usize::MAX {
            assert forall|i: int| l.views.len() <= i < done.views.len() implies (
            #[trigger] done.views[i]).offset % 4 == 0 by {
                if i < mid.views.len() {
                    assert(done.views.take(mid.views.len() as int)[i] == mid.views[i]);
                }
            }
        }
    }
}

/// Pieces whose sizes are multiples of four keep the alignment.
proof fn lemma_alignment_of_whole_words(pieces: Seq<Piece>)
    requires
        forall|k: int|
            0 <= k < pieces.len() ==> (#[trigger] pieces[k]).bytes.len() % 4 == 0 && (
            pieces[k].unit == 1 || pieces[k].unit == 4),
    ensures
        keeps_alignment(pieces),
    decreases pieces.len(),
{
    reveal(keeps_alignment);
    if pieces.len() == 0 {
    } else {
        let head = pieces.drop_last();
        let last = pieces.last();
        assert forall|k: int| 0 <= k < head.len() implies (#[trigger] head[k]).bytes.len() % 4 == 0
            && (head[k].unit == 1 || head[k].unit == 4) by {
            assert(head[k] == pieces[k]);
        }
        lemma_alignment_of_whole_words(head);
        assert(pieces[pieces.len() - 1] == last);
        assert forall|l: Laid| l.bytes.len() % 4 == 0 implies {
            let done = #[trigger] crate::gltf_writer::layout::lay_all(l, pieces);
            &&& done.bytes.len() % 4 == 0
            &&& done.bytes.len() <= usize::MAX ==> forall|i: int|
                l.views.len() <= i < done.views.len() ==> (#[trigger] done.views[i]).offset % 4 == 0
        } by {
            let mid = crate::gltf_writer::layout::lay_all(l, head);
            let done = crate::gltf_writer::layout::lay(mid, last);
            crate::bytes::lemma_padding(mid.bytes.len() as int, last.unit);
            assert(mid.bytes.len() % 4 == 0);
            assert(crate::bytes::padding(mid.bytes.len() as int, last.unit) == 0);
            if done.bytes.len() <= usize::MAX {
                assert forall|i: int| l.views.len() <= i < done.views.len() implies (
                #[trigger] done.views[i]).offset % 4 == 0 by {
                    if i < mid.views.len() {
                        assert(done.views[i] == mid.views[i]);
                    }
                }
            }
        }
    }
}

/// A piece of any size that is followed by one which begins at a multiple of
/// four and fills whole words keeps the alignment.
proof fn lemma_alignment_of_pair(pieces: Seq<Piece>)
    requires
        pieces.len() == 2,
        pieces[0].unit == 1,
        pieces[1].unit == 4,
        pieces[1].bytes.len() % 4 == 0,
    ensures
        keeps_alignment(pieces),
{
    reveal(keeps_alignment);
    assert forall|l: Laid| l.bytes.len() % 4 == 0 implies {
        let done = #[trigger] crate::gltf_writer::layout::lay_all(l, pieces);
        &&& done.bytes.len() % 4 == 0
        &&& done.bytes.len() <= usize::MAX ==> forall|i: int|
            l.views.len() <= i < done.views.len() ==> (#[trigger] done.views[i]).offset % 4 == 0
    } by {
        lemma_two_pieces(l, pieces);
        let mid = crate::gltf_writer::layout::lay(l, pieces[0]);
        let done = crate::gltf_writer::layout::lay(mid, pieces[1]);
        crate::bytes::lemma_padding(l.bytes.len() as int, 1);
        crate::bytes::lemma_padding(mid.bytes.len() as int, 4);
        assert(crate::bytes::padding(l.bytes.len() as int, 1) == 0);
        if done.bytes.len() <= usize::MAX {
            assert forall|i: int| l.views.len() <= i < done.views.len() implies (
            #[trigger] done.views[i]).offset % 4 == 0 by {
                if i < mid.views.len() {
                    assert(done.views[i] == mid.views[i]);
                }
            }
        }
    }
}

proof fn lemma_alignment_of_columns(
    rows: Seq<Map<Seq<char>, Attr>>,
    columns: Seq<(Seq<char>, AttrType)>,
)
    ensures
        keeps_alignment(columns_pieces(rows, columns)),
    decreases columns.len(),
{
    if columns.len() == 0 {
        lemma_alignment_of_whole_words(columns_pieces(rows, columns));
    } else {
        let column = columns.last();
        let pieces = column_pieces(rows, column);
        lemma_alignment_of_columns(rows, columns.drop_last());
        lemma_sizes(table_offsets(column_texts(rows, column.0)), Seq::empty(), Seq::empty());
        lemma_sizes(column_singles(rows, column.0), Seq::empty(), Seq::empty());
        lemma_sizes(column_integers(rows, column.0), Seq::empty(), Seq::empty());
        match column.1 {
            AttrType::String => {
                lemma_alignment_of_pair(pieces);
            },
            AttrType::Boolean => {
                lemma_alignment_of_pair(pieces);
            },
            _ => {
                lemma_alignment_of_whole_words(pieces);
            },
        }
        lemma_alignment_add(columns_pieces(rows, columns.drop_last()), pieces);
    }
}

/// The lists are whole numbers of words.
proof fn lemma_lists_are_whole_words(a: Seq<u32>, b: Seq<Vec3>, c: Seq<Vec4>)
    ensures
        words(a).len() % 4 == 0,
        spaced_halves(a).len() % 4 == 0,
        triples(b).len() % 4 == 0,
        quadruples(c).len() % 4 == 0,
{
    lemma_sizes(a, b, c);
}

#[verifier::spinoff_prover]
proof fn lemma_alignment_of_mesh(m: MeshBuilder)
    ensures
        keeps_alignment(mesh_pieces(m)),
{
    let pieces = mesh_pieces(m);
    lemma_lists_are_whole_words(m.batch_ids@, m.positions@, m.colors@);
    lemma_lists_are_whole_words(m.indices@, m.normals@, m.colors@);
    assert(pieces.len() == 5);
    assert(pieces[0].bytes == triples(m.positions@) && pieces[0].unit == 1);
    assert(pieces[1].bytes == triples(m.normals@) && pieces[1].unit == 1);
    assert(pieces[2].bytes == quadruples(m.colors@) && pieces[2].unit == 1);
    assert(pieces[3].bytes == spaced_halves(m.batch_ids@) && pieces[3].unit == 1);
    assert(pieces[4].bytes == words(m.indices@) && pieces[4].unit == 1);
    lemma_alignment_of_whole_words(pieces);
}

proof fn lemma_alignment_of_table(texts: Seq<Seq<char>>)
    ensures
        keeps_alignment(table_pieces(texts)),
{
    lemma_sizes(table_offsets(texts), Seq::empty(), Seq::empty());
    lemma_alignment_of_pair(table_pieces(texts));
}

proof fn lemma_alignment_of_metadata(m: MeshBuilder)
    ensures
        keeps_alignment(metadata_pieces(m)),
{
    let a = table_pieces(crate::json::texts_of(m.batch_id_to_cityobject_id@));
    let b = table_pieces(crate::json::texts_of(m.batch_id_to_cityobject_type@));
    let c = table_pieces(crate::json::texts_of(m.batch_id_to_surface_type@));
    let d = measure_pieces(m);
    let e = columns_pieces(m.rows(), attribute_columns(m));
    lemma_alignment_of_table(crate::json::texts_of(m.batch_id_to_cityobject_id@));
    lemma_alignment_of_table(crate::json::texts_of(m.batch_id_to_cityobject_type@));
    lemma_alignment_of_table(crate::json::texts_of(m.batch_id_to_surface_type@));
    assert(keeps_alignment(d)) by {
        lemma_lists_are_whole_words(m.batch_id_to_area@, Seq::empty(), Seq::empty());
        lemma_lists_are_whole_words(m.batch_id_to_azimuth@, Seq::empty(), Seq::empty());
        lemma_lists_are_whole_words(m.batch_id_to_elevation@, Seq::empty(), Seq::empty());
        lemma_alignment_of_whole_words(d);
    }
    lemma_alignment_of_columns(m.rows(), attribute_columns(m));
    lemma_alignment_add(a, b);
    lemma_alignment_add(a + b, c);
    lemma_alignment_add(a + b + c, d);
    lemma_alignment_add(a + b + c + d, e);
}

proof fn lemma_alignment_of_splats(splats: Seq<SplatVertex>)
    ensures
        keeps_alignment(splat_pieces(splats)),
{
    lemma_lists_are_whole_words(
        Seq::new(splats.len(), |i: int| splats[i].opacity),
        Seq::new(splats.len(), |i: int| splats[i].position),
        Seq::new(splats.len(), |i: int| opaque_color(splats[i].rgb)),
    );
    lemma_lists_are_whole_words(
        Seq::empty(),
        Seq::new(splats.len(), |i: int| splats[i].scale),
        Seq::new(splats.len(), |i: int| splats[i].rotation),
    );
    lemma_lists_are_whole_words(
        Seq::empty(),
        Seq::new(splats.len(), |i: int| splats[i].sh0),
        Seq::empty(),
    );
    lemma_alignment_of_whole_words(splat_pieces(splats));
}

/// Every view into the buffer of a tile begins at a multiple of four bytes, so
/// at a multiple of the size of every component; and the buffer itself is a
/// whole number of words.
pub proof fn law_tile_views_are_aligned(
    m: MeshBuilder,
    version: TilesVersion,
    splats: Seq<SplatVertex>,
)
    requires
        tile_laid(m, version, splats).bytes.len() <= usize::MAX,
    ensures
        forall|i: int|
            0 <= i < tile_laid(m, version, splats).views.len() ==> (#[trigger] tile_laid(
                m,
                version,
                splats,
            ).views[i]).offset % 4 == 0,
        tile_laid(m, version, splats).bytes.len() % 4 == 0,
{
    let none = Seq::<Piece>::empty();
    let a = if m.has_mesh() {
        mesh_pieces(m)
    } else {
        none
    };
    let b = if m.has_mesh() && version == TilesVersion::V1_1 {
        metadata_pieces(m)
    } else {
        none
    };
    let c = if splats.len() > 0 {
        splat_pieces(splats)
    } else {
        none
    };
    lemma_alignment_of_whole_words(none);
    lemma_alignment_of_mesh(m);
    lemma_alignment_of_metadata(m);
    lemma_alignment_of_splats(splats);
    lemma_alignment_add(a, b);
    lemma_alignment_add(a + b, c);
    assert(keeps_alignment(tile_pieces(m, version, splats)));
    assert(crate::gltf_writer::layout::nothing_laid().bytes.len() % 4 == 0);
    reveal(keeps_alignment);
}

/// Every view into the buffer of a tile lies within it.
pub proof fn law_tile_views_are_in_bounds(
    m: MeshBuilder,
    version: TilesVersion,
    splats: Seq<SplatVertex>,
)
    requires
        tile_laid(m, version, splats).bytes.len() <= usize::MAX,
    ensures
        crate::gltf_writer::layout::views_in_bounds(tile_laid(m, version, splats)),
{
    crate::gltf_writer::layout::law_views_lie_in_the_buffer(
        crate::gltf_writer::layout::nothing_laid(),
        tile_pieces(m, version, splats),
    );
}

} // verus!
