//! Laying out pieces of data one after the other in a binary buffer, and the
//! views that say where they are.

use crate::bytes::pad_to;
use vstd::prelude::*;

verus! {

// ------------------------------------------------------------------ pieces

/// What a piece of the buffer is for.
#[derive(Clone, Copy, Debug, PartialEq, Eq, Structural)]
pub enum PieceUse {
    /// Only alignment; no view tells of it.
    Alignment,
    /// Vertex attributes, packed.
    Vertices,
    /// Vertex attributes, one in every four bytes.
    StridedVertices,
    /// Vertex indices.
    Indices,
    /// Anything else.
    Table,
}

/// A view into the buffer.
#[derive(Clone, Copy, Debug, PartialEq, Eq, Structural)]
pub struct BufferView {
    pub offset: usize,
    pub length: usize,
    pub purpose: PieceUse,
}

/// A piece of data, which begins at a multiple of `unit`.
pub struct Piece {
    pub bytes: Seq<u8>,
    pub unit: int,
    pub purpose: PieceUse,
}

/// A buffer and the views into it.
#[verifier::ext_equal]
pub struct Laid {
    pub bytes: Seq<u8>,
    pub views: Seq<BufferView>,
}

/// The empty buffer.
pub open spec fn nothing_laid() -> Laid {
    Laid { bytes: Seq::empty(), views: Seq::empty() }
}

/// Where the next piece begins: after as many zeros as its unit asks for.
pub open spec fn start_of(l: Laid, p: Piece) -> Seq<u8> {
    crate::bytes::padded(l.bytes, 0, p.unit, 0)
}

/// Adds a piece.
pub open spec fn lay(l: Laid, p: Piece) -> Laid {
    let start = start_of(l, p);
    Laid {
        bytes: start + p.bytes,
        views: if p.purpose is Alignment {
            l.views
        } else {
            l.views.push(
                BufferView {
                    offset: start.len() as usize,
                    length: p.bytes.len() as usize,
                    purpose: p.purpose,
                },
            )
        },
    }
}

/// Adds pieces, one after the other.
pub open spec fn lay_all(l: Laid, pieces: Seq<Piece>) -> Laid
    decreases pieces.len(),
{
    if pieces.len() == 0 {
        l
    } else {
        lay(lay_all(l, pieces.drop_last()), pieces.last())
    }
}

/// Adding two runs of pieces is adding the one, then the other.
pub proof fn lemma_lay_all_add(l: Laid, a: Seq<Piece>, b: Seq<Piece>)
    ensures
        lay_all(l, a + b) == lay_all(lay_all(l, a), b),
    decreases b.len(),
{
    if b.len() == 0 {
        assert(a + b =~= a);
    } else {
        assert((a + b).drop_last() =~= a + b.drop_last());
        lemma_lay_all_add(l, a, b.drop_last());
    }
}

/// Adding one more piece.
pub proof fn lemma_lay_all_push(l: Laid, pieces: Seq<Piece>, p: Piece)
    ensures
        lay_all(l, pieces.push(p)) == lay(lay_all(l, pieces), p),
{
    assert(pieces.push(p).drop_last() =~= pieces);
}

/// How many views some pieces get.
pub open spec fn view_count(pieces: Seq<Piece>) -> nat
    decreases pieces.len(),
{
    if pieces.len() == 0 {
        0
    } else {
        view_count(pieces.drop_last()) + if pieces.last().purpose is Alignment {
            0nat
        } else {
            1nat
        }
    }
}

/// Adding pieces keeps what was there: the old buffer is the beginning of the
/// new one, the old views come first, and each piece with a use adds a view.
pub proof fn law_laying_keeps_what_was_there(l: Laid, pieces: Seq<Piece>)
    ensures
        l.bytes.is_prefix_of(lay_all(l, pieces).bytes),
        l.views.is_prefix_of(lay_all(l, pieces).views),
        lay_all(l, pieces).views.len() == l.views.len() + view_count(pieces),
    decreases pieces.len(),
{
    if pieces.len() > 0 {
        let before = lay_all(l, pieces.drop_last());
        law_laying_keeps_what_was_there(l, pieces.drop_last());
        let after = lay(before, pieces.last());
        assert(before.bytes =~= after.bytes.take(before.bytes.len() as int));
        assert(l.bytes =~= after.bytes.take(l.bytes.len() as int)) by {
            assert(l.bytes =~= before.bytes.take(l.bytes.len() as int));
        }
        assert(l.views =~= after.views.take(l.views.len() as int)) by {
            assert(l.views =~= before.views.take(l.views.len() as int));
        }
    } else {
        assert(l.bytes =~= l.bytes.take(l.bytes.len() as int));
        assert(l.views =~= l.views.take(l.views.len() as int));
    }
}

/// Where each view of a finished buffer lies.
pub open spec fn views_in_bounds(l: Laid) -> bool {
    forall|i: int|
        0 <= i < l.views.len() ==> (#[trigger] l.views[i]).offset + l.views[i].length
            <= l.bytes.len()
}

/// No view reaches past the end of the buffer.
pub proof fn law_views_lie_in_the_buffer(l: Laid, pieces: Seq<Piece>)
    requires
        views_in_bounds(l),
        lay_all(l, pieces).bytes.len() <= usize::MAX,
    ensures
        views_in_bounds(lay_all(l, pieces)),
    decreases pieces.len(),
{
    if pieces.len() > 0 {
        let before = lay_all(l, pieces.drop_last());
        law_views_lie_in_the_buffer(l, pieces.drop_last());
        let after = lay(before, pieces.last());
        assert forall|i: int| 0 <= i < after.views.len() implies (#[trigger] after.views[i]).offset
            + after.views[i].length <= after.bytes.len() by {
            if i < before.views.len() {
                assert(after.views[i] == before.views[i]);
            }
        }
    }
}

/// A piece can be read back through its view, which begins at a multiple of
/// the piece's unit.
pub proof fn law_view_gives_back_its_piece(l: Laid, pieces: Seq<Piece>, k: int)
    requires
        0 <= k < pieces.len(),
        pieces[k].unit > 0,
        !(pieces[k].purpose is Alignment),
        lay_all(l, pieces).bytes.len() <= usize::MAX,
    ensures
        ({
            let done = lay_all(l, pieces);
            let view = done.views[(l.views.len() + view_count(pieces.take(k))) as int];
            &&& l.views.len() + view_count(pieces.take(k)) < done.views.len()
            &&& view.length == pieces[k].bytes.len()
            &&& view.purpose == pieces[k].purpose
            &&& view.offset as int % pieces[k].unit == 0
            &&& view.offset + view.length <= done.bytes.len()
            &&& done.bytes.subrange(view.offset as int, view.offset + view.length)
                == pieces[k].bytes
        }),
{
    let head = pieces.take(k);
    let piece = pieces[k];
    let tail = pieces.skip(k + 1);
    let before = lay_all(l, head);
    let mid = lay(before, piece);
    assert(pieces =~= head.push(piece) + tail);
    lemma_lay_all_add(l, head.push(piece), tail);
    lemma_lay_all_push(l, head, piece);
    let done = lay_all(mid, tail);
    law_laying_keeps_what_was_there(l, head);
    law_laying_keeps_what_was_there(mid, tail);
    let start = start_of(before, piece);
    crate::bytes::lemma_padding(before.bytes.len() as int, piece.unit);
    let at = before.views.len() as int;
    assert(mid.views[at] == done.views.take(mid.views.len() as int)[at]);
    assert(done.bytes.subrange(start.len() as int, (start.len() + piece.bytes.len()) as int)
        =~= piece.bytes) by {
        assert(mid.bytes =~= done.bytes.take(mid.bytes.len() as int));
        assert forall|i: int| 0 <= i < piece.bytes.len() implies done.bytes[start.len() + i]
            == piece.bytes[i] by {
            assert(done.bytes.take(mid.bytes.len() as int)[start.len() + i] == mid.bytes[start.len()
                + i]);
        }
    }
}

// ------------------------------------------------------------------ writer

/// A buffer that is being filled.
pub struct BinWriter {
    pub bytes: Vec<u8>,
    pub views: Vec<BufferView>,
}

impl View for BinWriter {
    type V = Laid;

    open spec fn view(&self) -> Laid {
        Laid { bytes: self.bytes@, views: self.views@ }
    }
}

impl BinWriter {
    /// An empty buffer.
    pub fn new() -> (r: BinWriter)
        ensures
            r@ == nothing_laid(),
    {
        let r = BinWriter { bytes: Vec::new(), views: Vec::new() };
        assert(r@ =~= nothing_laid());
        r
    }

    /// Adds a piece.
    pub fn add(&mut self, mut data: Vec<u8>, unit: usize, purpose: PieceUse)
        requires
            0 < unit <= 0x1_0000,
        ensures
            final(self)@ == lay(
                old(self)@,
                Piece { bytes: data@, unit: unit as int, purpose },
            ),
    {
        pad_to(&mut self.bytes, 0, unit, 0);
        let offset: usize = self.bytes.len();
        let length: usize = data.len();
        self.bytes.append(&mut data);
        match purpose {
            PieceUse::Alignment => {},
            _ => {
                self.views.push(BufferView { offset, length, purpose });
            },
        }
    }
}

} // verus!
