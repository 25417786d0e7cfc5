//! Ordering chunks by their place in the file.

use crate::copc_reader::octree::Entry;
use vstd::prelude::*;

verus! {

/// Whether no entry comes before one that lies further on in the file.
pub open spec fn falls(s: Seq<Entry>) -> bool {
    forall|i: int, j: int| 0 <= i <= j < s.len() ==> s[i].offset >= s[j].offset
}

/// The entries that lie at one offset, in their order.
pub open spec fn at_offset(s: Seq<Entry>, offset: u64) -> Seq<Entry> {
    s.filter(|e: Entry| e.offset == offset)
}

/// Whether `out` is `s` by falling offset, with entries at one offset in
/// the order in which they were.
pub open spec fn is_sorted_from(out: Seq<Entry>, s: Seq<Entry>) -> bool {
    &&& falls(out)
    &&& out.len() == s.len()
    &&& forall|offset: u64| #[trigger] at_offset(out, offset) == at_offset(s, offset)
}

proof fn lemma_at_offset_add(a: Seq<Entry>, b: Seq<Entry>, offset: u64)
    ensures
        at_offset(a + b, offset) == at_offset(a, offset) + at_offset(b, offset),
{
    Seq::filter_distributes_over_add(a, b, |e: Entry| e.offset == offset);
}

proof fn lemma_at_offset_push(a: Seq<Entry>, e: Entry, offset: u64)
    ensures
        at_offset(a.push(e), offset) == (if e.offset == offset {
            at_offset(a, offset).push(e)
        } else {
            at_offset(a, offset)
        }),
{
    reveal(Seq::filter);
    assert(a.push(e).drop_last() =~= a);
}

proof fn lemma_at_offset_skip(a: Seq<Entry>, i: int, offset: u64)
    requires
        0 <= i < a.len(),
    ensures
        at_offset(a.skip(i), offset) == (if a[i].offset == offset {
            seq![a[i]] + at_offset(a.skip(i + 1), offset)
        } else {
            at_offset(a.skip(i + 1), offset)
        }),
{
    let one = seq![a[i]];
    assert(a.skip(i) =~= one + a.skip(i + 1));
    lemma_at_offset_add(one, a.skip(i + 1), offset);
    assert(one =~= Seq::<Entry>::empty().push(a[i]));
    lemma_at_offset_push(Seq::<Entry>::empty(), a[i], offset);
    reveal(Seq::filter);
    assert(at_offset(Seq::<Entry>::empty(), offset) =~= Seq::<Entry>::empty());
    assert(Seq::<Entry>::empty() + at_offset(a.skip(i + 1), offset) =~= at_offset(
        a.skip(i + 1),
        offset,
    ));
    assert(Seq::<Entry>::empty().push(a[i]) =~= one);
}

/// Nothing lies at an offset beyond the first of a falling sequence.
proof fn lemma_none_at(a: Seq<Entry>, i: int, offset: u64)
    requires
        falls(a),
        0 <= i <= a.len(),
        i < a.len() ==> a[i].offset < offset,
    ensures
        at_offset(a.skip(i), offset) == Seq::<Entry>::empty(),
    decreases a.len() - i,
{
    reveal(Seq::filter);
    if i < a.len() {
        lemma_at_offset_skip(a, i, offset);
        lemma_none_at(a, i + 1, offset);
    } else {
        assert(a.skip(i) =~= Seq::<Entry>::empty());
    }
}

/// Merges two falling sequences; at one offset the first goes first.
fn merge(a: &Vec<Entry>, b: &Vec<Entry>) -> (out: Vec<Entry>)
    requires
        falls(a@),
        falls(b@),
    ensures
        is_sorted_from(out@, a@ + b@),
{
    let mut out: Vec<Entry> = Vec::new();
    let mut i: usize = 0;
    let mut j: usize = 0;
    proof {
        assert(a@.skip(0) =~= a@);
        assert(b@.skip(0) =~= b@);
        assert forall|offset: u64| #[trigger]
            at_offset(out@, offset) + at_offset(a@.skip(0), offset) + at_offset(b@.skip(0), offset)
                == at_offset(a@ + b@, offset) by {
            lemma_at_offset_add(a@, b@, offset);
            reveal(Seq::filter);
            assert(out@ =~= Seq::<Entry>::empty());
            assert(at_offset(out@, offset) =~= Seq::<Entry>::empty());
            assert(Seq::<Entry>::empty() + at_offset(a@, offset) =~= at_offset(a@, offset));
        }
    }
    while i < a.len() || j < b.len()
        invariant
            falls(a@),
            falls(b@),
            falls(out@),
            i <= a@.len(),
            j <= b@.len(),
            out@.len() == i + j,
            forall|k: int, l: int| 0 <= k < out@.len() && i <= l < a@.len() ==> out@[k].offset >= a@[l].offset,
            forall|k: int, l: int| 0 <= k < out@.len() && j <= l < b@.len() ==> out@[k].offset >= b@[l].offset,
            forall|offset: u64| #[trigger]
                at_offset(out@, offset) + at_offset(a@.skip(i as int), offset) + at_offset(
                    b@.skip(j as int),
                    offset,
                ) == at_offset(a@ + b@, offset),
        decreases a@.len() - i + b@.len() - j,
    {
        let ghost before = out@;
        let from_a = j >= b.len() || (i < a.len() && a[i].offset >= b[j].offset);
        if from_a {
            out.push(a[i]);
            proof {
                assert forall|offset: u64| #[trigger]
                    at_offset(out@, offset) + at_offset(a@.skip(i + 1), offset) + at_offset(
                        b@.skip(j as int),
                        offset,
                    ) == at_offset(a@ + b@, offset) by {
                    lemma_at_offset_push(before, a@[i as int], offset);
                    lemma_at_offset_skip(a@, i as int, offset);
                    assert(at_offset(before, offset) + at_offset(a@.skip(i as int), offset)
                        + at_offset(b@.skip(j as int), offset) == at_offset(a@ + b@, offset));
                    assert(at_offset(out@, offset) + at_offset(a@.skip(i + 1), offset)
                        =~= at_offset(before, offset) + at_offset(a@.skip(i as int), offset));
                }
            }
            i += 1;
        } else {
            out.push(b[j]);
            proof {
                assert forall|offset: u64| #[trigger]
                    at_offset(out@, offset) + at_offset(a@.skip(i as int), offset) + at_offset(
                        b@.skip(j + 1),
                        offset,
                    ) == at_offset(a@ + b@, offset) by {
                    lemma_at_offset_push(before, b@[j as int], offset);
                    lemma_at_offset_skip(b@, j as int, offset);
                    assert(at_offset(before, offset) + at_offset(a@.skip(i as int), offset)
                        + at_offset(b@.skip(j as int), offset) == at_offset(a@ + b@, offset));
                    if b@[j as int].offset == offset {
                        lemma_none_at(a@, i as int, offset);
                        assert(at_offset(out@, offset) + at_offset(a@.skip(i as int), offset)
                            + at_offset(b@.skip(j + 1), offset) =~= at_offset(before, offset)
                            + at_offset(a@.skip(i as int), offset) + at_offset(
                            b@.skip(j as int),
                            offset,
                        ));
                    }
                }
            }
            j += 1;
        }
    }
    proof {
        assert forall|offset: u64| #[trigger] at_offset(out@, offset) == at_offset(
            a@ + b@,
            offset,
        ) by {
            reveal(Seq::filter);
            assert(a@.skip(i as int) =~= Seq::<Entry>::empty());
            assert(b@.skip(j as int) =~= Seq::<Entry>::empty());
            assert(at_offset(Seq::<Entry>::empty(), offset) =~= Seq::<Entry>::empty());
            assert(at_offset(out@, offset) + Seq::<Entry>::empty() + Seq::<Entry>::empty()
                =~= at_offset(out@, offset));
        }
    }
    out
}

/// Sorts entries by falling offset, without changing the order of entries at
/// one offset.
pub fn sort_by_falling_offset(mut items: Vec<Entry>) -> (r: Vec<Entry>)
    ensures
        is_sorted_from(r@, items@),
    decreases items@.len(),
{
    let n: usize = items.len();
    if n <= 1 {
        return items;
    }
    let ghost before = items@;
    let back = items.split_off(n / 2);
    assert(before =~= items@ + back@);
    let ghost front = items@;
    let a = sort_by_falling_offset(items);
    let b = sort_by_falling_offset(back);
    let r = merge(&a, &b);
    proof {
        assert forall|offset: u64| #[trigger] at_offset(r@, offset) == at_offset(
            before,
            offset,
        ) by {
            lemma_at_offset_add(a@, b@, offset);
            lemma_at_offset_add(front, back@, offset);
        }
    }
    r
}

/// Sorting neither adds nor loses entries.
pub proof fn law_sorting_keeps_entries(out: Seq<Entry>, s: Seq<Entry>, entry: Entry)
    requires
        is_sorted_from(out, s),
    ensures
        out.contains(entry) == s.contains(entry),
{
    lemma_at_offset_contains(out, entry);
    lemma_at_offset_contains(s, entry);
    assert(at_offset(out, entry.offset) == at_offset(s, entry.offset));
}

proof fn lemma_at_offset_contains(s: Seq<Entry>, entry: Entry)
    ensures
        at_offset(s, entry.offset).contains(entry) == s.contains(entry),
    decreases s.len(),
{
    let offset = entry.offset;
    if s.len() == 0 {
        reveal(Seq::filter);
    } else {
        let rest = s.drop_last();
        let last = s.last();
        assert(s =~= rest.push(last));
        lemma_at_offset_push(rest, last, offset);
        lemma_at_offset_contains(rest, entry);
        vstd::seq_lib::lemma_seq_contains_after_push(rest, last, entry);
        vstd::seq_lib::lemma_seq_contains_after_push(at_offset(rest, offset), last, entry);
    }
}

/// What is sorted lies by falling offset, and entries at one offset keep their
/// order.
pub proof fn law_sorting_is_stable(out: Seq<Entry>, s: Seq<Entry>, i: int, j: int, offset: u64)
    requires
        is_sorted_from(out, s),
        0 <= i < j < out.len(),
    ensures
        out[i].offset >= out[j].offset,
        out.len() == s.len(),
        out.filter(|e: Entry| e.offset == offset) == s.filter(|e: Entry| e.offset == offset),
{
    assert(at_offset(out, offset) == at_offset(s, offset));
}

} // verus!
