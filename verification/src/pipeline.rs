use crate::field::{
    border, lemma_render_cell, lemma_render_shape, lemma_step_byte_counts, render_spec, step_byte,
    Field,
};
use vstd::arithmetic::div_mod::lemma_fundamental_div_mod_converse;
use vstd::prelude::*;

verus! {

/// The walk of a whole byte sequence over a `w`×`h` grid, byte by byte from
/// the front, starting at `(x, y)` with visit counts `counts`.
pub open spec fn walk(w: int, h: int, x: int, y: int, counts: Seq<int>, bytes: Seq<u8>) -> (
    int,
    int,
    Seq<int>,
)
    decreases bytes.len(),
{
    if bytes.len() <= 0 {
        (x, y, counts)
    } else {
        let s = step_byte(w, h, x, y, counts, bytes[0]);
        walk(w, h, s.0, s.1, s.2, bytes.drop_first())
    }
}

/// Walking one more byte is stepping once after the walk so far.
pub proof fn lemma_walk_snoc(
    w: int,
    h: int,
    x: int,
    y: int,
    counts: Seq<int>,
    bytes: Seq<u8>,
    b: u8,
)
    ensures
        ({
            let s = walk(w, h, x, y, counts, bytes);
            walk(w, h, x, y, counts, bytes.push(b)) == step_byte(w, h, s.0, s.1, s.2, b)
        }),
    decreases bytes.len(),
{
    if bytes.len() == 0 {
        reveal_with_fuel(walk, 2);
        assert(bytes.push(b)[0] == b);
        assert(bytes.push(b).drop_first() =~= Seq::<u8>::empty());
    } else {
        assert(bytes.push(b)[0] == bytes[0]);
        assert(bytes.push(b).drop_first() =~= bytes.drop_first().push(b));
        let s = step_byte(w, h, x, y, counts, bytes[0]);
        lemma_walk_snoc(w, h, s.0, s.1, s.2, bytes.drop_first(), b);
    }
}

/// A walk keeps the cursor on the grid and raises each cell's count by at
/// most twice the number of bytes walked.
pub proof fn lemma_walk_counts(w: int, h: int, x: int, y: int, counts: Seq<int>, bytes: Seq<u8>)
    requires
        1 <= w,
        1 <= h,
        0 <= x < w,
        0 <= y < h,
        counts.len() == w * h,
    ensures
        ({
            let s = walk(w, h, x, y, counts, bytes);
            &&& 0 <= s.0 < w
            &&& 0 <= s.1 < h
            &&& s.2.len() == counts.len()
            &&& forall|i: int|
                0 <= i < counts.len() ==> counts[i] <= #[trigger] s.2[i] <= counts[i] + 2
                    * bytes.len()
        }),
    decreases bytes.len(),
{
    if bytes.len() > 0 {
        let s = step_byte(w, h, x, y, counts, bytes[0]);
        lemma_step_byte_counts(w, h, x, y, counts, bytes[0]);
        lemma_walk_counts(w, h, s.0, s.1, s.2, bytes.drop_first());
    }
}

/// The walk a fingerprint makes: a 17×9 grid, all counts zero, the cursor
/// starting at the centre `(8, 4)`.
pub open spec fn fp_walk(bytes: Seq<u8>) -> (int, int, Seq<int>) {
    walk(17, 9, 8, 4, Seq::new(153, |i: int| 0), bytes)
}

/// The linear index of the walk's starting cell, the centre of the grid.
pub open spec fn start_idx() -> int {
    8 + 4 * 17int
}

/// The linear index of the cell the walk of `bytes` ends on.
pub open spec fn end_idx(bytes: Seq<u8>) -> int {
    let s = fp_walk(bytes);
    s.0 + s.1 * 17
}

/// The visit counts a fingerprint renders: those of the walk, with the
/// start and end cells overwritten by the sentinel values 15 and 16 (the
/// end marker last, so it wins when the two coincide).
pub open spec fn fp_counts(bytes: Seq<u8>) -> Seq<int> {
    fp_walk(bytes).2.update(start_idx(), 15).update(end_idx(bytes), 16)
}

/// The whole fingerprint frame of a byte sequence.
pub open spec fn fp_spec(bytes: Seq<u8>) -> Seq<char> {
    render_spec(fp_counts(bytes), 17, 9)
}

/// The visual fingerprint of a byte sequence: walk the bytes over a fresh
/// 17×9 field, two moves per byte, overwrite the start and end cells with
/// their sentinel marks, and render the frame.
///
/// The length bound keeps the 32-bit visit counters from overflowing; every
/// realistic input (a digest, a file) is far below it.
pub fn fingerprint(bytes: Vec<u8>) -> (s: String)
    requires
        bytes@.len() <= 0x3FFF_FFFF,
    ensures
        s@ == fp_spec(bytes@),
{
    let mut field = Field::new(17, 9);
    let idx_begin = field.pos_to_index(field.move_pnt);
    proof {
        assert(field.counts() =~= Seq::new(153, |i: int| 0));
        assert(bytes@.take(0) =~= Seq::<u8>::empty());
    }
    let mut i: usize = 0;
    while i < bytes.len()
        invariant
            field.wf(),
            field.width == 17,
            field.height == 9,
            i <= bytes@.len(),
            bytes@.len() <= 0x3FFF_FFFF,
            field.move_pnt.0 == fp_walk(bytes@.take(i as int)).0,
            field.move_pnt.1 == fp_walk(bytes@.take(i as int)).1,
            field.counts() == fp_walk(bytes@.take(i as int)).2,
            forall|j: int| 0 <= j < field.counts().len() ==> #[trigger] field.counts()[j] <= 2 * i,
        decreases bytes@.len() - i,
    {
        let ghost prefix = bytes@.take(i as int);
        let ghost prev = field.counts();
        proof {
            assert(bytes@.take(i as int + 1) =~= prefix.push(bytes@[i as int]));
            lemma_walk_snoc(17, 9, 8, 4, Seq::new(153, |k: int| 0), prefix, bytes@[i as int]);
            lemma_step_byte_counts(
                17,
                9,
                field.move_pnt.0 as int,
                field.move_pnt.1 as int,
                prev,
                bytes@[i as int],
            );
        }
        field.pnt_move(bytes[i]);
        i += 1;
    }
    proof {
        assert(bytes@.take(bytes@.len() as int) =~= bytes@);
        lemma_walk_counts(17, 9, 8, 4, Seq::new(153, |k: int| 0), bytes@);
    }
    let idx_end = field.pos_to_index(field.move_pnt);
    field.vals[idx_begin] = 15;
    field.vals[idx_end] = 16;
    proof {
        assert(field.counts() =~= fp_counts(bytes@));
    }
    field.render()
}

/// Output shape: every fingerprint frame is 11 lines — a border, nine rows,
/// a border — of 19 characters each plus their newlines, 220 characters in
/// all; the first and the last line are the border, `+` and dashes alone.
pub proof fn lemma_fingerprint_shape(bytes: Seq<u8>)
    ensures
        fp_spec(bytes).len() == 220,
        forall|ln: int| 0 <= ln < 11 ==> fp_spec(bytes)[#[trigger] (ln * 20) + 19] == '\n',
        fp_spec(bytes).subrange(0, 20) == border(17),
        fp_spec(bytes).subrange(200, 220) == border(17),
{
    lemma_render_shape(fp_counts(bytes), 17, 9);
}

/// Where the cell with linear index `idx` stands in the rendered text: one
/// border line and `idx / 17` interior lines of 20 characters come before
/// it, plus the line's opening `|`.
pub open spec fn cell_text_pos(idx: int) -> int {
    (1 + idx / 17) * 20 + 1 + idx % 17
}

/// Sentinel override: in the frame of any non-empty walk, the cell the walk
/// ended on renders as `E`; and whenever the walk did not end on the start
/// cell, the start cell renders as `S` — whatever either cell's raw visit
/// count would have shown. (A walk that returns to the centre ends on the
/// start cell, and there the end marker wins.)
pub proof fn lemma_fingerprint_sentinels(bytes: Seq<u8>)
    requires
        bytes.len() > 0,
    ensures
        fp_spec(bytes)[cell_text_pos(end_idx(bytes))] == 'E',
        start_idx() != end_idx(bytes) ==> fp_spec(bytes)[cell_text_pos(start_idx())] == 'S',
{
    let zeros = Seq::new(153, |i: int| 0int);
    let s = fp_walk(bytes);
    let cs = fp_counts(bytes);
    lemma_walk_counts(17, 9, 8, 4, zeros, bytes);
    let end = end_idx(bytes);
    lemma_fundamental_div_mod_converse(end, 17, s.1, s.0);
    assert(cs[end] == 16);
    lemma_render_cell(cs, 17, 9, s.0, s.1);
    assert((1 + s.1) * 20 + 1 + s.0 == cell_text_pos(end));
    if start_idx() != end {
        lemma_fundamental_div_mod_converse(start_idx(), 17, 4, 8);
        assert(cs[start_idx()] == 15);
        lemma_render_cell(cs, 17, 9, 8, 4);
        assert((1 + 4) * 20 + 1 + 8 == cell_text_pos(start_idx()));
    }
}

/// Empty input: the walk of no bytes ends where it starts, on the centre
/// cell, so the later end marker overwrites the start marker there and only
/// `E` shows in the frame.
pub proof fn lemma_empty_walk_ends_at_centre()
    ensures
        end_idx(Seq::<u8>::empty()) == start_idx(),
{
}

/// Determinism: the fingerprint is a function of the input bytes alone; two
/// fingerprints of one and the same byte sequence are one and the same
/// frame.
pub proof fn lemma_fingerprint_deterministic(bytes: Seq<u8>, r1: Seq<char>, r2: Seq<char>)
    requires
        r1 == fp_spec(bytes),
        r2 == fp_spec(bytes),
    ensures
        r1 == r2,
{
}

} // verus!
