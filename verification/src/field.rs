use crate::pos::Pos;
use vstd::prelude::*;

verus! {

/// Saturate a coordinate into `[0, extent)`: a walker that would leave the
/// grid sticks at the nearest edge on that axis.
pub open spec fn clamp_axis(v: int, extent: int) -> int {
    if v < 0 {
        0
    } else if v >= extent {
        extent - 1
    } else {
        v
    }
}

/// Horizontal component of the diagonal delta encoded by a 2-bit group:
/// groups `0` and `2` move left, `1` and `3` move right.
pub open spec fn dir_dx(g: int) -> int {
    if g == 0 || g == 2 {
        -1
    } else {
        1
    }
}

/// Vertical component of the diagonal delta encoded by a 2-bit group:
/// groups `0` and `1` move up, `2` and `3` move down.
pub open spec fn dir_dy(g: int) -> int {
    if g == 0 || g == 1 {
        -1
    } else {
        1
    }
}

/// One move of the walker over a `w`×`h` grid from `(x, y)` with visit counts
/// `counts`, following direction group `g`: the delta is added, the result is
/// clamped into the grid, and the visit count of the cell reached goes up by
/// one. Returns the new coordinates and counts.
pub open spec fn move_once(w: int, h: int, x: int, y: int, counts: Seq<int>, g: int) -> (
    int,
    int,
    Seq<int>,
) {
    let nx = clamp_axis(x + dir_dx(g), w);
    let ny = clamp_axis(y + dir_dy(g), h);
    let idx = nx + ny * w;
    (nx, ny, counts.update(idx, counts[idx] + 1))
}

/// Two moves of the walker, driven by the low four bits of `dirs`: first the
/// group in bits 0..2, then the group in bits 2..4.
pub open spec fn step_byte(w: int, h: int, x: int, y: int, counts: Seq<int>, dirs: u8) -> (
    int,
    int,
    Seq<int>,
) {
    let s1 = move_once(w, h, x, y, counts, dirs as int % 4);
    move_once(w, h, s1.0, s1.1, s1.2, (dirs as int / 4) % 4)
}

/// The symbol a visit count renders as. Index by index the alphabet is
/// ` . o + = * B O X @ % & # / ^ S E`; the last two are reserved for the
/// start and end markers written after the walk. A count outside the
/// alphabet would be an internal invariant violation; it is guarded by
/// clamping to the nearest end.
pub open spec fn symbol_of(c: int) -> char {
    if c <= 0 {
        ' '
    } else if c == 1 {
        '.'
    } else if c == 2 {
        'o'
    } else if c == 3 {
        '+'
    } else if c == 4 {
        '='
    } else if c == 5 {
        '*'
    } else if c == 6 {
        'B'
    } else if c == 7 {
        'O'
    } else if c == 8 {
        'X'
    } else if c == 9 {
        '@'
    } else if c == 10 {
        '%'
    } else if c == 11 {
        '&'
    } else if c == 12 {
        '#'
    } else if c == 13 {
        '/'
    } else if c == 14 {
        '^'
    } else if c == 15 {
        'S'
    } else {
        'E'
    }
}

/// The top or bottom border line of the frame: `+`, `w` dashes, `+`, newline.
pub open spec fn border(w: int) -> Seq<char> {
    seq!['+'] + Seq::new(w as nat, |i: int| '-') + seq!['+', '\n']
}

/// The symbols of the first `x` cells of row `y`.
pub open spec fn row_syms(counts: Seq<int>, w: int, y: int, x: int) -> Seq<char> {
    Seq::new(x as nat, |xx: int| symbol_of(counts[xx + y * w]))
}

/// One interior line of the frame: `|`, the symbols of row `y`, `|`, newline.
pub open spec fn row_line(counts: Seq<int>, w: int, y: int) -> Seq<char> {
    seq!['|'] + row_syms(counts, w, y, w) + seq!['|', '\n']
}

/// The first `y` interior lines of the frame, in order.
pub open spec fn rows_up_to(counts: Seq<int>, w: int, y: int) -> Seq<char>
    decreases y,
{
    if y <= 0 {
        Seq::empty()
    } else {
        rows_up_to(counts, w, y - 1) + row_line(counts, w, y - 1)
    }
}

/// The whole rendered frame of a `w`×`h` grid with visit counts `counts`.
pub open spec fn render_spec(counts: Seq<int>, w: int, h: int) -> Seq<char> {
    border(w) + rows_up_to(counts, w, h) + border(w)
}

/// A border line is `w + 3` characters: `+`, `w` dashes, `+`, and a newline.
pub proof fn lemma_border_chars(w: int)
    requires
        0 <= w,
    ensures
        border(w).len() == w + 3,
        border(w)[0] == '+',
        forall|j: int| 1 <= j <= w ==> border(w)[j] == '-',
        border(w)[w + 1] == '+',
        border(w)[w + 2] == '\n',
{
}

/// The first `y` interior lines make `y * (w + 3)` characters.
pub proof fn lemma_rows_up_to_len(counts: Seq<int>, w: int, y: int)
    requires
        0 <= w,
        0 <= y,
    ensures
        rows_up_to(counts, w, y).len() == y * (w + 3),
    decreases y,
{
    if y > 0 {
        lemma_rows_up_to_len(counts, w, y - 1);
        assert(rows_up_to(counts, w, y) == rows_up_to(counts, w, y - 1) + row_line(
            counts,
            w,
            y - 1,
        ));
        assert(row_line(counts, w, y - 1).len() == w + 3);
        assert((y - 1) * (w + 3) + (w + 3) == y * (w + 3)) by (nonlinear_arith);
    } else {
        assert(rows_up_to(counts, w, y) == Seq::<char>::empty());
        assert(y * (w + 3) == 0) by (nonlinear_arith)
            requires
                y == 0,
        ;
    }
}

/// Inside the first `h` interior lines, the characters of line `y` stand at
/// offsets `y * (w + 3)` onward and are exactly `row_line(counts, w, y)`.
pub proof fn lemma_rows_up_to_index(counts: Seq<int>, w: int, h: int, y: int, k: int)
    requires
        0 <= w,
        0 <= y < h,
        0 <= k < w + 3,
    ensures
        rows_up_to(counts, w, h)[y * (w + 3) + k] == row_line(counts, w, y)[k],
    decreases h,
{
    lemma_rows_up_to_len(counts, w, h - 1);
    if y == h - 1 {
        assert(rows_up_to(counts, w, h)[(h - 1) * (w + 3) + k] == row_line(counts, w, h - 1)[k]);
    } else {
        lemma_rows_up_to_index(counts, w, h - 1, y, k);
        assert((y + 1) * (w + 3) <= (h - 1) * (w + 3)) by (nonlinear_arith)
            requires
                0 <= w,
                y + 1 <= h - 1,
        ;
        assert(y * (w + 3) + k < (y + 1) * (w + 3)) by (nonlinear_arith)
            requires
                k < w + 3,
        ;
    }
}

/// Output shape: the frame of a `w`×`h` grid is `h + 2` lines of `w + 2`
/// characters each, every line ended by a newline; the first and the last
/// line are the border, `+` and dashes alone.
pub proof fn lemma_render_shape(counts: Seq<int>, w: int, h: int)
    requires
        0 <= w,
        0 <= h,
    ensures
        render_spec(counts, w, h).len() == (h + 2) * (w + 3),
        forall|ln: int|
            0 <= ln < h + 2 ==> render_spec(counts, w, h)[#[trigger] (ln * (w + 3)) + (w + 2)]
                == '\n',
        render_spec(counts, w, h).subrange(0, w + 3) == border(w),
        render_spec(counts, w, h).subrange((h + 1) * (w + 3), (h + 2) * (w + 3)) == border(w),
{
    let r = render_spec(counts, w, h);
    lemma_border_chars(w);
    lemma_rows_up_to_len(counts, w, h);
    assert((h + 2) * (w + 3) == (w + 3) + h * (w + 3) + (w + 3)) by (nonlinear_arith);
    assert(r.subrange(0, w + 3) =~= border(w));
    assert(r.subrange((h + 1) * (w + 3), (h + 2) * (w + 3)) =~= border(w)) by {
        assert((h + 1) * (w + 3) == (w + 3) + h * (w + 3)) by (nonlinear_arith);
        assert forall|k: int| 0 <= k < w + 3 implies r[(h + 1) * (w + 3) + k] == border(w)[k] by {
            assert((h + 1) * (w + 3) + k == ((w + 3) + h * (w + 3)) + k) by (nonlinear_arith);
        }
    }
    assert forall|ln: int| 0 <= ln < h + 2 implies r[#[trigger] (ln * (w + 3)) + (w + 2)]
        == '\n' by {
        if ln == 0 {
            assert(r[w + 2] == border(w)[w + 2]);
        } else if ln == h + 1 {
            assert((h + 1) * (w + 3) + (w + 2) == ((w + 3) + h * (w + 3)) + (w + 2))
                by (nonlinear_arith);
        } else {
            let y = ln - 1;
            lemma_rows_up_to_index(counts, w, h, y, w + 2);
            assert((y + 1) * (w + 3) + (w + 2) == (w + 3) + (y * (w + 3) + (w + 2)))
                by (nonlinear_arith);
            assert(y * (w + 3) + (w + 2) < h * (w + 3)) by (nonlinear_arith)
                requires
                    0 <= y < h,
                    0 <= w,
            ;
            assert(row_line(counts, w, y)[w + 2] == '\n');
        }
    }
}

/// In any rendered frame, the cell at column `x` of row `y` shows the symbol
/// of its visit count.
pub proof fn lemma_render_cell(counts: Seq<int>, w: int, h: int, x: int, y: int)
    requires
        0 <= x < w,
        0 <= y < h,
    ensures
        render_spec(counts, w, h)[(1 + y) * (w + 3) + 1 + x] == symbol_of(counts[x + y * w]),
{
    let r = render_spec(counts, w, h);
    lemma_border_chars(w);
    lemma_rows_up_to_len(counts, w, h);
    lemma_rows_up_to_index(counts, w, h, y, 1 + x);
    assert((1 + y) * (w + 3) + 1 + x == (w + 3) + (y * (w + 3) + (1 + x))) by (nonlinear_arith);
    assert(y * (w + 3) + (1 + x) < h * (w + 3)) by (nonlinear_arith)
        requires
            0 <= x < w,
            0 <= y < h,
    ;
    assert(row_line(counts, w, y)[1 + x] == symbol_of(counts[x + y * w]));
}

/// Relies on `String`'s `FromIterator` impl: collecting characters yields a
/// string of exactly those characters, in order.
#[verifier::external_body]
fn chars_to_string(v: &Vec<char>) -> (s: String)
    ensures
        s@ == v@,
{
    v.iter().collect()
}

/// The character a visit count renders as: exactly `symbol_of`.
fn symbol_char(c: i32) -> (r: char)
    ensures
        r == symbol_of(c as int),
{
    if c <= 0 {
        ' '
    } else if c == 1 {
        '.'
    } else if c == 2 {
        'o'
    } else if c == 3 {
        '+'
    } else if c == 4 {
        '='
    } else if c == 5 {
        '*'
    } else if c == 6 {
        'B'
    } else if c == 7 {
        'O'
    } else if c == 8 {
        'X'
    } else if c == 9 {
        '@'
    } else if c == 10 {
        '%'
    } else if c == 11 {
        '&'
    } else if c == 12 {
        '#'
    } else if c == 13 {
        '/'
    } else if c == 14 {
        '^'
    } else if c == 15 {
        'S'
    } else {
        'E'
    }
}

/// Append a border line to `out`.
fn push_border(out: &mut Vec<char>, width: usize)
    ensures
        final(out)@ == old(out)@ + border(width as int),
{
    let ghost orig: Seq<char> = out@;
    out.push('+');
    proof {
        assert(out@ =~= orig + seq!['+'] + Seq::new(0 as nat, |j: int| '-'));
    }
    let mut i: usize = 0;
    while i < width
        invariant
            i <= width,
            out@ == orig + seq!['+'] + Seq::new(i as nat, |j: int| '-'),
        decreases width - i,
    {
        out.push('-');
        proof {
            assert(out@ =~= orig + seq!['+'] + Seq::new((i + 1) as nat, |j: int| '-'));
        }
        i += 1;
    }
    out.push('+');
    out.push('\n');
    proof {
        assert(out@ =~= orig + border(width as int));
    }
}

/// A single move changes no cell's count but the visited one's, and that by
/// one; the cursor it leaves is on the grid.
pub proof fn lemma_move_once_counts(w: int, h: int, x: int, y: int, counts: Seq<int>, g: int)
    requires
        1 <= w,
        1 <= h,
        counts.len() == w * h,
    ensures
        ({
            let s = move_once(w, h, x, y, counts, g);
            &&& 0 <= s.0 < w
            &&& 0 <= s.1 < h
            &&& s.2.len() == counts.len()
            &&& forall|i: int| 0 <= i < counts.len() ==> counts[i] <= #[trigger] s.2[i] <= counts[i] + 1
        }),
{
    let nx = clamp_axis(x + dir_dx(g), w);
    let ny = clamp_axis(y + dir_dy(g), h);
    assert(0 <= nx + ny * w < w * h) by (nonlinear_arith)
        requires
            0 <= nx < w,
            0 <= ny < h,
    ;
}

/// Both moves of a byte keep the cursor on the grid and raise each cell's
/// count by at most two.
pub proof fn lemma_step_byte_counts(w: int, h: int, x: int, y: int, counts: Seq<int>, dirs: u8)
    requires
        1 <= w,
        1 <= h,
        counts.len() == w * h,
    ensures
        ({
            let s = step_byte(w, h, x, y, counts, dirs);
            &&& 0 <= s.0 < w
            &&& 0 <= s.1 < h
            &&& s.2.len() == counts.len()
            &&& forall|i: int| 0 <= i < counts.len() ==> counts[i] <= #[trigger] s.2[i] <= counts[i] + 2
        }),
{
    let s1 = move_once(w, h, x, y, counts, dirs as int % 4);
    lemma_move_once_counts(w, h, x, y, counts, dirs as int % 4);
    lemma_move_once_counts(w, h, s1.0, s1.1, s1.2, (dirs as int / 4) % 4);
}

/// The grid of visit counters plus the walking token's current position.
pub struct Field {
    pub width: usize,
    pub height: usize,
    pub vals: Vec<i32>,
    pub move_pnt: Pos,
}

impl Field {
    /// The visit counters as unbounded integers, the form the walk model
    /// speaks of.
    pub open spec fn counts(&self) -> Seq<int> {
        self.vals@.map_values(|v: i32| v as int)
    }

    /// `p` lies on the grid.
    pub open spec fn in_bounds(&self, p: Pos) -> bool {
        0 <= p.0 < self.width && 0 <= p.1 < self.height
    }

    /// Positive extents whose index arithmetic fits in `i32`.
    pub open spec fn dims_ok(&self) -> bool {
        &&& 1 <= self.width
        &&& 1 <= self.height
        &&& self.width * self.height <= i32::MAX
    }

    /// Well-formedness: sane extents, a counter per cell, non-negative
    /// counters, and a cursor on the grid.
    pub open spec fn wf(&self) -> bool {
        &&& self.dims_ok()
        &&& self.vals@.len() == self.width * self.height
        &&& self.in_bounds(self.move_pnt)
        &&& forall|i: int| 0 <= i < self.vals@.len() ==> 0 <= #[trigger] self.vals@[i]
    }

    /// Each extent of a well-formed field fits in `i32` on its own, since
    /// their product does.
    proof fn lemma_dims(&self)
        requires
            self.dims_ok(),
        ensures
            self.width <= i32::MAX,
            self.height <= i32::MAX,
    {
        assert(self.width <= self.width * self.height && self.height <= self.width * self.height)
            by (nonlinear_arith)
            requires
                1 <= self.width,
                1 <= self.height,
        ;
    }

    /// A fresh field: every counter zero, the cursor at the centre
    /// `(width / 2, height / 2)` (integer division).
    pub fn new(width: usize, height: usize) -> (f: Field)
        requires
            1 <= width,
            1 <= height,
            width * height <= i32::MAX,
        ensures
            f.wf(),
            f.width == width,
            f.height == height,
            f.counts() =~= Seq::new((width * height) as nat, |i: int| 0),
            f.move_pnt.0 == width as int / 2,
            f.move_pnt.1 == height as int / 2,
    {
        proof {
            assert(width <= width * height) by (nonlinear_arith)
                requires
                    1 <= width,
                    1 <= height,
            ;
            assert(height <= width * height) by (nonlinear_arith)
                requires
                    1 <= width,
                    1 <= height,
            ;
        }
        let n = width * height;
        let mut vals: Vec<i32> = Vec::new();
        let mut i: usize = 0;
        while i < n
            invariant
                i <= n,
                vals@.len() == i,
                forall|j: int| 0 <= j < i ==> vals@[j] == 0i32,
            decreases n - i,
        {
            vals.push(0);
            i += 1;
        }
        let f = Field { width, height, vals, move_pnt: Pos((width as i32) / 2, (height as i32) / 2) };
        proof {
            assert(f.counts() =~= Seq::new((width * height) as nat, |i: int| 0));
        }
        f
    }

    /// The grid position of a linear cell index (row-major order).
    pub fn index_to_pos(&self, index: usize) -> (p: Pos)
        requires
            self.wf(),
            index < self.width * self.height,
        ensures
            p.0 == index as int % self.width as int,
            p.1 == index as int / self.width as int,
            self.in_bounds(p),
    {
        proof {
            self.lemma_dims();
            assert(0 <= (index as int) / (self.width as int) < self.height) by (nonlinear_arith)
                requires
                    1 <= self.width,
                    1 <= self.height,
                    0 <= index < self.width * self.height,
            ;
            assert(0 <= (index as int) % (self.width as int) < self.width) by (nonlinear_arith)
                requires
                    1 <= self.width,
                    0 <= index,
            ;
        }
        Pos((index % self.width) as i32, (index / self.width) as i32)
    }

    /// The linear cell index of a grid position: `x + y * width`. (The modulo
    /// mirrors the defensive arithmetic of the construction; for an on-grid
    /// position it changes nothing.)
    pub fn pos_to_index(&self, pos: Pos) -> (idx: usize)
        requires
            self.wf(),
            self.in_bounds(pos),
        ensures
            idx == pos.0 + pos.1 * self.width,
            idx < self.vals@.len(),
    {
        proof {
            self.lemma_dims();
        }
        let w = self.width as i32;
        let h = self.height as i32;
        proof {
            assert(0 <= pos.0 + pos.1 * w < w * h) by (nonlinear_arith)
                requires
                    0 <= pos.0 < w,
                    0 <= pos.1 < h,
            ;
            assert((pos.0 + pos.1 * w) % (w * h) == pos.0 + pos.1 * w) by (nonlinear_arith)
                requires
                    0 <= pos.0 + pos.1 * w < w * h,
            ;
        }
        ((pos.0 + pos.1 * w) % (w * h)) as usize
    }

    /// Clamp a position into the grid, axis by axis.
    pub fn limit(&self, pos: Pos) -> (r: Pos)
        requires
            self.dims_ok(),
        ensures
            r.0 == clamp_axis(pos.0 as int, self.width as int),
            r.1 == clamp_axis(pos.1 as int, self.height as int),
            self.in_bounds(r),
    {
        proof {
            self.lemma_dims();
        }
        let w = self.width as i32;
        let h = self.height as i32;
        let mut pos = pos;

        if pos.0 < 0 {
            pos.0 = 0;
        } else if pos.0 >= w {
            pos.0 = w - 1;
        }

        if pos.1 < 0 {
            pos.1 = 0;
        } else if pos.1 >= h {
            pos.1 = h - 1;
        }

        pos
    }

    /// One move of the walker, following the 2-bit direction group `g`:
    /// exactly the model's `move_once`.
    fn apply_group(&mut self, g: u8)
        requires
            old(self).wf(),
            g < 4,
            forall|i: int|
                0 <= i < old(self).counts().len() ==> #[trigger] old(self).counts()[i] + 1
                    <= i32::MAX,
        ensures
            final(self).wf(),
            final(self).width == old(self).width,
            final(self).height == old(self).height,
            ({
                let s = move_once(
                    old(self).width as int,
                    old(self).height as int,
                    old(self).move_pnt.0 as int,
                    old(self).move_pnt.1 as int,
                    old(self).counts(),
                    g as int,
                );
                &&& final(self).move_pnt.0 == s.0
                &&& final(self).move_pnt.1 == s.1
                &&& final(self).counts() == s.2
            }),
    {
        proof {
            self.lemma_dims();
        }
        let delta = match g {
            0b00 => Pos(-1, -1),
            0b01 => Pos(1, -1),
            0b10 => Pos(-1, 1),
            _ => Pos(1, 1),
        };
        self.move_pnt = self.move_pnt + delta;
        self.move_pnt = self.limit(self.move_pnt);
        let index = self.pos_to_index(self.move_pnt);
        let c = self.vals[index];
        proof {
            assert(old(self).counts()[index as int] == c as int);
        }
        self.vals[index] = c + 1;
        proof {
            let s = move_once(
                old(self).width as int,
                old(self).height as int,
                old(self).move_pnt.0 as int,
                old(self).move_pnt.1 as int,
                old(self).counts(),
                g as int,
            );
            assert(self.counts() =~= s.2);
        }
    }

    /// Two moves of the walker, decoded from the low four bits of `dirs`,
    /// least-significant 2-bit group first:
    /// - `00` up-left, `01` up-right, `10` down-left, `11` down-right.
    ///
    /// Each move is clamped into the grid and the cell reached has its visit
    /// count raised by one. Returns the cursor after both moves.
    pub fn pnt_move(&mut self, dirs: u8) -> (r: Pos)
        requires
            old(self).wf(),
            forall|i: int|
                0 <= i < old(self).counts().len() ==> #[trigger] old(self).counts()[i] + 2
                    <= i32::MAX,
        ensures
            final(self).wf(),
            final(self).width == old(self).width,
            final(self).height == old(self).height,
            ({
                let s = step_byte(
                    old(self).width as int,
                    old(self).height as int,
                    old(self).move_pnt.0 as int,
                    old(self).move_pnt.1 as int,
                    old(self).counts(),
                    dirs,
                );
                &&& final(self).move_pnt.0 == s.0
                &&& final(self).move_pnt.1 == s.1
                &&& final(self).counts() == s.2
            }),
            r == final(self).move_pnt,
    {
        let g1 = dirs & 0b11;
        let g2 = (dirs >> 2) & 0b11;
        proof {
            assert(dirs & 0b11 == dirs % 4 && (dirs >> 2) & 0b11 == (dirs / 4) % 4)
                by (bit_vector);
            lemma_move_once_counts(
                self.width as int,
                self.height as int,
                self.move_pnt.0 as int,
                self.move_pnt.1 as int,
                self.counts(),
                g1 as int,
            );
        }
        self.apply_group(g1);
        self.apply_group(g2);
        self.move_pnt
    }

    /// The visit count of the cell at `pos`.
    pub fn get_cnt(&self, pos: Pos) -> (c: i32)
        requires
            self.wf(),
            self.in_bounds(pos),
        ensures
            c == self.counts()[pos.0 + pos.1 * self.width],
    {
        let idx = self.pos_to_index(pos);
        self.vals[idx]
    }

    /// Render the field as a bordered frame: a border line, one line of
    /// symbols per row, and a border line, each ended by a newline.
    pub fn render(&self) -> (s: String)
        requires
            self.wf(),
        ensures
            s@ == render_spec(self.counts(), self.width as int, self.height as int),
    {
        let ghost w = self.width as int;
        let ghost cs = self.counts();
        let mut out: Vec<char> = Vec::new();
        push_border(&mut out, self.width);
        let mut y: usize = 0;
        while y < self.height
            invariant
                self.wf(),
                y <= self.height,
                w == self.width as int,
                cs == self.counts(),
                out@ == border(w) + rows_up_to(cs, w, y as int),
            decreases self.height - y,
        {
            let ghost row_start = out@;
            out.push('|');
            proof {
                self.lemma_dims();
                assert(out@ =~= row_start + seq!['|'] + row_syms(cs, w, y as int, 0));
            }
            let mut x: usize = 0;
            while x < self.width
                invariant
                    self.wf(),
                    y < self.height,
                    x <= self.width,
                    w == self.width as int,
                    cs == self.counts(),
                    self.width <= i32::MAX,
                    self.height <= i32::MAX,
                    out@ == row_start + seq!['|'] + row_syms(cs, w, y as int, x as int),
                decreases self.width - x,
            {
                let c = self.get_cnt(Pos(x as i32, y as i32));
                out.push(symbol_char(c));
                proof {
                    assert(out@ =~= row_start + seq!['|'] + row_syms(cs, w, y as int, x + 1));
                }
                x += 1;
            }
            out.push('|');
            out.push('\n');
            proof {
                assert(out@ =~= row_start + row_line(cs, w, y as int));
                assert(out@ =~= border(w) + rows_up_to(cs, w, y as int + 1));
            }
            y += 1;
        }
        push_border(&mut out, self.width);
        proof {
            assert(out@ =~= render_spec(cs, w, self.height as int));
        }
        chars_to_string(&out)
    }
}

} // verus!
