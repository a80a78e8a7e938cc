use vstd::prelude::*;
use crate::bitboards::{bit_set, group_bits, get_bit_from_square};

verus! {

broadcast use group_bits;

/// Rank (row) of a square: 0 is white's first rank.
pub open spec fn rank_of(s: int) -> int {
    s / 8
}

/// File (column) index of a square: 0 is the h-file, 7 the a-file.
pub open spec fn file_of(s: int) -> int {
    s % 8
}

pub open spec fn abs_int(x: int) -> int {
    if x < 0 {
        -x
    } else {
        x
    }
}

/// `t` is one king step away from `s`.
pub open spec fn king_step(s: int, t: int) -> bool {
    s != t && abs_int(rank_of(s) - rank_of(t)) <= 1 && abs_int(file_of(s) - file_of(t)) <= 1
}

/// `t` is one knight jump away from `s`.
pub open spec fn knight_step(s: int, t: int) -> bool {
    let dr = abs_int(rank_of(s) - rank_of(t));
    let df = abs_int(file_of(s) - file_of(t));
    (dr == 1 && df == 2) || (dr == 2 && df == 1)
}

/// `s` and `t` share the line of the given axis: 0 the file, 1 the rank,
/// 2 the diagonal, 3 the anti-diagonal.
pub open spec fn same_axis(axis: int, s: int, t: int) -> bool {
    if axis == 0 {
        file_of(s) == file_of(t)
    } else if axis == 1 {
        rank_of(s) == rank_of(t)
    } else if axis == 2 {
        rank_of(s) - file_of(s) == rank_of(t) - file_of(t)
    } else {
        rank_of(s) + file_of(s) == rank_of(t) + file_of(t)
    }
}

pub open spec fn between(a: int, b: int, x: int) -> bool {
    (a <= x && x <= b) || (b <= x && x <= a)
}

/// `u` lies on the straight segment from `s` to `t`, both ends included;
/// never true when `s == t` or when the two squares share no line.
pub open spec fn on_segment(s: int, t: int, u: int) -> bool {
    s != t && (exists|axis: int|
        0 <= axis < 4 && #[trigger] same_axis(axis, s, t) && same_axis(axis, s, u))
        && between(rank_of(s), rank_of(t), rank_of(u)) && between(file_of(s), file_of(t), file_of(u))
}

pub open spec fn min_int(a: int, b: int) -> int {
    if a < b {
        a
    } else {
        b
    }
}

/// Number of squares from `s` to the board's edge in the given direction:
/// north, south, west, east, north-west, north-east, south-west, south-east.
pub open spec fn squares_to_edge(s: int, direction: int) -> int {
    let n = 7 - rank_of(s);
    let so = rank_of(s);
    let w = file_of(s);
    let e = 7 - file_of(s);
    if direction == 0 {
        n
    } else if direction == 1 {
        so
    } else if direction == 2 {
        w
    } else if direction == 3 {
        e
    } else if direction == 4 {
        min_int(n, w)
    } else if direction == 5 {
        min_int(n, e)
    } else if direction == 6 {
        min_int(so, w)
    } else {
        min_int(so, e)
    }
}

/// The step between neighbouring squares in each direction: north, south,
/// west, east, north-west, north-east, south-west, south-east.
pub open spec fn move_offset(direction: int) -> int {
    if direction == 0 {
        8
    } else if direction == 1 {
        -8
    } else if direction == 2 {
        -1
    } else if direction == 3 {
        1
    } else if direction == 4 {
        7
    } else if direction == 5 {
        9
    } else if direction == 6 {
        -9
    } else {
        -7
    }
}

/// Returns the step between neighbouring squares in the given direction.
pub fn get_move_offset(direction_index: usize) -> (r: isize)
    requires
        direction_index < 8,
    ensures
        r == move_offset(direction_index as int),
{
    if direction_index == 0 {
        8
    } else if direction_index == 1 {
        -8
    } else if direction_index == 2 {
        -1
    } else if direction_index == 3 {
        1
    } else if direction_index == 4 {
        7
    } else if direction_index == 5 {
        9
    } else if direction_index == 6 {
        -9
    } else {
        -7
    }
}

/// Returns the rank of the provided square.
pub fn get_rank_from_square(square: usize) -> (r: usize)
    ensures
        r == square / 8,
{
    proof {
        assert(square >> 3 == square / 8) by (bit_vector);
    }
    square >> 3
}

/// Returns the file index of the provided square.
pub fn get_file_from_square(square: usize) -> (r: usize)
    ensures
        r == square % 8,
{
    proof {
        assert(square & 7 == square % 8) by (bit_vector);
    }
    square & 0b111
}

fn abs_diff(a: usize, b: usize) -> (r: usize)
    ensures
        r == abs_int(a - b),
{
    if a < b {
        b - a
    } else {
        a - b
    }
}

fn exec_same_axis(axis: usize, s: usize, t: usize) -> (r: bool)
    requires
        axis < 4,
        s < 64,
        t < 64,
    ensures
        r == same_axis(axis as int, s as int, t as int),
{
    let (rs, fs) = (s / 8, s % 8);
    let (rt, ft) = (t / 8, t % 8);
    if axis == 0 {
        fs == ft
    } else if axis == 1 {
        rs == rt
    } else if axis == 2 {
        rs + ft == rt + fs
    } else {
        rs + fs == rt + ft
    }
}

fn exec_between(a: usize, b: usize, x: usize) -> (r: bool)
    ensures
        r == between(a as int, b as int, x as int),
{
    (a <= x && x <= b) || (b <= x && x <= a)
}

fn exec_on_segment(s: usize, t: usize, u: usize) -> (r: bool)
    requires
        s < 64,
        t < 64,
        u < 64,
    ensures
        r == on_segment(s as int, t as int, u as int),
{
    if s == t {
        return false;
    }
    let mut found = false;
    let mut axis: usize = 0;
    while axis < 4
        invariant
            axis <= 4,
            s < 64,
            t < 64,
            u < 64,
            found == exists|a: int|
                0 <= a < axis && #[trigger] same_axis(a, s as int, t as int) && same_axis(
                    a,
                    s as int,
                    u as int,
                ),
        decreases 4 - axis,
    {
        if exec_same_axis(axis, s, t) && exec_same_axis(axis, s, u) {
            found = true;
        }
        axis += 1;
    }
    found && exec_between(s / 8, t / 8, u / 8) && exec_between(s % 8, t % 8, u % 8)
}

/// Tables computed once and read by the attack calculator and the move generator.
pub struct SquareData {
    /// `squares_to_edge[8 * square + direction]`.
    squares_to_edge: Vec<usize>,
    /// King targets on an empty board, per square.
    king_square_bbs: Vec<u64>,
    /// Knight targets, per square.
    knight_square_bbs: Vec<u64>,
    /// `square_to_square_line_bbs[64 * start + target]`: the inclusive segment, or 0.
    square_to_square_line_bbs: Vec<u64>,
    /// `files_ranks_diagonals[64 * axis + square]`: the full line through the square.
    files_ranks_diagonals: Vec<u64>,
}

impl SquareData {
    /// Every table but the line masks holds what its spec function says.
    pub closed spec fn wf_without_axes(&self) -> bool {
        &&& self.squares_to_edge@.len() == 512
        &&& self.king_square_bbs@.len() == 64
        &&& self.knight_square_bbs@.len() == 64
        &&& self.square_to_square_line_bbs@.len() == 4096
        &&& forall|s: int, d: int|
            0 <= s < 64 && 0 <= d < 8 ==> #[trigger] self.squares_to_edge@[8 * s + d]
                == squares_to_edge(s, d)
        &&& forall|s: int, t: u64|
            0 <= s < 64 && t < 64 ==> (#[trigger] bit_set(self.king_square_bbs@[s], t)
                <==> king_step(s, t as int))
        &&& forall|s: int, t: u64|
            0 <= s < 64 && t < 64 ==> (#[trigger] bit_set(self.knight_square_bbs@[s], t)
                <==> knight_step(s, t as int))
        &&& forall|s: int, t: int, u: u64|
            0 <= s < 64 && 0 <= t < 64 && u < 64 ==> (#[trigger] bit_set(
                self.square_to_square_line_bbs@[64 * s + t],
                u,
            ) <==> on_segment(s, t, u as int))
    }

    /// The line masks hold the full file, rank, diagonal and anti-diagonal of each square.
    pub closed spec fn axes_wf(&self) -> bool {
        &&& self.files_ranks_diagonals@.len() == 256
        &&& forall|a: int, s: int, u: u64|
            0 <= a < 4 && 0 <= s < 64 && u < 64 ==> (#[trigger] bit_set(
                self.files_ranks_diagonals@[64 * a + s],
                u,
            ) <==> same_axis(a, s, u as int))
    }

    /// Every table holds what its spec function says.
    pub open spec fn wf(&self) -> bool {
        self.wf_without_axes() && self.axes_wf()
    }

    /// Builds every table.
    pub fn new() -> (r: SquareData)
        ensures
            r.wf(),
    {
        let squares_to_edge = Self::load_squares_to_edge();
        let mut square_data = SquareData {
            squares_to_edge,
            king_square_bbs: Vec::new(),
            knight_square_bbs: Vec::new(),
            square_to_square_line_bbs: Vec::new(),
            files_ranks_diagonals: Vec::new(),
        };
        square_data.load_king_squares_bb();
        square_data.load_knight_squares_bb();
        square_data.load_lines_bb();
        square_data.load_files_ranks_diagonals();
        square_data
    }

    /// Returns the number of squares from `square` to the edge in the given direction.
    pub fn get_squares_to_edge(&self, square: usize, direction_index: usize) -> (r: usize)
        requires
            self.wf(),
            square < 64,
            direction_index < 8,
        ensures
            r == squares_to_edge(square as int, direction_index as int),
    {
        self.squares_to_edge[8 * square + direction_index]
    }

    /// Returns the king's targets from `square` on an empty board.
    pub fn get_bb_for_king(&self, square: usize) -> (r: u64)
        requires
            self.wf(),
            square < 64,
        ensures
            forall|t: u64| t < 64 ==> (bit_set(r, t) <==> king_step(square as int, t as int)),
    {
        self.king_square_bbs[square]
    }

    /// Returns the knight's targets from `square`.
    pub fn get_bb_for_knight(&self, square: usize) -> (r: u64)
        requires
            self.wf(),
            square < 64,
        ensures
            forall|t: u64| t < 64 ==> (bit_set(r, t) <==> knight_step(square as int, t as int)),
    {
        self.knight_square_bbs[square]
    }

    /// Returns the segment from `start_square` to `target_square`, both included,
    /// or 0 when they share no line.
    pub fn get_bb_line(&self, start_square: usize, target_square: usize) -> (r: u64)
        requires
            self.wf(),
            start_square < 64,
            target_square < 64,
        ensures
            forall|u: u64|
                u < 64 ==> (bit_set(r, u) <==> on_segment(
                    start_square as int,
                    target_square as int,
                    u as int,
                )),
    {
        self.square_to_square_line_bbs[64 * start_square + target_square]
    }

    /// Returns the full file (0), rank (1), diagonal (2) or anti-diagonal (3) through `square`.
    pub fn get_file_rank_diagonal_mask(&self, square: usize, direction_index: usize) -> (r: u64)
        requires
            self.wf(),
            square < 64,
            direction_index < 4,
        ensures
            forall|u: u64|
                u < 64 ==> (bit_set(r, u) <==> same_axis(
                    direction_index as int,
                    square as int,
                    u as int,
                )),
    {
        self.files_ranks_diagonals[64 * direction_index + square]
    }

    fn load_squares_to_edge() -> (r: Vec<usize>)
        ensures
            r@.len() == 512,
            forall|s: int, d: int|
                0 <= s < 64 && 0 <= d < 8 ==> #[trigger] r@[8 * s + d] == squares_to_edge(s, d),
    {
        let mut table: Vec<usize> = Vec::new();
        let mut square: usize = 0;
        while square < 64
            invariant
                square <= 64,
                table@.len() == 8 * square,
                forall|s: int, d: int|
                    0 <= s < square && 0 <= d < 8 ==> #[trigger] table@[8 * s + d]
                        == squares_to_edge(s, d),
            decreases 64 - square,
        {
            let y = square / 8;
            let x = square % 8;
            let to_north = 7 - y;
            let to_south = y;
            let to_west = x;
            let to_east = 7 - x;
            let values: [usize; 8] = [
                to_north,
                to_south,
                to_west,
                to_east,
                if to_north < to_west { to_north } else { to_west },
                if to_north < to_east { to_north } else { to_east },
                if to_south < to_west { to_south } else { to_west },
                if to_south < to_east { to_south } else { to_east },
            ];
            let mut d: usize = 0;
            while d < 8
                invariant
                    d <= 8,
                    square < 64,
                    y == square / 8,
                    x == square % 8,
                    to_north == 7 - y,
                    to_south == y,
                    to_west == x,
                    to_east == 7 - x,
                    values@ == seq![
                        to_north,
                        to_south,
                        to_west,
                        to_east,
                        if to_north < to_west { to_north } else { to_west },
                        if to_north < to_east { to_north } else { to_east },
                        if to_south < to_west { to_south } else { to_west },
                        if to_south < to_east { to_south } else { to_east },
                    ],
                    table@.len() == 8 * square + d,
                    forall|s: int, dd: int|
                        0 <= s < square && 0 <= dd < 8 ==> #[trigger] table@[8 * s + dd]
                            == squares_to_edge(s, dd),
                    forall|dd: int|
                        0 <= dd < d ==> #[trigger] table@[8 * square + dd] == squares_to_edge(
                            square as int,
                            dd,
                        ),
                decreases 8 - d,
            {
                table.push(values[d]);
                d += 1;
            }
            square += 1;
        }
        table
    }

    fn load_king_squares_bb(&mut self)
        ensures
            final(self).squares_to_edge == old(self).squares_to_edge,
            final(self).knight_square_bbs == old(self).knight_square_bbs,
            final(self).square_to_square_line_bbs == old(self).square_to_square_line_bbs,
            final(self).files_ranks_diagonals == old(self).files_ranks_diagonals,
            final(self).king_square_bbs@.len() == 64,
            forall|s: int, t: u64|
                0 <= s < 64 && t < 64 ==> (#[trigger] bit_set(final(self).king_square_bbs@[s], t)
                    <==> king_step(s, t as int)),
    {
        let mut table: Vec<u64> = Vec::new();
        let mut square: usize = 0;
        while square < 64
            invariant
                square <= 64,
                table@.len() == square,
                forall|s: int, t: u64|
                    0 <= s < square && t < 64 ==> (#[trigger] bit_set(table@[s], t) <==> king_step(
                        s,
                        t as int,
                    )),
            decreases 64 - square,
        {
            let mut bb: u64 = 0;
            let mut t: usize = 0;
            while t < 64
                invariant
                    t <= 64,
                    square < 64,
                    forall|u: u64|
                        u < 64 ==> (bit_set(bb, u) <==> (u < t && king_step(
                            square as int,
                            u as int,
                        ))),
                decreases 64 - t,
            {
                if square != t && abs_diff(square / 8, t / 8) <= 1 && abs_diff(square % 8, t % 8)
                    <= 1 {
                    bb = bb | get_bit_from_square(t);
                }
                t += 1;
            }
            table.push(bb);
            square += 1;
        }
        self.king_square_bbs = table;
    }

    fn load_knight_squares_bb(&mut self)
        ensures
            final(self).squares_to_edge == old(self).squares_to_edge,
            final(self).king_square_bbs == old(self).king_square_bbs,
            final(self).square_to_square_line_bbs == old(self).square_to_square_line_bbs,
            final(self).files_ranks_diagonals == old(self).files_ranks_diagonals,
            final(self).knight_square_bbs@.len() == 64,
            forall|s: int, t: u64|
                0 <= s < 64 && t < 64 ==> (#[trigger] bit_set(final(self).knight_square_bbs@[s], t)
                    <==> knight_step(s, t as int)),
    {
        let mut table: Vec<u64> = Vec::new();
        let mut square: usize = 0;
        while square < 64
            invariant
                square <= 64,
                table@.len() == square,
                forall|s: int, t: u64|
                    0 <= s < square && t < 64 ==> (#[trigger] bit_set(table@[s], t)
                        <==> knight_step(s, t as int)),
            decreases 64 - square,
        {
            let mut bb: u64 = 0;
            let mut t: usize = 0;
            while t < 64
                invariant
                    t <= 64,
                    square < 64,
                    forall|u: u64|
                        u < 64 ==> (bit_set(bb, u) <==> (u < t && knight_step(
                            square as int,
                            u as int,
                        ))),
                decreases 64 - t,
            {
                let dr = abs_diff(square / 8, t / 8);
                let df = abs_diff(square % 8, t % 8);
                if (dr == 1 && df == 2) || (dr == 2 && df == 1) {
                    bb = bb | get_bit_from_square(t);
                }
                t += 1;
            }
            table.push(bb);
            square += 1;
        }
        self.knight_square_bbs = table;
    }

    fn load_lines_bb(&mut self)
        ensures
            final(self).squares_to_edge == old(self).squares_to_edge,
            final(self).king_square_bbs == old(self).king_square_bbs,
            final(self).knight_square_bbs == old(self).knight_square_bbs,
            final(self).files_ranks_diagonals == old(self).files_ranks_diagonals,
            final(self).square_to_square_line_bbs@.len() == 4096,
            forall|s: int, t: int, u: u64|
                0 <= s < 64 && 0 <= t < 64 && u < 64 ==> (#[trigger] bit_set(
                    final(self).square_to_square_line_bbs@[64 * s + t],
                    u,
                ) <==> on_segment(s, t, u as int)),
    {
        let mut table: Vec<u64> = Vec::new();
        let mut index: usize = 0;
        while index < 4096
            invariant
                index <= 4096,
                table@.len() == index,
                forall|i: int, u: u64|
                    0 <= i < index && u < 64 ==> (#[trigger] bit_set(table@[i], u) <==> on_segment(
                        i / 64,
                        i % 64,
                        u as int,
                    )),
            decreases 4096 - index,
        {
            let s = index / 64;
            let t = index % 64;
            let mut bb: u64 = 0;
            let mut u: usize = 0;
            while u < 64
                invariant
                    u <= 64,
                    s < 64,
                    t < 64,
                    forall|v: u64|
                        v < 64 ==> (bit_set(bb, v) <==> (v < u && on_segment(
                            s as int,
                            t as int,
                            v as int,
                        ))),
                decreases 64 - u,
            {
                if exec_on_segment(s, t, u) {
                    bb = bb | get_bit_from_square(u);
                }
                u += 1;
            }
            table.push(bb);
            index += 1;
        }
        assert forall|s: int, t: int, u: u64|
            0 <= s < 64 && 0 <= t < 64 && u < 64 implies (#[trigger] bit_set(
            table@[64 * s + t],
            u,
        ) <==> on_segment(s, t, u as int)) by {
            let i = 64 * s + t;
            assert(i / 64 == s && i % 64 == t) by (nonlinear_arith)
                requires
                    i == 64 * s + t,
                    0 <= t < 64,
            ;
        }
        self.square_to_square_line_bbs = table;
    }

    /// Builds the full file, rank, diagonal and anti-diagonal through every square.
    pub fn load_files_ranks_diagonals(&mut self)
        ensures
            final(self).axes_wf(),
            old(self).wf_without_axes() ==> final(self).wf(),
    {
        let mut table: Vec<u64> = Vec::new();
        let mut index: usize = 0;
        while index < 256
            invariant
                index <= 256,
                table@.len() == index,
                forall|i: int, u: u64|
                    0 <= i < index && u < 64 ==> (#[trigger] bit_set(table@[i], u) <==> same_axis(
                        i / 64,
                        i % 64,
                        u as int,
                    )),
            decreases 256 - index,
        {
            let a = index / 64;
            let s = index % 64;
            let mut bb: u64 = 0;
            let mut u: usize = 0;
            while u < 64
                invariant
                    u <= 64,
                    a < 4,
                    s < 64,
                    forall|v: u64|
                        v < 64 ==> (bit_set(bb, v) <==> (v < u && same_axis(
                            a as int,
                            s as int,
                            v as int,
                        ))),
                decreases 64 - u,
            {
                if exec_same_axis(a, s, u) {
                    bb = bb | get_bit_from_square(u);
                }
                u += 1;
            }
            table.push(bb);
            index += 1;
        }
        assert forall|a: int, s: int, u: u64|
            0 <= a < 4 && 0 <= s < 64 && u < 64 implies (#[trigger] bit_set(
            table@[64 * a + s],
            u,
        ) <==> same_axis(a, s, u as int)) by {
            let i = 64 * a + s;
            assert(i / 64 == a && i % 64 == s) by (nonlinear_arith)
                requires
                    i == 64 * a + s,
                    0 <= s < 64,
            ;
        }
        self.files_ranks_diagonals = table;
    }
}

} // verus!
