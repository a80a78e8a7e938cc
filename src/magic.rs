use vstd::prelude::*;
use crate::bitboards::{bit_set, group_bits, get_bit_from_square, lemma_bits_ext};
use crate::square_data::{SquareData, file_of, on_segment, rank_of, same_axis, squares_to_edge};
use crate::bitboards::{pop_count, popcount};

verus! {

broadcast use group_bits;

/// Per square, for bishops and rooks: the relevant occupancy mask, every blocker
/// pattern inside it, and the attack set of each pattern.
pub struct BitboardData {
    /// Indexed by `64 * slider_index + square`.
    pub relevant_occupancies: Vec<u64>,
    /// Every subset of the mask, in increasing order.
    pub blocker_patterns: Vec<Vec<u64>>,
    /// The attack set of each blocker pattern.
    pub pseudo_legal_moves: Vec<Vec<u64>>,
}

/// Index of the bishop tables.
pub const SLIDER_BISHOP_INDEX: usize = 0;
/// Index of the rook tables.
pub const SLIDER_ROOK_INDEX: usize = 1;

/// Returns the piece type of slider index `slider_type_index`: bishop or rook.
pub fn get_slider_type(slider_type_index: usize) -> (r: usize)
    requires
        slider_type_index < 2,
    ensures
        slider_type_index == SLIDER_BISHOP_INDEX ==> r == crate::piece::BISHOP,
        slider_type_index == SLIDER_ROOK_INDEX ==> r == crate::piece::ROOK,
{
    if slider_type_index == SLIDER_BISHOP_INDEX {
        crate::piece::BISHOP
    } else {
        crate::piece::ROOK
    }
}

/// `t` shares a line with `s` along which the slider moves.
pub open spec fn slider_axis(is_rook: bool, s: int, t: int) -> bool {
    if is_rook {
        same_axis(0, s, t) || same_axis(1, s, t)
    } else {
        same_axis(2, s, t) || same_axis(3, s, t)
    }
}

/// A slider on `s` attacks `t` when `occupancy` leaves the squares strictly
/// between them empty.
pub open spec fn slider_attacks(s: int, occupancy: u64, is_rook: bool, t: u64) -> bool {
    &&& t as int != s
    &&& slider_axis(is_rook, s, t as int)
    &&& forall|u: u64|
        u < 64 && #[trigger] on_segment(s, t as int, u as int) && u as int != s && u != t
            ==> !bit_set(occupancy, u)
}

/// The squares whose occupancy can change the attacks of a slider on `s`: its
/// lines without `s` and without the board edge each line runs into.
pub open spec fn relevant_square(s: int, t: int, is_rook: bool) -> bool {
    &&& t != s
    &&& if is_rook {
        (same_axis(0, s, t) && 1 <= rank_of(t) <= 6) || (same_axis(1, s, t) && 1 <= file_of(t)
            <= 6)
    } else {
        slider_axis(false, s, t) && 1 <= rank_of(t) <= 6 && 1 <= file_of(t) <= 6
    }
}

/// `b` has no bit outside `m`.
pub open spec fn subset_of(b: u64, m: u64) -> bool {
    b & !m == 0
}

/// The lookup index that `magic` gives to `blockers`: the relevant blockers
/// times the magic, wrapped to 64 bits, keeping the top `bits` bits.
pub open spec fn magic_index(magic: u64, bits: u64, blockers: u64, relevant_occ: u64) -> u64 {
    (((blockers & relevant_occ) as nat * magic as nat) % 0x1_0000_0000_0000_0000nat) as u64 >> (
    64 - bits) as u64
}

pub proof fn lemma_zero_iff_no_bits(x: u64)
    ensures
        x == 0 <==> forall|u: u64| u < 64 ==> !bit_set(x, u),
{
    if forall|u: u64| u < 64 ==> !bit_set(x, u) {
        assert forall|u: u64| u < 64 implies bit_set(x, u) == bit_set(0u64, u) by {}
        lemma_bits_ext(x, 0u64);
    }
}

proof fn lemma_subset_step(b: u64, m: u64, x: u64)
    by (bit_vector)
    requires
        b & !m == 0,
        x & !m == 0,
        b < x,
    ensures
        b < (b.wrapping_sub(m) & m),
        (b.wrapping_sub(m) & m) <= x,
        (b.wrapping_sub(m) & m) & !m == 0,
{
}

proof fn lemma_subset_le(x: u64, m: u64)
    by (bit_vector)
    requires
        x & !m == 0,
    ensures
        x <= m,
{
}

/// Outside the relevant squares the occupancy does not change a slider's attacks.
pub proof fn lemma_attacks_on_relevant(s: int, occ: u64, mask: u64, is_rook: bool, t: u64)
    requires
        0 <= s < 64,
        t < 64,
        forall|u: u64| u < 64 ==> (bit_set(mask, u) <==> relevant_square(s, u as int, is_rook)),
    ensures
        slider_attacks(s, occ, is_rook, t) == slider_attacks(s, occ & mask, is_rook, t),
{
    if t as int != s && slider_axis(is_rook, s, t as int) {
        assert forall|u: u64|
            u < 64 && #[trigger] on_segment(s, t as int, u as int) && u as int != s && u != t
                implies bit_set(mask, u) by {
            let a = choose|a: int|
                0 <= a < 4 && #[trigger] same_axis(a, s, t as int) && same_axis(a, s, u as int);
            assert(relevant_square(s, u as int, is_rook));
        }
    }
}

/// Returns the relevant occupancy mask of a slider on `square`.
pub fn generate_relevant_occupancy(square: usize, is_rook: bool) -> (r: u64)
    requires
        square < 64,
    ensures
        forall|t: u64| t < 64 ==> (bit_set(r, t) <==> relevant_square(square as int, t as int, is_rook)),
{
    let rs = square / 8;
    let fs = square % 8;
    let mut bb: u64 = 0;
    let mut t: usize = 0;
    while t < 64
        invariant
            t <= 64,
            square < 64,
            rs == square / 8,
            fs == square % 8,
            forall|u: u64|
                u < 64 ==> (bit_set(bb, u) <==> (u < t && relevant_square(
                    square as int,
                    u as int,
                    is_rook,
                ))),
        decreases 64 - t,
    {
        let rt = t / 8;
        let ft = t % 8;
        let inner_rank = 1 <= rt && rt <= 6;
        let inner_file = 1 <= ft && ft <= 6;
        let relevant = if is_rook {
            (fs == ft && inner_rank) || (rs == rt && inner_file)
        } else {
            (rs + ft == rt + fs || rs + fs == rt + ft) && inner_rank && inner_file
        };
        if t != square && relevant {
            bb = bb | get_bit_from_square(t);
        }
        t += 1;
    }
    bb
}

/// Returns the attacks of a slider on `square` for the given occupancy.
pub fn slider_attack_bb(square_data: &SquareData, square: usize, occupancy: u64, is_rook: bool) -> (r: u64)
    requires
        square_data.wf(),
        square < 64,
    ensures
        forall|t: u64| t < 64 ==> (bit_set(r, t) <==> slider_attacks(square as int, occupancy, is_rook, t)),
{
    let rs = square / 8;
    let fs = square % 8;
    let start_bit = get_bit_from_square(square);
    let mut bb: u64 = 0;
    let mut t: usize = 0;
    while t < 64
        invariant
            t <= 64,
            square < 64,
            square_data.wf(),
            rs == square / 8,
            fs == square % 8,
            start_bit == 1u64 << square as u64,
            forall|u: u64|
                u < 64 ==> (bit_set(bb, u) <==> (u < t && slider_attacks(
                    square as int,
                    occupancy,
                    is_rook,
                    u,
                ))),
        decreases 64 - t,
    {
        let rt = t / 8;
        let ft = t % 8;
        let on_axis = if is_rook {
            fs == ft || rs == rt
        } else {
            rs + ft == rt + fs || rs + fs == rt + ft
        };
        if t != square && on_axis {
            let line = square_data.get_bb_line(square, t);
            let target_bit = get_bit_from_square(t);
            let between = line & !start_bit & !target_bit & occupancy;
            proof {
                lemma_zero_iff_no_bits(between);
                assert forall|u: u64| u < 64 implies (bit_set(between, u) <==> (on_segment(
                    square as int,
                    t as int,
                    u as int,
                ) && u != square && u != t && bit_set(occupancy, u))) by {}
            }
            if between == 0 {
                bb = bb | target_bit;
            } else {
                proof {
                    let u = choose|u: u64| u < 64 && bit_set(between, u);
                    assert(bit_set(between, u));
                }
            }
        }
        t += 1;
    }
    bb
}

/// Returns every subset of `relevant_occ`, in increasing order.
pub fn generate_blocker_combinations(relevant_occ: u64) -> (r: Vec<u64>)
    ensures
        forall|i: int| 0 <= i < r@.len() ==> subset_of(#[trigger] r@[i], relevant_occ),
        forall|x: u64| subset_of(x, relevant_occ) ==> r@.contains(x),
        forall|i: int, j: int| 0 <= i < j < r@.len() ==> #[trigger] r@[i] < #[trigger] r@[j],
{
    let m = relevant_occ;
    let mut list: Vec<u64> = Vec::new();
    let mut b: u64 = 0;
    let mut done = false;
    assert(0u64 & !m == 0) by (bit_vector);
    while !done
        invariant
            subset_of(b, m),
            forall|i: int| 0 <= i < list@.len() ==> subset_of(#[trigger] list@[i], m),
            !done ==> forall|x: u64| subset_of(x, m) && x < b ==> list@.contains(x),
            done ==> forall|x: u64| subset_of(x, m) ==> list@.contains(x),
            forall|i: int, j: int| 0 <= i < j < list@.len() ==> #[trigger] list@[i] < #[trigger] list@[j],
            !done ==> forall|i: int| 0 <= i < list@.len() ==> #[trigger] list@[i] < b,
        decreases (if done { 0 } else { m - b + 1 }),
    {
        proof {
            lemma_subset_le(b, m);
        }
        let ghost old_list = list@;
        list.push(b);
        assert(list@[list@.len() - 1] == b);
        assert forall|x: u64| old_list.contains(x) implies list@.contains(x) by {
            let i = choose|i: int| 0 <= i < old_list.len() && old_list[i] == x;
            assert(list@[i] == x);
        }
        if b == m {
            done = true;
            assert forall|x: u64| subset_of(x, m) implies list@.contains(x) by {
                lemma_subset_le(x, m);
            }
        } else {
            let next = b.wrapping_sub(m) & m;
            proof {
                lemma_subset_le(b, m);
                assert(m & !m == 0) by (bit_vector);
                lemma_subset_step(b, m, m);
                assert forall|x: u64| subset_of(x, m) && x < next implies list@.contains(x) by {
                    if b < x {
                        lemma_subset_step(b, m, x);
                    }
                }
            }
            b = next;
        }
    }
    list
}


impl BitboardData {
    /// Every table holds what its spec function says.
    pub open spec fn wf(&self) -> bool {
        &&& self.relevant_occupancies@.len() == 128
        &&& self.blocker_patterns@.len() == 128
        &&& self.pseudo_legal_moves@.len() == 128
        &&& forall|k: int, u: u64|
            0 <= k < 128 && u < 64 ==> (#[trigger] bit_set(self.relevant_occupancies@[k], u)
                <==> relevant_square(k % 64, u as int, k >= 64))
        &&& forall|k: int, i: int|
            0 <= k < 128 && 0 <= i < self.blocker_patterns@[k]@.len() ==> subset_of(
                #[trigger] self.blocker_patterns@[k]@[i],
                self.relevant_occupancies@[k],
            )
        &&& forall|k: int, x: u64|
            0 <= k < 128 && subset_of(x, self.relevant_occupancies@[k])
                ==> #[trigger] self.blocker_patterns@[k]@.contains(x)
        &&& forall|k: int, i: int, j: int|
            0 <= k < 128 && 0 <= i < j < self.blocker_patterns@[k]@.len() ==> #[trigger] self.blocker_patterns@[k]@[i]
                < #[trigger] self.blocker_patterns@[k]@[j]
        &&& forall|k: int|
            0 <= k < 128 ==> #[trigger] self.pseudo_legal_moves@[k]@.len()
                == self.blocker_patterns@[k]@.len()
        &&& forall|k: int, i: int, t: u64|
            0 <= k < 128 && 0 <= i < self.blocker_patterns@[k]@.len() && t < 64 ==> (
            #[trigger] bit_set(self.pseudo_legal_moves@[k]@[i], t) <==> slider_attacks(
                k % 64,
                self.blocker_patterns@[k]@[i],
                k >= 64,
                t,
            ))
    }

    /// The blocker patterns of table `k` (`64 * slider_index + square`) hash
    /// without a destructive collision under `magic` and `bits`.
    pub open spec fn magic_works(&self, k: int, magic: u64, bits: u64) -> bool {
        let p = self.blocker_patterns@[k]@;
        let a = self.pseudo_legal_moves@[k]@;
        let m = self.relevant_occupancies@[k];
        1 <= bits <= 20 && !(exists|i: int, j: int|
            0 <= i < p.len() && 0 <= j < p.len() && magic_index(magic, bits, p[i], m)
                == magic_index(magic, bits, p[j], m) && a[i] != a[j])
    }

    /// Builds the masks, blocker patterns and attack sets of every square, for
    /// bishops and rooks.
    pub fn new(square_data: &SquareData) -> (r: BitboardData)
        requires
            square_data.wf(),
        ensures
            r.wf(),
    {
        let mut relevant_occupancies: Vec<u64> = Vec::new();
        let mut blocker_patterns: Vec<Vec<u64>> = Vec::new();
        let mut pseudo_legal_moves: Vec<Vec<u64>> = Vec::new();
        let mut k: usize = 0;
        while k < 128
            invariant
                k <= 128,
                square_data.wf(),
                relevant_occupancies@.len() == k,
                blocker_patterns@.len() == k,
                pseudo_legal_moves@.len() == k,
                forall|kk: int, u: u64|
                    0 <= kk < k && u < 64 ==> (#[trigger] bit_set(relevant_occupancies@[kk], u)
                        <==> relevant_square(kk % 64, u as int, kk >= 64)),
                forall|kk: int, i: int|
                    0 <= kk < k && 0 <= i < blocker_patterns@[kk]@.len() ==> subset_of(
                        #[trigger] blocker_patterns@[kk]@[i],
                        relevant_occupancies@[kk],
                    ),
                forall|kk: int, x: u64|
                    0 <= kk < k && subset_of(x, relevant_occupancies@[kk])
                        ==> #[trigger] blocker_patterns@[kk]@.contains(x),
                forall|kk: int, i: int, j: int|
                    0 <= kk < k && 0 <= i < j < blocker_patterns@[kk]@.len() ==> #[trigger] blocker_patterns@[kk]@[i]
                        < #[trigger] blocker_patterns@[kk]@[j],
                forall|kk: int|
                    0 <= kk < k ==> #[trigger] pseudo_legal_moves@[kk]@.len()
                        == blocker_patterns@[kk]@.len(),
                forall|kk: int, i: int, t: u64|
                    0 <= kk < k && 0 <= i < blocker_patterns@[kk]@.len() && t < 64 ==> (
                    #[trigger] bit_set(pseudo_legal_moves@[kk]@[i], t) <==> slider_attacks(
                        kk % 64,
                        blocker_patterns@[kk]@[i],
                        kk >= 64,
                        t,
                    )),
            decreases 128 - k,
        {
            let square = k % 64;
            let is_rook = k >= 64;
            let mask = generate_relevant_occupancy(square, is_rook);
            let patterns = generate_blocker_combinations(mask);
            let moves = generate_pseudo_legal_move_combinations(square_data, square, &patterns, is_rook);
            relevant_occupancies.push(mask);
            blocker_patterns.push(patterns);
            pseudo_legal_moves.push(moves);
            k += 1;
        }
        BitboardData { relevant_occupancies, blocker_patterns, pseudo_legal_moves }
    }

    /// Returns every blocker pattern of a slider on `square`: the distinct
    /// subsets of its relevant occupancy mask, in increasing order.
    pub fn get_blocker_patterns(&self, square: usize, slider_index: usize) -> (r: &Vec<u64>)
        requires
            self.wf(),
            square < 64,
            slider_index < 2,
        ensures
            r@ == self.blocker_patterns@[64 * slider_index + square]@,
    {
        &self.blocker_patterns[64 * slider_index + square]
    }

    /// Returns the attack set of each blocker pattern of a slider on `square`.
    pub fn get_pseudo_legal_moves(&self, square: usize, slider_index: usize) -> (r: &Vec<u64>)
        requires
            self.wf(),
            square < 64,
            slider_index < 2,
        ensures
            r@ == self.pseudo_legal_moves@[64 * slider_index + square]@,
    {
        &self.pseudo_legal_moves[64 * slider_index + square]
    }

    /// Returns the relevant occupancy mask of a slider on `square`.
    pub fn get_relevant_occupancy(&self, square: usize, slider_index: usize) -> (r: u64)
        requires
            self.wf(),
            square < 64,
            slider_index < 2,
        ensures
            forall|t: u64|
                t < 64 ==> (bit_set(r, t) <==> relevant_square(
                    square as int,
                    t as int,
                    slider_index == SLIDER_ROOK_INDEX,
                )),
    {
        let k = 64 * slider_index + square;
        let r = self.relevant_occupancies[k];
        assert(k % 64 == square as int && (k >= 64) == (slider_index == SLIDER_ROOK_INDEX));
        assert forall|t: u64| t < 64 implies (bit_set(r, t) <==> relevant_square(
            square as int,
            t as int,
            slider_index == SLIDER_ROOK_INDEX,
        )) by {
            assert(bit_set(self.relevant_occupancies@[k as int], t) <==> relevant_square(
                k as int % 64,
                t as int,
                k >= 64,
            ));
        }
        r
    }
}

/// Returns the attack set of a slider on `square` for each blocker pattern.
pub fn generate_pseudo_legal_move_combinations(
    square_data: &SquareData,
    square: usize,
    blocker_combinations: &Vec<u64>,
    is_rook: bool,
) -> (r: Vec<u64>)
    requires
        square_data.wf(),
        square < 64,
    ensures
        r@.len() == blocker_combinations@.len(),
        forall|i: int, t: u64|
            0 <= i < r@.len() && t < 64 ==> (#[trigger] bit_set(r@[i], t) <==> slider_attacks(
                square as int,
                blocker_combinations@[i],
                is_rook,
                t,
            )),
{
    let mut moves: Vec<u64> = Vec::new();
    let mut i: usize = 0;
    while i < blocker_combinations.len()
        invariant
            i <= blocker_combinations@.len(),
            square_data.wf(),
            square < 64,
            moves@.len() == i,
            forall|j: int, t: u64|
                0 <= j < i && t < 64 ==> (#[trigger] bit_set(moves@[j], t) <==> slider_attacks(
                    square as int,
                    blocker_combinations@[j],
                    is_rook,
                    t,
                )),
        decreases blocker_combinations@.len() - i,
    {
        let a = slider_attack_bb(square_data, square, blocker_combinations[i], is_rook);
        moves.push(a);
        i += 1;
    }
    moves
}

/// Returns the lookup index of `blockers` for the given magic and number of index bits.
pub fn generate_lookup_table_index(magic: u64, bits_to_shift: usize, blockers: u64, relevant_occ: u64) -> (r: usize)
    requires
        1 <= bits_to_shift <= 32,
    ensures
        r as u64 == magic_index(magic, bits_to_shift as u64, blockers, relevant_occ),
        (r as u64) < 1u64 << bits_to_shift as u64,
{
    let product = (blockers & relevant_occ).wrapping_mul(magic);
    let k = bits_to_shift as u64;
    let index = product >> (64 - k);
    proof {
        assert(index < 1u64 << k) by (bit_vector)
            requires
                index == product >> (64 - k) as u64,
                1 <= k < 64,
        ;
        assert(index < 0x1_0000_0000u64) by (bit_vector)
            requires
                index == product >> (64 - k) as u64,
                1 <= k <= 32,
        ;
    }
    index as usize
}


/// Hashes every blocker pattern of table `k` (`64 * slider_index + square`)
/// with `magic`, keeping `bits` bits, and returns the filled lookup table, or
/// `None` when two patterns with different attack sets share an index.
pub fn validate_magic_number(bitboard_data: &BitboardData, k: usize, magic: u64, bits: usize) -> (r: Option<Vec<u64>>)
    requires
        bitboard_data.wf(),
        k < 128,
    ensures
        r.is_some() == bitboard_data.magic_works(k as int, magic, bits as u64),
        r matches Some(t) ==> table_filled(bitboard_data, k as int, magic, bits as u64, t@),
{
    if bits < 1 || bits > 20 {
        return None;
    }
    let patterns = &bitboard_data.blocker_patterns[k];
    let moves = &bitboard_data.pseudo_legal_moves[k];
    let mask = bitboard_data.relevant_occupancies[k];
    let ghost p = patterns@;
    let ghost a = moves@;
    let size: usize = 1usize << bits;
    assert(size == 1u64 << bits as u64) by {
        assert((1usize << bits) as u64 == 1u64 << bits as u64) by (bit_vector)
            requires
                1 <= bits <= 20,
        ;
    }
    let mut table: Vec<u64> = Vec::new();
    let mut used: Vec<bool> = Vec::new();
    let mut x: usize = 0;
    while x < size
        invariant
            x <= size,
            table@.len() == x,
            used@.len() == x,
            forall|y: int| 0 <= y < x ==> !#[trigger] used@[y],
        decreases size - x,
    {
        table.push(0);
        used.push(false);
        x += 1;
    }
    assert forall|j: int| 0 <= j < p.len() implies #[trigger] magic_index(magic, bits as u64, p[j], mask) < size by {
        lemma_magic_index_bound(magic, bits as u64, p[j], mask);
    }
    let mut i: usize = 0;
    while i < patterns.len()
        invariant
            forall|j: int| 0 <= j < p.len() ==> #[trigger] magic_index(magic, bits as u64, p[j], mask) < size,
            bitboard_data.wf(),
            k < 128,
            1 <= bits <= 20,
            p == bitboard_data.blocker_patterns@[k as int]@,
            a == bitboard_data.pseudo_legal_moves@[k as int]@,
            mask == bitboard_data.relevant_occupancies@[k as int],
            patterns@ == p,
            moves@ == a,
            a.len() == p.len(),
            i <= p.len(),
            size == 1u64 << bits as u64,
            table@.len() == size,
            used@.len() == size,
            forall|j: int|
                0 <= j < i ==> used@[magic_index(magic, bits as u64, #[trigger] p[j], mask) as int]
                    && table@[magic_index(magic, bits as u64, p[j], mask) as int] == a[j],
            forall|y: int|
                0 <= y < size && #[trigger] used@[y] ==> exists|j: int|
                    0 <= j < i && magic_index(magic, bits as u64, p[j], mask) == y && table@[y]
                        == a[j],
            forall|j1: int, j2: int|
                0 <= j1 < i && 0 <= j2 < i && magic_index(magic, bits as u64, #[trigger] p[j1], mask)
                    == magic_index(magic, bits as u64, #[trigger] p[j2], mask) ==> a[j1] == a[j2],
        decreases p.len() - i,
    {
        let index = generate_lookup_table_index(magic, bits, patterns[i], mask);
        let attack = moves[i];
        if used[index] && table[index] != attack {
            proof {
                let j = choose|j: int|
                    0 <= j < i && magic_index(magic, bits as u64, p[j], mask) == index && table@[index as int]
                        == a[j];
                assert(magic_index(magic, bits as u64, p[j], mask) == magic_index(
                    magic,
                    bits as u64,
                    p[i as int],
                    mask,
                ) && a[j] != a[i as int]);
            }
            return None;
        }
        proof {
            if used@[index as int] {
                let j = choose|j: int|
                    0 <= j < i && magic_index(magic, bits as u64, p[j], mask) == index && table@[index as int]
                        == a[j];
                assert(a[j] == a[i as int]);
            }
            assert forall|j: int|
                0 <= j < i && magic_index(magic, bits as u64, p[j], mask) == index implies a[j] == a[i as int] by {
                assert(used@[magic_index(magic, bits as u64, p[j], mask) as int]);
                assert(table@[magic_index(magic, bits as u64, p[j], mask) as int] == a[j]);
            }
        }
        table.set(index, attack);
        used.set(index, true);
        i += 1;
    }
    proof {
        assert forall|j: int| 0 <= j < p.len() implies #[trigger] table@[magic_index(
            magic,
            bits as u64,
            p[j],
            mask,
        ) as int] == a[j] by {
            assert(used@[magic_index(magic, bits as u64, p[j], mask) as int]);
        }
    }
    Some(table)
}

pub proof fn lemma_magic_index_bound(magic: u64, bits: u64, blockers: u64, relevant_occ: u64)
    requires
        1 <= bits <= 20,
    ensures
        magic_index(magic, bits, blockers, relevant_occ) < (1u64 << bits),
{
    let prod = (((blockers & relevant_occ) as nat * magic as nat) % 0x1_0000_0000_0000_0000nat) as u64;
    assert((prod >> ((64 - bits) as u64)) < (1u64 << bits)) by (bit_vector)
        requires
            1 <= bits <= 20,
    ;
}

/// `t` holds, at the index of each blocker pattern of table `k`, that pattern's
/// attack set.
pub closed spec fn table_filled(bitboard_data: &BitboardData, k: int, magic: u64, bits: u64, t: Seq<u64>) -> bool {
    let p = bitboard_data.blocker_patterns@[k]@;
    let a = bitboard_data.pseudo_legal_moves@[k]@;
    let m = bitboard_data.relevant_occupancies@[k];
    &&& 1 <= bits <= 20
    &&& t.len() == 1u64 << bits
    &&& forall|j: int|
        0 <= j < p.len() ==> #[trigger] t[magic_index(magic, bits, p[j], m) as int] == a[j]
}

/// The bits of `b` are the attacks of a slider on `s` for `occupancy`.
pub open spec fn is_attack_set(b: u64, s: int, occupancy: u64, is_rook: bool) -> bool {
    forall|t: u64| t < 64 ==> (bit_set(b, t) <==> slider_attacks(s, occupancy, is_rook, t))
}

/// A filled table answers every occupancy with the slider's attack set.
proof fn lemma_table_answers(bitboard_data: &BitboardData, k: int, magic: u64, bits: u64, t: Seq<u64>, occ: u64)
    requires
        bitboard_data.wf(),
        0 <= k < 128,
        table_filled(bitboard_data, k, magic, bits, t),
    ensures
        0 <= magic_index(magic, bits, occ, bitboard_data.relevant_occupancies@[k]) < t.len(),
        is_attack_set(
            t[magic_index(magic, bits, occ, bitboard_data.relevant_occupancies@[k]) as int],
            k % 64,
            occ,
            k >= 64,
        ),
{
    let m = bitboard_data.relevant_occupancies@[k];
    let p = bitboard_data.blocker_patterns@[k]@;
    let x = occ & m;
    assert((occ & m) & !m == 0) by (bit_vector);
    assert(p.contains(x));
    let i = choose|i: int| 0 <= i < p.len() && p[i] == x;
    assert((x & m) == (occ & m)) by (bit_vector)
        requires
            x == occ & m,
    ;
    assert(magic_index(magic, bits, x, m) == magic_index(magic, bits, occ, m));
    let idx = magic_index(magic, bits, occ, m);
    let prod = (((occ & m) as nat * magic as nat) % 0x1_0000_0000_0000_0000nat) as u64;
    assert((prod >> ((64 - bits) as u64)) < (1u64 << bits)) by (bit_vector)
        requires
            1 <= bits <= 20,
    ;
    assert(t[idx as int] == bitboard_data.pseudo_legal_moves@[k]@[i]);
    assert forall|u: u64| u < 64 implies (bit_set(t[idx as int], u) <==> slider_attacks(
        k % 64,
        occ,
        k >= 64,
        u,
    )) by {
        assert(bit_set(bitboard_data.pseudo_legal_moves@[k]@[i], u) <==> slider_attacks(
            k % 64,
            p[i],
            k >= 64,
            u,
        ));
        assert forall|w: u64| w < 64 implies (bit_set(m, w) <==> relevant_square(
            k % 64,
            w as int,
            k >= 64,
        )) by {
            assert(bit_set(m, w) <==> relevant_square(k % 64, w as int, k >= 64));
        }
        lemma_attacks_on_relevant(k % 64, occ, m, k >= 64, u);
    }
}

/// Magic lookup tables of one slider kind for all 64 squares.
pub struct MagicLookupTable {
    slider_index: usize,
    masks: Vec<u64>,
    magics: Vec<u64>,
    bits: Vec<usize>,
    tables: Vec<Vec<u64>>,
}

impl MagicLookupTable {
    pub closed spec fn is_rook(&self) -> bool {
        self.slider_index == SLIDER_ROOK_INDEX
    }

    /// Each square's table answers every occupancy with the attack set.
    pub closed spec fn wf(&self) -> bool {
        &&& self.slider_index < 2
        &&& self.masks@.len() == 64
        &&& self.magics@.len() == 64
        &&& self.bits@.len() == 64
        &&& self.tables@.len() == 64
        &&& forall|s: int|
            0 <= s < 64 ==> 1 <= #[trigger] self.bits@[s] <= 20 && self.tables@[s]@.len() == 1u64
                << self.bits@[s] as u64
        &&& forall|s: int, occ: u64|
            0 <= s < 64 ==> 0 <= #[trigger] magic_index(
                self.magics@[s],
                self.bits@[s] as u64,
                occ,
                self.masks@[s],
            ) < self.tables@[s]@.len() && is_attack_set(
                self.tables@[s]@[magic_index(
                    self.magics@[s],
                    self.bits@[s] as u64,
                    occ,
                    self.masks@[s],
                ) as int],
                s,
                occ,
                self.slider_index == SLIDER_ROOK_INDEX,
            )
    }

    /// Builds the tables of slider `slider_index` from one magic and one index
    /// width per square; `None` when some magic does not hash its square's
    /// blocker patterns.
    pub fn new(bitboard_data: &BitboardData, slider_index: usize, magics: &Vec<u64>, bits: &Vec<usize>) -> (r: Option<MagicLookupTable>)
        requires
            bitboard_data.wf(),
            slider_index < 2,
            magics@.len() == 64,
            bits@.len() == 64,
        ensures
            r.is_some() == forall|s: int|
                0 <= s < 64 ==> bitboard_data.magic_works(
                    64 * slider_index + s,
                    #[trigger] magics@[s],
                    bits@[s] as u64,
                ),
            r matches Some(t) ==> t.wf() && t.is_rook() == (slider_index == SLIDER_ROOK_INDEX),
    {
        let mut masks: Vec<u64> = Vec::new();
        let mut tables: Vec<Vec<u64>> = Vec::new();
        let mut square: usize = 0;
        while square < 64
            invariant
                square <= 64,
                bitboard_data.wf(),
                slider_index < 2,
                magics@.len() == 64,
                bits@.len() == 64,
                masks@.len() == square,
                tables@.len() == square,
                forall|s: int|
                    0 <= s < square ==> bitboard_data.magic_works(
                        64 * slider_index + s,
                        #[trigger] magics@[s],
                        bits@[s] as u64,
                    ),
                forall|s: int|
                    0 <= s < square ==> #[trigger] masks@[s] == bitboard_data.relevant_occupancies@[64
                        * slider_index + s] && table_filled(
                        bitboard_data,
                        64 * slider_index + s,
                        magics@[s],
                        bits@[s] as u64,
                        tables@[s]@,
                    ),
            decreases 64 - square,
        {
            let k = 64 * slider_index + square;
            match validate_magic_number(bitboard_data, k, magics[square], bits[square]) {
                Some(table) => {
                    masks.push(bitboard_data.relevant_occupancies[k]);
                    tables.push(table);
                },
                None => {
                    return None;
                },
            }
            square += 1;
        }
        let r = MagicLookupTable {
            slider_index,
            masks,
            magics: magics.clone(),
            bits: bits.clone(),
            tables,
        };
        proof {
            assert(r.magics@ == magics@);
            assert(r.bits@ == bits@);
            assert forall|s: int|
                0 <= s < 64 implies 1 <= #[trigger] r.bits@[s] <= 20 && r.tables@[s]@.len() == 1u64
                << r.bits@[s] as u64 by {
                assert(masks@[s] == bitboard_data.relevant_occupancies@[64 * slider_index + s]);
                assert(table_filled(bitboard_data, 64 * slider_index + s, magics@[s], bits@[s] as u64, tables@[s]@));
            }
            assert forall|s: int, occ: u64|
                0 <= s < 64 implies 0 <= #[trigger] magic_index(
                r.magics@[s],
                r.bits@[s] as u64,
                occ,
                r.masks@[s],
            ) < r.tables@[s]@.len() && is_attack_set(
                r.tables@[s]@[magic_index(r.magics@[s], r.bits@[s] as u64, occ, r.masks@[s]) as int],
                s,
                occ,
                r.slider_index == SLIDER_ROOK_INDEX,
            ) by {
                let k = 64 * slider_index + s;
                assert(masks@[s] == bitboard_data.relevant_occupancies@[k]);
                lemma_table_answers(bitboard_data, k, magics@[s], bits@[s] as u64, tables@[s]@, occ);
                assert(k % 64 == s && (k >= 64) == (slider_index == SLIDER_ROOK_INDEX));
            }
        }
        Some(r)
    }

    /// Returns the attacks of the slider on `square` for the occupancy `blockers`.
    pub fn get_pseudo_legal_move_bb(&self, square: usize, blockers: u64) -> (r: u64)
        requires
            self.wf(),
            square < 64,
        ensures
            is_attack_set(r, square as int, blockers, self.is_rook()),
    {
        let index = generate_lookup_table_index(
            self.magics[square],
            self.bits[square],
            blockers,
            self.masks[square],
        );
        assert(0 <= magic_index(
            self.magics@[square as int],
            self.bits@[square as int] as u64,
            blockers,
            self.masks@[square as int],
        ) < self.tables@[square as int]@.len());
        self.tables[square][index]
    }
}

/// Relies on rand::rng and rand::RngCore::next_u64: a word from the
/// thread-local generator; nothing is known of its value.
#[verifier::external_body]
fn random_u64() -> (r: u64) {
    rand::RngCore::next_u64(&mut rand::rng())
}

/// A random 64-bit word assembled from four 16-bit pieces.
fn generate_random_number() -> (r: u64) {
    let a = random_u64() & 0xFFFF;
    let b = random_u64() & 0xFFFF;
    let c = random_u64() & 0xFFFF;
    let d = random_u64() & 0xFFFF;
    a | (b << 16u64) | (c << 32u64) | (d << 48u64)
}

/// A magic candidate: three random words and-ed together, which favours
/// candidates with few set bits.
fn generate_magic_candidate() -> (r: u64) {
    generate_random_number() & generate_random_number() & generate_random_number()
}

/// Draws magic candidates for table `k` (`64 * slider_index + square`) until
/// one hashes the square's blocker patterns with `bits` index bits, giving up
/// after `max_attempts` draws.
pub fn generate_magic_number(bitboard_data: &BitboardData, k: usize, bits: usize, max_attempts: u64) -> (r: Option<u64>)
    requires
        bitboard_data.wf(),
        k < 128,
    ensures
        r matches Some(m) ==> bitboard_data.magic_works(k as int, m, bits as u64),
{
    let mut attempt: u64 = 0;
    while attempt < max_attempts
        invariant
            bitboard_data.wf(),
            k < 128,
        decreases max_attempts - attempt,
    {
        let candidate = generate_magic_candidate();
        if validate_magic_number(bitboard_data, k, candidate, bits).is_some() {
            return Some(candidate);
        }
        attempt += 1;
    }
    None
}

/// Finds a magic for every square of slider `slider_index`, with the given index widths.
pub fn generate_all_magics(bitboard_data: &BitboardData, slider_index: usize, bits: &Vec<usize>, max_attempts: u64) -> (r: Option<Vec<u64>>)
    requires
        bitboard_data.wf(),
        slider_index < 2,
        bits@.len() == 64,
    ensures
        r matches Some(m) ==> m@.len() == 64 && forall|s: int|
            0 <= s < 64 ==> bitboard_data.magic_works(
                64 * slider_index + s,
                #[trigger] m@[s],
                bits@[s] as u64,
            ),
{
    let mut magics: Vec<u64> = Vec::new();
    let mut square: usize = 0;
    while square < 64
        invariant
            square <= 64,
            bitboard_data.wf(),
            slider_index < 2,
            bits@.len() == 64,
            magics@.len() == square,
            forall|s: int|
                0 <= s < square ==> bitboard_data.magic_works(
                    64 * slider_index + s,
                    #[trigger] magics@[s],
                    bits@[s] as u64,
                ),
        decreases 64 - square,
    {
        match generate_magic_number(bitboard_data, 64 * slider_index + square, bits[square], max_attempts) {
            Some(m) => magics.push(m),
            None => {
                return None;
            },
        }
        square += 1;
    }
    Some(magics)
}

/// Known-good bishop magics, as a sequence.
pub open spec fn bishop_magic_numbers() -> Seq<u64> {
    seq![0x410501010802046u64, 0x2900210a400820au64, 0x122480044801500u64, 0x1930918204810000u64, 0x254042100000101u64, 0x90c0240480004u64, 0x24042105100212u64, 0x800402c10080400u64, 0x20200842408400u64, 0x805200852008027u64, 0x202512802204050u64, 0x5080082080200400u64, 0x2000c40420888202u64, 0x8203008820084014u64, 0x20a808080400u64, 0xa020c8241182029u64, 0x22200040480200a0u64, 0x2022004012210u64, 0x2000108010103u64, 0x4020400401042000u64, 0x10c000a22a00000u64, 0x122a01c108010446u64, 0x411010d180288u64, 0x2a0084010801u64, 0x414404020280180u64, 0x10840b0010100d02u64, 0xc0440400c0490020u64, 0x40410008010900u64, 0x1040002002100u64, 0x10808a012018410u64, 0x801010812089044u64, 0x804059304220110u64, 0x21004a0102010u64, 0x1143010202180u64, 0x440200900020u64, 0x20100821040400u64, 0x1010120020060028u64, 0xa1000a020220200u64, 0x20b020a100008402u64, 0x604010218004040u64, 0x1842101084000a10u64, 0x41041480800200cu64, 0xc000101804000805u64, 0x8284282104002040u64, 0x2042200208810c04u64, 0x2018500040900200u64, 0x8045100400400100u64, 0xe1510102100504u64, 0x80444220100008u64, 0x8004410801110000u64, 0x48020a090c884144u64, 0x606414084040011u64, 0x420002008504091u64, 0x2200205481021000u64, 0x8020021001010600u64, 0x5008128806022000u64, 0x2020104020202c0u64, 0x86100a020202021du64, 0x25020100611001u64, 0x1020440000420204u64, 0x4200100010021a02u64, 0x601004004480080u64, 0x40810140092u64, 0x8450040f040050u64]
}

/// Known-good bishop magics, one per square.
pub fn default_bishop_magics() -> (r: Vec<u64>)
    ensures
        r@.len() == 64,
        r@ == bishop_magic_numbers(),
{
    let r: Vec<u64> = 
    vec![
        0x410501010802046, 0x2900210a400820a, 0x122480044801500, 0x1930918204810000,
        0x254042100000101, 0x90c0240480004, 0x24042105100212, 0x800402c10080400,
        0x20200842408400, 0x805200852008027, 0x202512802204050, 0x5080082080200400,
        0x2000c40420888202, 0x8203008820084014, 0x20a808080400, 0xa020c8241182029,
        0x22200040480200a0, 0x2022004012210, 0x2000108010103, 0x4020400401042000,
        0x10c000a22a00000, 0x122a01c108010446, 0x411010d180288, 0x2a0084010801,
        0x414404020280180, 0x10840b0010100d02, 0xc0440400c0490020, 0x40410008010900,
        0x1040002002100, 0x10808a012018410, 0x801010812089044, 0x804059304220110,
        0x21004a0102010, 0x1143010202180, 0x440200900020, 0x20100821040400,
        0x1010120020060028, 0xa1000a020220200, 0x20b020a100008402, 0x604010218004040,
        0x1842101084000a10, 0x41041480800200c, 0xc000101804000805, 0x8284282104002040,
        0x2042200208810c04, 0x2018500040900200, 0x8045100400400100, 0xe1510102100504,
        0x80444220100008, 0x8004410801110000, 0x48020a090c884144, 0x606414084040011,
        0x420002008504091, 0x2200205481021000, 0x8020021001010600, 0x5008128806022000,
        0x2020104020202c0, 0x86100a020202021d, 0x25020100611001, 0x1020440000420204,
        0x4200100010021a02, 0x601004004480080, 0x40810140092, 0x8450040f040050,
    ];
    assert(r@ =~= bishop_magic_numbers());
    r
}

/// Index widths of the bishop tables, as a sequence.
pub open spec fn bishop_index_bits() -> Seq<usize> {
    seq![6usize, 5usize, 5usize, 5usize, 5usize, 5usize, 5usize, 6usize, 5usize, 5usize, 5usize, 5usize, 5usize, 5usize, 5usize, 5usize, 5usize, 5usize, 7usize, 7usize, 7usize, 7usize, 5usize, 5usize, 5usize, 5usize, 7usize, 9usize, 9usize, 7usize, 5usize, 5usize, 5usize, 5usize, 7usize, 9usize, 9usize, 7usize, 5usize, 5usize, 5usize, 5usize, 7usize, 7usize, 7usize, 7usize, 5usize, 5usize, 5usize, 5usize, 5usize, 5usize, 5usize, 5usize, 5usize, 5usize, 6usize, 5usize, 5usize, 5usize, 5usize, 5usize, 5usize, 6usize]
}

/// Index widths of the bishop tables: the size of each relevant occupancy mask.
pub fn default_bishop_shifts() -> (r: Vec<usize>)
    ensures
        r@.len() == 64,
        r@ == bishop_index_bits(),
{
    let r: Vec<usize> = 
    vec![
        6, 5, 5, 5,
        5, 5, 5, 6,
        5, 5, 5, 5,
        5, 5, 5, 5,
        5, 5, 7, 7,
        7, 7, 5, 5,
        5, 5, 7, 9,
        9, 7, 5, 5,
        5, 5, 7, 9,
        9, 7, 5, 5,
        5, 5, 7, 7,
        7, 7, 5, 5,
        5, 5, 5, 5,
        5, 5, 5, 5,
        6, 5, 5, 5,
        5, 5, 5, 6,
    ];
    assert(r@ =~= bishop_index_bits());
    r
}

/// Known-good rook magics, as a sequence.
pub open spec fn rook_magic_numbers() -> Seq<u64> {
    seq![0x8004d08020c000u64, 0x4040100020004000u64, 0x80100080200008u64, 0x100200810010004u64, 0x200081005020020u64, 0x4100020801000400u64, 0x880020000800100u64, 0x6600008200205401u64, 0x508800880c001a0u64, 0x80402000401001u64, 0x11004100102000u64, 0x60010a4420008u64, 0xc00800400800800u64, 0x800400800200u64, 0xc2000200040801u64, 0x180088006cd00u64, 0x2380004000200040u64, 0x41401001a000u64, 0x2011050010422002u64, 0x23030010008820u64, 0x828004000800u64, 0xd02880110402420u64, 0x40140001b01208u64, 0x60000410884u64, 0x1010401480048420u64, 0x400140201000u64, 0x80110100402002u64, 0x200882300100100u64, 0x1109280280240080u64, 0x100040080020080u64, 0x400010400421008u64, 0x2002048200240449u64, 0x8080002000400044u64, 0x2d0012001400040u64, 0x2501801001802000u64, 0x180081801000u64, 0x12a4000480800800u64, 0x850020080800400u64, 0x10804005042u64, 0x1041008a000444u64, 0x8800100450020u64, 0x440412010024000u64, 0x40200010008080u64, 0x800a0010220040u64, 0x1200040008008080u64, 0x2000810020004u64, 0x1800021008040001u64, 0x498040c50820021u64, 0x4a00284102088200u64, 0x402200811200u64, 0xe01002002104d00u64, 0x8608008110010880u64, 0x10080080040080u64, 0x442a004411880200u64, 0x2041008432004100u64, 0x328010084004200u64, 0x800110624b008001u64, 0x8201022810804202u64, 0x4400a20010011u64, 0x8001200500100009u64, 0x4412010420081002u64, 0x4001000400021831u64, 0x408008802300104u64, 0x10060104044094a2u64]
}

/// Known-good rook magics, one per square.
pub fn default_rook_magics() -> (r: Vec<u64>)
    ensures
        r@.len() == 64,
        r@ == rook_magic_numbers(),
{
    let r: Vec<u64> = 
    vec![
        0x8004d08020c000, 0x4040100020004000, 0x80100080200008, 0x100200810010004,
        0x200081005020020, 0x4100020801000400, 0x880020000800100, 0x6600008200205401,
        0x508800880c001a0, 0x80402000401001, 0x11004100102000, 0x60010a4420008,
        0xc00800400800800, 0x800400800200, 0xc2000200040801, 0x180088006cd00,
        0x2380004000200040, 0x41401001a000, 0x2011050010422002, 0x23030010008820,
        0x828004000800, 0xd02880110402420, 0x40140001b01208, 0x60000410884,
        0x1010401480048420, 0x400140201000, 0x80110100402002, 0x200882300100100,
        0x1109280280240080, 0x100040080020080, 0x400010400421008, 0x2002048200240449,
        0x8080002000400044, 0x2d0012001400040, 0x2501801001802000, 0x180081801000,
        0x12a4000480800800, 0x850020080800400, 0x10804005042, 0x1041008a000444,
        0x8800100450020, 0x440412010024000, 0x40200010008080, 0x800a0010220040,
        0x1200040008008080, 0x2000810020004, 0x1800021008040001, 0x498040c50820021,
        0x4a00284102088200, 0x402200811200, 0xe01002002104d00, 0x8608008110010880,
        0x10080080040080, 0x442a004411880200, 0x2041008432004100, 0x328010084004200,
        0x800110624b008001, 0x8201022810804202, 0x4400a20010011, 0x8001200500100009,
        0x4412010420081002, 0x4001000400021831, 0x408008802300104, 0x10060104044094a2,
    ];
    assert(r@ =~= rook_magic_numbers());
    r
}

/// Index widths of the rook tables, as a sequence.
pub open spec fn rook_index_bits() -> Seq<usize> {
    seq![12usize, 11usize, 11usize, 11usize, 11usize, 11usize, 11usize, 12usize, 11usize, 10usize, 10usize, 10usize, 10usize, 10usize, 10usize, 11usize, 11usize, 10usize, 10usize, 10usize, 10usize, 10usize, 10usize, 11usize, 11usize, 10usize, 10usize, 10usize, 10usize, 10usize, 10usize, 11usize, 11usize, 10usize, 10usize, 10usize, 10usize, 10usize, 10usize, 11usize, 11usize, 10usize, 10usize, 10usize, 10usize, 10usize, 10usize, 11usize, 11usize, 10usize, 10usize, 10usize, 10usize, 10usize, 10usize, 11usize, 12usize, 11usize, 11usize, 11usize, 11usize, 11usize, 11usize, 12usize]
}

/// Index widths of the rook tables: the size of each relevant occupancy mask.
pub fn default_rook_shifts() -> (r: Vec<usize>)
    ensures
        r@.len() == 64,
        r@ == rook_index_bits(),
{
    let r: Vec<usize> = 
    vec![
        12, 11, 11, 11,
        11, 11, 11, 12,
        11, 10, 10, 10,
        10, 10, 10, 11,
        11, 10, 10, 10,
        10, 10, 10, 11,
        11, 10, 10, 10,
        10, 10, 10, 11,
        11, 10, 10, 10,
        10, 10, 10, 11,
        11, 10, 10, 10,
        10, 10, 10, 11,
        11, 10, 10, 10,
        10, 10, 10, 11,
        12, 11, 11, 11,
        11, 11, 11, 12,
    ];
    assert(r@ =~= rook_index_bits());
    r
}


/// A direction's contribution to the count of distinct attack sets: the
/// number of squares up to the edge, or 1 when there are none.
pub open spec fn ray_choices(s: int, d: int) -> int {
    if squares_to_edge(s, d) == 0 { 1 } else { squares_to_edge(s, d) }
}

/// The number of distinct attack sets of a slider on `s`: the product of
/// its four directions' choices.
pub open spec fn distinct_attack_sets(s: int, is_rook: bool) -> int {
    let d0: int = if is_rook { 0 } else { 4 };
    ray_choices(s, d0) * ray_choices(s, d0 + 1) * ray_choices(s, d0 + 2) * ray_choices(s, d0 + 3)
}

/// Returns the number of blocker patterns of a relevant occupancy mask.
pub fn get_relevant_occupancy_cardinality(relevant_occ: u64) -> (r: usize)
    requires
        popcount(relevant_occ) < 32,
    ensures
        r == 1usize << popcount(relevant_occ) as usize,
{
    1usize << pop_count(relevant_occ) as usize
}

fn distinct_count(square_data: &SquareData, square: usize, first: usize) -> (r: usize)
    requires
        square_data.wf(),
        square < 64,
        first == 0 || first == 4,
    ensures
        r == distinct_attack_sets(square as int, first == 0),
        1 <= r <= 2401,
{
    let mut result: usize = 1;
    let mut d: usize = first;
    while d < first + 4
        invariant
            square_data.wf(),
            square < 64,
            first == 0 || first == 4,
            first <= d <= first + 4,
            1 <= result,
            result <= if d == first {
                1int
            } else if d == first + 1 {
                7int
            } else if d == first + 2 {
                49int
            } else if d == first + 3 {
                343int
            } else {
                2401int
            },
            result == if d == first {
                1
            } else if d == first + 1 {
                ray_choices(square as int, first as int)
            } else if d == first + 2 {
                ray_choices(square as int, first as int) * ray_choices(square as int, first + 1)
            } else if d == first + 3 {
                ray_choices(square as int, first as int) * ray_choices(square as int, first + 1)
                    * ray_choices(square as int, first + 2)
            } else {
                distinct_attack_sets(square as int, first == 0)
            },
        decreases first + 4 - d,
    {
        let squares = square_data.get_squares_to_edge(square, d);
        let factor = if squares != 0 { squares } else { 1 };
        assert(1 <= factor <= 7) by {
            assert(0 <= squares_to_edge(square as int, d as int) <= 7);
        }
        assert(result * factor <= 7 * result && result * factor >= result) by (nonlinear_arith)
            requires
                1 <= result,
                1 <= factor <= 7,
        {
        }
        result = result * factor;
        d += 1;
    }
    result
}

/// Returns the number of distinct attack sets of a rook on `square`.
pub fn get_rook_distinct_attack_set_count(square_data: &SquareData, square: usize) -> (r: usize)
    requires
        square_data.wf(),
        square < 64,
    ensures
        r == distinct_attack_sets(square as int, true),
        1 <= r <= 2401,
{
    distinct_count(square_data, square, 0)
}

/// Returns the number of distinct attack sets of a bishop on `square`.
pub fn get_bishop_distinct_attack_set_count(square_data: &SquareData, square: usize) -> (r: usize)
    requires
        square_data.wf(),
        square < 64,
    ensures
        r == distinct_attack_sets(square as int, false),
        1 <= r <= 2401,
{
    distinct_count(square_data, square, 4)
}

/// Returns the number of distinct attack sets of slider `slider_index` on `square`.
pub fn get_distinct_attack_set_count(square_data: &SquareData, slider_index: usize, square: usize) -> (r: usize)
    requires
        square_data.wf(),
        slider_index < 2,
        square < 64,
    ensures
        r == distinct_attack_sets(square as int, slider_index == SLIDER_ROOK_INDEX),
        1 <= r <= 2401,
{
    if slider_index == SLIDER_BISHOP_INDEX {
        get_bishop_distinct_attack_set_count(square_data, square)
    } else {
        get_rook_distinct_attack_set_count(square_data, square)
    }
}

/// Returns the least number of bits whose values count at least `n` indices.
pub fn get_min_bits(n: usize) -> (r: usize)
    requires
        1 <= n <= 0x1_0000_0000,
    ensures
        r <= 32,
        n <= 1u64 << r as u64,
        r == 0 || (1u64 << (r - 1) as u64) < n,
{
    let mut bits: u64 = 0;
    while (1u64 << bits) < n as u64
        invariant
            bits <= 32,
            1 <= n <= 0x1_0000_0000,
            bits == 0 || (1u64 << (bits - 1) as u64) < n,
        decreases 32 - bits,
    {
        assert(bits < 32) by {
            if bits == 32 {
                assert(1u64 << 32u64 == 0x1_0000_0000u64) by (bit_vector);
            }
        }
        bits += 1;
    }
    bits as usize
}

/// Returns the least size in bytes of an index into the table of slider
/// `slider_index` on `square`.
pub fn get_min_lookup_square_size(square_data: &SquareData, slider_index: usize, square: usize) -> (r: usize)
    requires
        square_data.wf(),
        slider_index < 2,
        square < 64,
    ensures
        r <= 4,
{
    let count = get_distinct_attack_set_count(square_data, slider_index, square);
    (get_min_bits(count) + 7) / 8
}


/// The relevant occupancy mask of a slider on `s`.
pub open spec fn relevant_mask(s: int, is_rook: bool) -> u64 {
    choose|m: u64| #[trigger] is_relevant_mask(m, s, is_rook)
}

/// The bits of `m` are the relevant squares of a slider on `s`.
pub open spec fn is_relevant_mask(m: u64, s: int, is_rook: bool) -> bool {
    forall|u: u64| u < 64 ==> (#[trigger] bit_set(m, u) <==> relevant_square(s, u as int, is_rook))
}

/// `magic` with `bits` index bits hashes the blocker patterns of a slider on
/// `s` with no destructive collision: two patterns with the same index have
/// the same attack set.
pub open spec fn magic_valid(s: int, is_rook: bool, magic: u64, bits: u64) -> bool {
    let m = relevant_mask(s, is_rook);
    &&& 1 <= bits <= 20
    &&& forall|x: u64, y: u64|
        subset_of(x, m) && subset_of(y, m) && #[trigger] magic_index(magic, bits, x, m) == #[trigger] magic_index(
            magic,
            bits,
            y,
            m,
        ) ==> forall|t: u64| t < 64 ==> slider_attacks(s, x, is_rook, t) == slider_attacks(s, y, is_rook, t)
}

impl BitboardData {
    /// Whether a magic works for table `k` does not depend on how the
    /// patterns are stored.
    pub proof fn lemma_magic_works(&self, k: int, magic: u64, bits: u64)
        requires
            self.wf(),
            0 <= k < 128,
        ensures
            self.magic_works(k, magic, bits) == magic_valid(k % 64, k >= 64, magic, bits),
    {
        let s = k % 64;
        let rook = k >= 64;
        let m = self.relevant_occupancies@[k];
        let p = self.blocker_patterns@[k]@;
        let a = self.pseudo_legal_moves@[k]@;
        assert(forall|u: u64| u < 64 ==> (#[trigger] bit_set(m, u) <==> relevant_square(s, u as int, rook)));
        assert(is_relevant_mask(m, s, rook));
        let rm = relevant_mask(s, rook);
        assert forall|u: u64| u < 64 implies bit_set(rm, u) == bit_set(m, u) by {
            assert(bit_set(m, u) <==> relevant_square(s, u as int, rook));
        }
        lemma_bits_ext(rm, m);
        if self.magic_works(k, magic, bits) {
            assert forall|x: u64, y: u64|
                subset_of(x, m) && subset_of(y, m) && #[trigger] magic_index(magic, bits, x, m) == #[trigger] magic_index(
                    magic,
                    bits,
                    y,
                    m,
                ) implies forall|t: u64| t < 64 ==> slider_attacks(s, x, rook, t) == slider_attacks(
                s,
                y,
                rook,
                t,
            ) by {
                assert(p.contains(x) && p.contains(y));
                let i = choose|i: int| 0 <= i < p.len() && p[i] == x;
                let j = choose|j: int| 0 <= j < p.len() && p[j] == y;
                assert(a[i] == a[j]);
                assert forall|t: u64| t < 64 implies slider_attacks(s, x, rook, t) == slider_attacks(s, y, rook, t) by {
                    assert(bit_set(a[i], t) <==> slider_attacks(s, p[i], rook, t));
                    assert(bit_set(a[j], t) <==> slider_attacks(s, p[j], rook, t));
                }
            }
        }
        if magic_valid(s, rook, magic, bits) {
            assert forall|i: int, j: int|
                0 <= i < p.len() && 0 <= j < p.len() && magic_index(magic, bits, p[i], m) == magic_index(
                    magic,
                    bits,
                    p[j],
                    m,
                ) implies a[i] == a[j] by {
                assert(subset_of(p[i], m) && subset_of(p[j], m));
                assert forall|t: u64| t < 64 implies bit_set(a[i], t) == bit_set(a[j], t) by {
                    assert(bit_set(a[i], t) <==> slider_attacks(s, p[i], rook, t));
                    assert(bit_set(a[j], t) <==> slider_attacks(s, p[j], rook, t));
                }
                lemma_bits_ext(a[i], a[j]);
            }
        }
    }
}

} // verus!
