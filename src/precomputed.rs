use vstd::prelude::*;
use crate::magic::{
    BitboardData, MagicLookupTable, SLIDER_BISHOP_INDEX, SLIDER_ROOK_INDEX, default_bishop_magics,
    default_bishop_shifts, default_rook_magics, default_rook_shifts, generate_all_magics,
};
use crate::square_data::SquareData;
use crate::magic::{bishop_index_bits, bishop_magic_numbers, magic_valid, rook_index_bits, rook_magic_numbers};

verus! {

/// Draws allowed per square when magics have to be discovered.
pub const MAGIC_SEARCH_ATTEMPTS: u64 = 100_000_000;

/// Why the magic tables could not be built.
#[derive(Clone, Copy, PartialEq, Eq, Structural, Debug)]
pub enum MagicsError {
    /// Some magic does not hash its square's blocker patterns.
    MagicsInconsistent,
    /// No working magic was found within the allowed draws.
    MagicsUnavailable,
}

/// Every table the attack calculator and the move generator read.
pub struct PrecomputedData {
    pub square_data: SquareData,
    pub bitboard_data: BitboardData,
    pub rook_table: MagicLookupTable,
    pub bishop_table: MagicLookupTable,
}

impl PrecomputedData {
    pub open spec fn wf(&self) -> bool {
        &&& self.square_data.wf()
        &&& self.bitboard_data.wf()
        &&& self.rook_table.wf()
        &&& self.rook_table.is_rook()
        &&& self.bishop_table.wf()
        &&& !self.bishop_table.is_rook()
    }

    /// Builds the tables from the given magics and index widths, each vector
    /// holding one entry per square.
    pub fn from_magics(
        bishop_magics: &Vec<u64>,
        bishop_shifts: &Vec<usize>,
        rook_magics: &Vec<u64>,
        rook_shifts: &Vec<usize>,
    ) -> (r: Result<PrecomputedData, MagicsError>)
        requires
            bishop_magics@.len() == 64,
            bishop_shifts@.len() == 64,
            rook_magics@.len() == 64,
            rook_shifts@.len() == 64,
        ensures
            r is Ok <==> forall|s: int|
                0 <= s < 64 ==> magic_valid(s, false, #[trigger] bishop_magics@[s], bishop_shifts@[s] as u64)
                    && magic_valid(s, true, rook_magics@[s], rook_shifts@[s] as u64),
            r matches Ok(d) ==> d.wf(),
            r matches Err(e) ==> e == MagicsError::MagicsInconsistent,
    {
        let square_data = SquareData::new();
        let bitboard_data = BitboardData::new(&square_data);
        proof {
            assert forall|s: int| 0 <= s < 64 implies bitboard_data.magic_works(
                s,
                #[trigger] bishop_magics@[s],
                bishop_shifts@[s] as u64,
            ) == magic_valid(s, false, bishop_magics@[s], bishop_shifts@[s] as u64)
                && bitboard_data.magic_works(64 + s, rook_magics@[s], rook_shifts@[s] as u64) == magic_valid(
                s,
                true,
                rook_magics@[s],
                rook_shifts@[s] as u64,
            ) by {
                bitboard_data.lemma_magic_works(s, bishop_magics@[s], bishop_shifts@[s] as u64);
                bitboard_data.lemma_magic_works(64 + s, rook_magics@[s], rook_shifts@[s] as u64);
                assert((64 + s) % 64 == s);
            }
        }
        let bishop_table = match MagicLookupTable::new(
            &bitboard_data,
            SLIDER_BISHOP_INDEX,
            bishop_magics,
            bishop_shifts,
        ) {
            Some(t) => t,
            None => {
                proof {
                    let s0 = choose|s: int|
                        !(0 <= s < 64 ==> bitboard_data.magic_works(
                            64 * SLIDER_BISHOP_INDEX + s,
                            #[trigger] bishop_magics@[s],
                            bishop_shifts@[s] as u64,
                        ));
                    assert(64 * SLIDER_BISHOP_INDEX + s0 == s0);
                    bitboard_data.lemma_magic_works(s0, bishop_magics@[s0], bishop_shifts@[s0] as u64);
                    assert(!magic_valid(s0, false, bishop_magics@[s0], bishop_shifts@[s0] as u64));
                }
                return Err(MagicsError::MagicsInconsistent);
            },
        };
        let rook_table = match MagicLookupTable::new(
            &bitboard_data,
            SLIDER_ROOK_INDEX,
            rook_magics,
            rook_shifts,
        ) {
            Some(t) => t,
            None => {
                proof {
                    assert(!(forall|s: int| 0 <= s < 64 ==> bitboard_data.magic_works(64 * SLIDER_ROOK_INDEX + s, #[trigger] rook_magics@[s], rook_shifts@[s] as u64)));
                    let s0 = choose|s: int|
                        !(0 <= s < 64 ==> bitboard_data.magic_works(
                            64 * SLIDER_ROOK_INDEX + s,
                            #[trigger] rook_magics@[s],
                            rook_shifts@[s] as u64,
                        ));
                    assert(64 * SLIDER_ROOK_INDEX + s0 == 64 + s0);
                    bitboard_data.lemma_magic_works(64 + s0, rook_magics@[s0], rook_shifts@[s0] as u64);
                    assert((64 + s0) % 64 == s0);
                    assert(!magic_valid(s0, true, rook_magics@[s0], rook_shifts@[s0] as u64));
                    assert(!(magic_valid(s0, false, bishop_magics@[s0], bishop_shifts@[s0] as u64) && magic_valid(
                        s0,
                        true,
                        rook_magics@[s0],
                        rook_shifts@[s0] as u64,
                    )));
                    assert(0 <= s0 < 64);
                    if forall|s: int|
                        0 <= s < 64 ==> magic_valid(s, false, #[trigger] bishop_magics@[s], bishop_shifts@[s] as u64)
                            && magic_valid(s, true, rook_magics@[s], rook_shifts@[s] as u64) {
                        let b0 = bishop_magics@[s0];
                        assert(magic_valid(s0, true, rook_magics@[s0], rook_shifts@[s0] as u64));
                    }
                }
                return Err(MagicsError::MagicsInconsistent);
            },
        };
        proof {
            assert forall|s: int| 0 <= s < 64 implies magic_valid(s, false, #[trigger] bishop_magics@[s], bishop_shifts@[s] as u64)
                && magic_valid(s, true, rook_magics@[s], rook_shifts@[s] as u64) by {
                assert(64 * SLIDER_BISHOP_INDEX + s == s);
                assert(64 * SLIDER_ROOK_INDEX + s == 64 + s);
                assert(bitboard_data.magic_works(64 * SLIDER_BISHOP_INDEX + s, bishop_magics@[s], bishop_shifts@[s] as u64));
                assert(bitboard_data.magic_works(64 * SLIDER_ROOK_INDEX + s, rook_magics@[s], rook_shifts@[s] as u64));
            }
        }
        Ok(PrecomputedData { square_data, bitboard_data, rook_table, bishop_table })
    }

    /// Builds the tables from the built-in magics, or from freshly discovered
    /// ones when the built-in set does not validate.
    pub fn new() -> (r: Result<PrecomputedData, MagicsError>)
        ensures
            r matches Ok(d) ==> d.wf(),
            r matches Err(e) ==> e == MagicsError::MagicsUnavailable,
            (forall|s: int|
                0 <= s < 64 ==> magic_valid(
                    s,
                    false,
                    #[trigger] bishop_magic_numbers()[s],
                    bishop_index_bits()[s] as u64,
                ) && magic_valid(s, true, rook_magic_numbers()[s], rook_index_bits()[s] as u64)) ==> r is Ok,
    {
        let bishop_shifts = default_bishop_shifts();
        let rook_shifts = default_rook_shifts();
        match Self::from_magics(
            &default_bishop_magics(),
            &bishop_shifts,
            &default_rook_magics(),
            &rook_shifts,
        ) {
            Ok(d) => Ok(d),
            Err(_) => Self::discover(&bishop_shifts, &rook_shifts),
        }
    }

    /// Discovers magics for the given index widths and builds the tables.
    pub fn discover(bishop_shifts: &Vec<usize>, rook_shifts: &Vec<usize>) -> (r: Result<PrecomputedData, MagicsError>)
        requires
            bishop_shifts@.len() == 64,
            rook_shifts@.len() == 64,
        ensures
            r matches Ok(d) ==> d.wf(),
            r matches Err(e) ==> e == MagicsError::MagicsUnavailable,
    {
        let square_data = SquareData::new();
        let bitboard_data = BitboardData::new(&square_data);
        let bishop_magics = match generate_all_magics(
            &bitboard_data,
            SLIDER_BISHOP_INDEX,
            bishop_shifts,
            MAGIC_SEARCH_ATTEMPTS,
        ) {
            Some(m) => m,
            None => {
                return Err(MagicsError::MagicsUnavailable);
            },
        };
        let rook_magics = match generate_all_magics(
            &bitboard_data,
            SLIDER_ROOK_INDEX,
            rook_shifts,
            MAGIC_SEARCH_ATTEMPTS,
        ) {
            Some(m) => m,
            None => {
                return Err(MagicsError::MagicsUnavailable);
            },
        };
        proof {
            assert forall|s: int| 0 <= s < 64 implies magic_valid(s, false, #[trigger] bishop_magics@[s], bishop_shifts@[s] as u64)
                && magic_valid(s, true, rook_magics@[s], rook_shifts@[s] as u64) by {
                assert(64 * SLIDER_BISHOP_INDEX + s == s);
                assert(64 * SLIDER_ROOK_INDEX + s == 64 + s);
                assert(bitboard_data.magic_works(64 * SLIDER_BISHOP_INDEX + s, bishop_magics@[s], bishop_shifts@[s] as u64));
                assert(bitboard_data.magic_works(64 * SLIDER_ROOK_INDEX + s, rook_magics@[s], rook_shifts@[s] as u64));
                bitboard_data.lemma_magic_works(s, bishop_magics@[s], bishop_shifts@[s] as u64);
                bitboard_data.lemma_magic_works(64 + s, rook_magics@[s], rook_shifts@[s] as u64);
                assert((64 + s) % 64 == s);
            }
        }
        Self::from_magics(&bishop_magics, bishop_shifts, &rook_magics, rook_shifts)
    }
}

} // verus!
