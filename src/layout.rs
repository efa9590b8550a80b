//! The memory layout in which the compute kernels read the cell table: per
//! cell, the count and then every index slot, as `i32` words.
use vstd::prelude::*;
use vstd::arithmetic::div_mod::lemma_fundamental_div_mod_converse;
use crate::grid::{CellTable, HashGridCell, MAX_INDICES, build_outcome, cell_ids, ceil_div};

verus! {

/// The words one cell takes: its count and its index slots.
pub const CELL_WORDS: usize = 17;

/// Word `r` of cell `c`.
pub open spec fn cell_word(c: HashGridCell, r: int) -> i32 {
    if r == 0 {
        c.count
    } else {
        c.indices[r - 1]
    }
}

pub open spec fn table_words(cells: Seq<HashGridCell>) -> Seq<i32> {
    Seq::new(
        (cells.len() * CELL_WORDS) as nat,
        |w: int| cell_word(cells[w / CELL_WORDS as int], w % CELL_WORDS as int),
    )
}

pub open spec fn byte_weight(b: int) -> int {
    if b == 0 {
        1
    } else if b == 1 {
        0x100
    } else if b == 2 {
        0x1_0000
    } else {
        0x100_0000
    }
}

/// Byte `b` of `w`, counted from the least significant.
pub open spec fn byte_of(w: i32, b: int) -> u8 {
    ((w as u32) as int / byte_weight(b) % 0x100) as u8
}

/// The words, each as four bytes, least significant first.
pub open spec fn le_bytes(ws: Seq<i32>) -> Seq<u8> {
    Seq::new((ws.len() * 4) as nat, |b: int| byte_of(ws[b / 4], b % 4))
}

/// The words, each as four bytes, most significant first.
pub open spec fn be_bytes(ws: Seq<i32>) -> Seq<u8> {
    Seq::new((ws.len() * 4) as nat, |b: int| byte_of(ws[b / 4], 3 - b % 4))
}

/// Relies on bytemuck::cast_slice from `i32` to `u8`: it views the words'
/// memory as bytes, four per word in the target's byte order, and cannot
/// fail for these types.
#[verifier::external_body]
fn words_as_bytes(words: &Vec<i32>) -> (r: Vec<u8>)
    ensures
        r@ == le_bytes(words@) || r@ == be_bytes(words@),
{
    bytemuck::cast_slice::<i32, u8>(words.as_slice()).to_vec()
}

impl CellTable {
    /// The table as the kernels read it: `CELL_WORDS` words per cell.
    pub fn words(&self) -> (r: Vec<i32>)
        ensures
            r@ == table_words(self.cells@),
    {
        let n = self.cells.len();
        let mut words: Vec<i32> = Vec::new();
        let mut k: usize = 0;
        while k < n
            invariant
                n == self.cells@.len(),
                k <= n,
                words@.len() == k * CELL_WORDS,
                forall|w: int|
                    0 <= w < words@.len() ==> #[trigger] words@[w] == cell_word(
                        self.cells@[w / CELL_WORDS as int],
                        w % CELL_WORDS as int,
                    ),
            decreases n - k,
        {
            let c = self.cells[k];
            proof {
                lemma_fundamental_div_mod_converse(k * CELL_WORDS, CELL_WORDS as int, k as int, 0);
            }
            words.push(c.count);
            let mut j: usize = 0;
            while j < MAX_INDICES
                invariant
                    n == self.cells@.len(),
                    k < n,
                    c == self.cells@[k as int],
                    j <= MAX_INDICES,
                    words@.len() == k * CELL_WORDS + 1 + j,
                    forall|w: int|
                        0 <= w < words@.len() ==> #[trigger] words@[w] == cell_word(
                            self.cells@[w / CELL_WORDS as int],
                            w % CELL_WORDS as int,
                        ),
                decreases MAX_INDICES - j,
            {
                proof {
                    lemma_fundamental_div_mod_converse(
                        k * CELL_WORDS + 1 + j,
                        CELL_WORDS as int,
                        k as int,
                        1 + j,
                    );
                }
                words.push(c.indices[j]);
                j += 1;
            }
            k += 1;
        }
        assert(words@ =~= table_words(self.cells@));
        words
    }

    /// The bytes of `words`, as the cell buffer holds them.
    pub fn to_bytes(&self) -> (r: Vec<u8>)
        ensures
            r@ == le_bytes(table_words(self.cells@)) || r@ == be_bytes(table_words(self.cells@)),
    {
        let w = self.words();
        words_as_bytes(&w)
    }
}

/// Building twice from the same positions and sizes gives the same table,
/// and so the same words and bytes for the kernels.
pub proof fn lemma_build_deterministic(
    ps: Seq<crate::atom::Vec2>,
    domain: int,
    cell: int,
    t1: CellTable,
    t2: CellTable,
)
    requires
        build_outcome(ps, domain, cell, Ok(t1)),
        build_outcome(ps, domain, cell, Ok(t2)),
    ensures
        t1.cells_per_side == t2.cells_per_side,
        t1.cells@ == t2.cells@,
        t1.membership@ == t2.membership@,
        t1.overflow == t2.overflow,
        table_words(t1.cells@) == table_words(t2.cells@),
{
    assert forall|k: int| 0 <= k < t1.cells@.len() implies t1.cells@[k] == t2.cells@[k] by {
        let a = t1.cells@[k];
        let b = t2.cells@[k];
        assert(a.indices =~= b.indices) by {
            assert forall|j: int| 0 <= j < MAX_INDICES implies a.indices[j] == b.indices[j] by {
                assert(a.indices[j] == b.indices[j]);
            }
        }
    }
    assert(t1.cells@ =~= t2.cells@);
    let ids = cell_ids(ps, cell, ceil_div(domain, cell));
    assert forall|i: int| 0 <= i < ps.len() implies t1.membership@[i] == t2.membership@[i] by {
        assert(t1.membership@[i] == ids[i]);
    }
    assert(t1.membership@ =~= t2.membership@);
}

} // verus!
