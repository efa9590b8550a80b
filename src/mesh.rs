//! The triangle list that draws one atom as a disc.
use vstd::prelude::*;
use vstd::arithmetic::div_mod::lemma_fundamental_div_mod_converse;

verus! {

/// Index `w` of the disc's triangle list over `vertex_count` vertices:
/// vertex 0 is the centre and the others run round the rim. Triangle `t`
/// is `(0, t + 2, t + 3)` for `t < vertex_count - 3`, and the last one is
/// `(0, 1, 2)`.
pub open spec fn disc_index(vertex_count: int, w: int) -> int {
    let t = w / 3;
    let corner = w % 3;
    if t < vertex_count - 3 {
        if corner == 0 {
            0
        } else {
            t + 1 + corner
        }
    } else {
        corner
    }
}

pub open spec fn disc_index_list(vertex_count: int) -> Seq<u16> {
    Seq::new((3 * (vertex_count - 2)) as nat, |w: int| disc_index(vertex_count, w) as u16)
}

/// The triangle fan over a centre vertex and `vertex_count - 1` rim
/// vertices, as a list of `3 * (vertex_count - 2)` indices.
pub fn disc_indices(vertex_count: u16) -> (r: Vec<u16>)
    requires
        vertex_count >= 3,
    ensures
        r@ == disc_index_list(vertex_count as int),
{
    let mut r: Vec<u16> = Vec::new();
    let mut i: u16 = 2;
    while i < vertex_count - 1
        invariant
            vertex_count >= 3,
            2 <= i <= vertex_count - 1,
            r@.len() == 3 * (i - 2),
            forall|w: int| 0 <= w < r@.len() ==> #[trigger] r@[w] == disc_index(vertex_count as int, w) as u16,
        decreases vertex_count - i,
    {
        let ghost base = 3 * (i - 2);
        proof {
            lemma_fundamental_div_mod_converse(base, 3, i - 2, 0);
            lemma_fundamental_div_mod_converse(base + 1, 3, i - 2, 1);
            lemma_fundamental_div_mod_converse(base + 2, 3, i - 2, 2);
        }
        r.push(0);
        r.push(i);
        r.push(i + 1);
        i += 1;
    }
    let ghost base = 3 * (vertex_count - 3);
    proof {
        lemma_fundamental_div_mod_converse(base, 3, vertex_count - 3, 0);
        lemma_fundamental_div_mod_converse(base + 1, 3, vertex_count - 3, 1);
        lemma_fundamental_div_mod_converse(base + 2, 3, vertex_count - 3, 2);
    }
    r.push(0);
    r.push(1);
    r.push(2);
    assert(r@ =~= disc_index_list(vertex_count as int));
    r
}

} // verus!
