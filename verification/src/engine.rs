//! The rule engine: given an 8-bit rule number and a row of binary cells,
//! compute the next generation under a chosen boundary policy.
//!
//! A cell is a `bool` (`true` = alive, `false` = dead); a row is a `Vec<bool>`.
//! Each cell's next value is bit `p` of the rule number, where `p` is the
//! 3-bit pattern read from the cell's left neighbor (most significant bit),
//! the cell itself, and its right neighbor (least significant bit). Rule bits
//! are indexed from the least significant end: bit 0 answers the all-dead
//! neighborhood.

use vstd::prelude::*;

verus! {

/// How neighbors are found at the two ends of a row: the row is a ring
/// (`Wrapping`), or cells beyond both edges read as permanently dead
/// (`ZeroPadded`).
#[derive(Clone, Copy, Debug, PartialEq, Eq, Structural)]
pub enum BoundaryPolicy {
    Wrapping,
    ZeroPadded,
}

/// Bit `p` of the rule number: the next value of a cell whose neighborhood
/// pattern has value `p`.
pub open spec fn rule_bit(rule: u8, p: u8) -> bool {
    (rule >> p) & 1 == 1
}

/// The 3-bit neighborhood pattern, left neighbor as the most significant bit.
pub open spec fn pattern_of(l: bool, c: bool, r: bool) -> u8 {
    ((if l { 4u8 } else { 0u8 }) + (if c { 2u8 } else { 0u8 }) + (if r { 1u8 } else { 0u8 })) as u8
}

/// The left neighbor of cell `i` under the given boundary policy.
pub open spec fn left_neighbor(row: Seq<bool>, i: int, boundary: BoundaryPolicy) -> bool {
    if i == 0 {
        match boundary {
            BoundaryPolicy::Wrapping => row[row.len() - 1],
            BoundaryPolicy::ZeroPadded => false,
        }
    } else {
        row[i - 1]
    }
}

/// The right neighbor of cell `i` under the given boundary policy.
pub open spec fn right_neighbor(row: Seq<bool>, i: int, boundary: BoundaryPolicy) -> bool {
    if i == row.len() - 1 {
        match boundary {
            BoundaryPolicy::Wrapping => row[0],
            BoundaryPolicy::ZeroPadded => false,
        }
    } else {
        row[i + 1]
    }
}

/// The next value of cell `i` of `row`.
pub open spec fn next_cell(rule: u8, row: Seq<bool>, i: int, boundary: BoundaryPolicy) -> bool {
    rule_bit(
        rule,
        pattern_of(left_neighbor(row, i, boundary), row[i], right_neighbor(row, i, boundary)),
    )
}

/// The next generation of `row` as a whole.
pub open spec fn spec_next_row(rule: u8, row: Seq<bool>, boundary: BoundaryPolicy) -> Seq<bool> {
    Seq::new(row.len(), |i: int| next_cell(rule, row, i, boundary))
}

/// Compute the next generation of `row` under `rule` and `boundary`.
///
/// The contract pins the result to `spec_next_row`, a function of the
/// arguments alone: two calls on equal inputs return equal rows.
pub fn next_row(rule: u8, row: &Vec<bool>, boundary: BoundaryPolicy) -> (out: Vec<bool>)
    requires
        row@.len() >= 1,
    ensures
        out@ == spec_next_row(rule, row@, boundary),
{
    let w = row.len();
    let mut out: Vec<bool> = Vec::new();
    let mut i: usize = 0;
    while i < w
        invariant
            1 <= w,
            w == row@.len(),
            i <= w,
            out@.len() == i,
            forall|j: int| 0 <= j < i ==> out@[j] == next_cell(rule, row@, j, boundary),
        decreases w - i,
    {
        let l: bool = if i == 0 {
            match boundary {
                BoundaryPolicy::Wrapping => row[w - 1],
                BoundaryPolicy::ZeroPadded => false,
            }
        } else {
            row[i - 1]
        };
        let c: bool = row[i];
        let r: bool = if i == w - 1 {
            match boundary {
                BoundaryPolicy::Wrapping => row[0],
                BoundaryPolicy::ZeroPadded => false,
            }
        } else {
            row[i + 1]
        };
        let pattern: u8 = (if l { 4u8 } else { 0u8 }) + (if c { 2u8 } else { 0u8 }) + (if r {
            1u8
        } else {
            0u8
        });
        let cell: bool = (rule >> pattern) & 1 == 1;
        out.push(cell);
        i = i + 1;
    }
    proof {
        assert(out@ =~= spec_next_row(rule, row@, boundary));
    }
    out
}

/// Compute the next generation, with the boundary policy given as a flag:
/// `wrapping == true` treats the row as a ring, `false` zero-pads the edges.
pub fn iterate_rule(rule: u8, state: &Vec<bool>, width: usize, wrapping: bool) -> (out: Vec<bool>)
    requires
        width == state@.len(),
        width >= 1,
    ensures
        out@ == spec_next_row(
            rule,
            state@,
            if wrapping {
                BoundaryPolicy::Wrapping
            } else {
                BoundaryPolicy::ZeroPadded
            },
        ),
{
    let boundary = if wrapping {
        BoundaryPolicy::Wrapping
    } else {
        BoundaryPolicy::ZeroPadded
    };
    next_row(rule, state, boundary)
}

/// Generation `k` of the simulation that starts from `initial`: generation 0
/// is `initial` itself, and each later generation is the next row of its
/// predecessor.
pub open spec fn spec_generation(
    rule: u8,
    initial: Seq<bool>,
    boundary: BoundaryPolicy,
    k: nat,
) -> Seq<bool>
    decreases k,
{
    if k == 0 {
        initial
    } else {
        spec_next_row(rule, spec_generation(rule, initial, boundary, (k - 1) as nat), boundary)
    }
}

/// Length preservation: the next row always has the width of its predecessor,
/// for every rule and either boundary policy.
pub proof fn lemma_next_row_width(rule: u8, row: Seq<bool>, boundary: BoundaryPolicy)
    ensures
        spec_next_row(rule, row, boundary).len() == row.len(),
{
}

/// Every generation has the width of the initial row.
pub proof fn lemma_generation_width(
    rule: u8,
    initial: Seq<bool>,
    boundary: BoundaryPolicy,
    k: nat,
)
    ensures
        spec_generation(rule, initial, boundary, k).len() == initial.len(),
    decreases k,
{
    if k > 0 {
        lemma_generation_width(rule, initial, boundary, (k - 1) as nat);
    }
}

/// Under `ZeroPadded`, the left neighbor of the first cell and the right
/// neighbor of the last cell read as dead, whatever the row holds.
pub proof fn lemma_zero_padded_edges(row: Seq<bool>)
    requires
        row.len() >= 1,
    ensures
        !left_neighbor(row, 0, BoundaryPolicy::ZeroPadded),
        !right_neighbor(row, row.len() - 1, BoundaryPolicy::ZeroPadded),
{
}

/// For an all-dead row, the next row is all dead exactly when bit 0 of the
/// rule is 0, under either boundary policy.
pub proof fn lemma_dead_row(rule: u8, row: Seq<bool>, boundary: BoundaryPolicy)
    requires
        row.len() >= 1,
        forall|i: int| 0 <= i < row.len() ==> !row[i],
    ensures
        (forall|i: int|
            0 <= i < row.len() ==> !spec_next_row(rule, row, boundary)[i]) <==> !rule_bit(rule, 0),
{
    assert forall|i: int| 0 <= i < row.len() implies spec_next_row(rule, row, boundary)[i]
        == rule_bit(rule, 0) by {
        assert(!left_neighbor(row, i, boundary));
        assert(!right_neighbor(row, i, boundary));
    }
    if rule_bit(rule, 0) {
        assert(spec_next_row(rule, row, boundary)[0]);
    }
}

/// Under rule 255 every generation after the first is all alive, for every
/// non-empty initial row and either boundary policy.
pub proof fn lemma_rule_all_ones(initial: Seq<bool>, boundary: BoundaryPolicy, k: nat)
    requires
        initial.len() >= 1,
        k >= 1,
    ensures
        spec_generation(255, initial, boundary, k).len() == initial.len(),
        forall|i: int|
            0 <= i < initial.len() ==> spec_generation(255, initial, boundary, k)[i],
{
    lemma_generation_width(255, initial, boundary, k);
    lemma_generation_width(255, initial, boundary, (k - 1) as nat);
    let prev = spec_generation(255, initial, boundary, (k - 1) as nat);
    assert forall|i: int| 0 <= i < initial.len() implies spec_next_row(255, prev, boundary)[i] by {
        let p = pattern_of(
            left_neighbor(prev, i, boundary),
            prev[i],
            right_neighbor(prev, i, boundary),
        );
        assert((255u8 >> p) & 1 == 1) by (bit_vector)
            requires
                p < 8,
        ;
    }
}

/// Under rule 0 every generation after the first is all dead, for every
/// non-empty initial row and either boundary policy.
pub proof fn lemma_rule_zero(initial: Seq<bool>, boundary: BoundaryPolicy, k: nat)
    requires
        initial.len() >= 1,
        k >= 1,
    ensures
        spec_generation(0, initial, boundary, k).len() == initial.len(),
        forall|i: int|
            0 <= i < initial.len() ==> !spec_generation(0, initial, boundary, k)[i],
{
    lemma_generation_width(0, initial, boundary, k);
    lemma_generation_width(0, initial, boundary, (k - 1) as nat);
    let prev = spec_generation(0, initial, boundary, (k - 1) as nat);
    assert forall|i: int| 0 <= i < initial.len() implies !spec_next_row(0, prev, boundary)[i] by {
        let p = pattern_of(
            left_neighbor(prev, i, boundary),
            prev[i],
            right_neighbor(prev, i, boundary),
        );
        assert((0u8 >> p) & 1 == 0) by (bit_vector)
            requires
                p < 8,
        ;
    }
}

/// Run the simulation: produce `height` rows, generation 0 first.
///
/// Generation 0 is `initial` unchanged; generation `k` is the next row of
/// generation `k - 1`. A height of 0 yields an empty result.
pub fn run(rule: u8, initial: Vec<bool>, height: usize, boundary: BoundaryPolicy) -> (result: Vec<
    Vec<bool>,
>)
    requires
        initial@.len() >= 1 || height <= 1,
    ensures
        result@.len() == height,
        forall|k: int|
            0 <= k < height ==> result@[k]@ == spec_generation(rule, initial@, boundary, k as nat),
        height == 0 ==> result@ =~= Seq::<Vec<bool>>::empty(),
        height >= 1 ==> result@[0]@ == initial@,
{
    let ghost init = initial@;
    let mut result: Vec<Vec<bool>> = Vec::new();
    if height == 0 {
        return result;
    }
    result.push(initial);
    let mut g: usize = 1;
    while g < height
        invariant
            1 <= g <= height,
            init.len() >= 1 || height <= 1,
            result@.len() == g,
            forall|k: int|
                0 <= k < g ==> result@[k]@ == spec_generation(rule, init, boundary, k as nat),
        decreases height - g,
    {
        proof {
            lemma_generation_width(rule, init, boundary, (g - 1) as nat);
        }
        let next = next_row(rule, &result[g - 1], boundary);
        result.push(next);
        g = g + 1;
    }
    result
}

} // verus!

