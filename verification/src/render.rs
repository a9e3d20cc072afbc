//! The plain-text bitmap: a `P1` tag line, a `"<width> <height>"`
//! dimensions line, then one line per row with each cell as a `0` or `1`
//! token, space-separated, generation 0 first. Lines are byte strings
//! without their trailing newline; writing and joining them is the
//! caller's business.

use vstd::prelude::*;

verus! {

/// The decimal digits of `n`, most significant first, as ASCII bytes.
pub open spec fn dec_str(n: nat) -> Seq<u8>
    decreases n,
{
    if n < 10 {
        seq![(48 + n) as u8]
    } else {
        dec_str(n / 10).push((48 + n % 10) as u8)
    }
}

/// Append the decimal digits of `n`.
fn push_decimal(out: &mut Vec<u8>, n: usize)
    ensures
        final(out)@ == old(out)@ + dec_str(n as nat),
    decreases n,
{
    if n < 10 {
        out.push(48 + (n as u8));
        proof {
            assert(out@ =~= old(out)@ + dec_str(n as nat));
        }
    } else {
        push_decimal(out, n / 10);
        out.push(48 + ((n % 10) as u8));
        proof {
            assert(out@ =~= old(out)@ + dec_str(n as nat));
        }
    }
}

/// The byte a cell prints as: `'1'` if alive, `'0'` if dead.
pub open spec fn bit_byte(c: bool) -> u8 {
    if c {
        49
    } else {
        48
    }
}

/// One data line: the row's cells as `0`/`1` bytes, space-separated.
pub open spec fn spec_row_line(row: Seq<bool>) -> Seq<u8>
    decreases row.len(),
{
    if row.len() == 0 {
        Seq::empty()
    } else if row.len() == 1 {
        seq![bit_byte(row[0])]
    } else {
        spec_row_line(row.drop_last()) + seq![32u8, bit_byte(row.last())]
    }
}

/// How many space-separated tokens a line holds: the number of positions
/// that start a maximal run of non-space bytes.
pub open spec fn token_count(s: Seq<u8>) -> nat
    decreases s.len(),
{
    if s.len() == 0 {
        0
    } else {
        token_count(s.drop_last()) + if s.last() != 32 && (s.len() == 1 || s[s.len() - 2] == 32) {
            1nat
        } else {
            0nat
        }
    }
}

/// A data line holds exactly one token per cell of its row.
pub proof fn lemma_row_line_token_count(row: Seq<bool>)
    ensures
        token_count(spec_row_line(row)) == row.len(),
    decreases row.len(),
{
    if row.len() == 0 {
        assert(token_count(spec_row_line(row)) == 0);
    } else if row.len() == 1 {
        let line = spec_row_line(row);
        assert(line.len() == 1);
        assert(line.drop_last() =~= Seq::<u8>::empty());
        assert(token_count(line.drop_last()) == 0);
        assert(line.last() != 32);
        assert(token_count(line) == 1);
    } else {
        lemma_row_line_token_count(row.drop_last());
        let prev = spec_row_line(row.drop_last());
        let line = spec_row_line(row);
        assert(line == prev + seq![32u8, bit_byte(row.last())]);
        assert(line.drop_last() =~= prev.push(32u8));
        assert(prev.push(32u8).drop_last() =~= prev);
        assert(prev.push(32u8).last() == 32);
        assert(token_count(prev.push(32u8)) == token_count(prev));
        assert(line.last() == bit_byte(row.last()));
        assert(line[line.len() - 2] == 32);
        assert(token_count(line) == token_count(line.drop_last()) + 1);
        assert(token_count(spec_row_line(row)) == row.len());
    }
}

/// Build one data line for a row.
fn row_line(row: &Vec<bool>) -> (line: Vec<u8>)
    ensures
        line@ == spec_row_line(row@),
{
    let n = row.len();
    let mut line: Vec<u8> = Vec::new();
    let mut i: usize = 0;
    while i < n
        invariant
            i <= n,
            n == row@.len(),
            line@ == spec_row_line(row@.subrange(0, i as int)),
        decreases n - i,
    {
        if i > 0 {
            line.push(32);
        }
        line.push(if row[i] {
            49
        } else {
            48
        });
        proof {
            let p1 = row@.subrange(0, i + 1);
            assert(p1.drop_last() =~= row@.subrange(0, i as int));
            assert(p1.last() == row@[i as int]);
            assert(line@ =~= spec_row_line(p1));
        }
        i = i + 1;
    }
    proof {
        assert(row@.subrange(0, n as int) =~= row@);
    }
    line
}

/// Serialize a simulation result as the lines of a plain-text bitmap:
/// the `P1` tag, the dimensions, then one line per row, top to bottom.
pub fn render_bitmap(width: usize, height: usize, rows: &Vec<Vec<bool>>) -> (lines: Vec<Vec<u8>>)
    requires
        rows@.len() == height,
        forall|k: int| 0 <= k < height ==> rows@[k]@.len() == width,
    ensures
        lines@.len() == 2 + height,
        lines@[0]@ == seq![80u8, 49u8],
        lines@[1]@ == dec_str(width as nat) + seq![32u8] + dec_str(height as nat),
        forall|k: int| 0 <= k < height ==> lines@[2 + k]@ == spec_row_line(rows@[k]@),
{
    let mut lines: Vec<Vec<u8>> = Vec::new();

    let mut tag: Vec<u8> = Vec::new();
    tag.push(80);
    tag.push(49);
    proof {
        assert(tag@ =~= seq![80u8, 49u8]);
    }
    lines.push(tag);

    let mut dims: Vec<u8> = Vec::new();
    push_decimal(&mut dims, width);
    dims.push(32);
    push_decimal(&mut dims, height);
    proof {
        assert(dims@ =~= dec_str(width as nat) + seq![32u8] + dec_str(height as nat));
    }
    lines.push(dims);

    let mut k: usize = 0;
    while k < height
        invariant
            k <= height,
            rows@.len() == height,
            forall|j: int| 0 <= j < height ==> rows@[j]@.len() == width,
            lines@.len() == 2 + k,
            lines@[0]@ == seq![80u8, 49u8],
            lines@[1]@ == dec_str(width as nat) + seq![32u8] + dec_str(height as nat),
            forall|j: int| 0 <= j < k ==> lines@[2 + j]@ == spec_row_line(rows@[j]@),
        decreases height - k,
    {
        let line = row_line(&rows[k]);
        lines.push(line);
        k = k + 1;
    }
    lines
}

} // verus!
