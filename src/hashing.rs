use vstd::prelude::*;
use vstd::arithmetic::div_mod::{lemma_breakdown, lemma_fundamental_div_mod_converse, lemma_small_mod};
use vstd::arithmetic::power::{lemma_pow_adds, lemma_pow_increases, lemma_pow_positive, pow};
use vstd::arithmetic::power2::{lemma2_to64, lemma2_to64_rest, lemma_pow2_pos, lemma_pow2_strictly_increases, lemma_pow2_unfold, pow2};

use vstd::bits::{lemma_u64_pow2_no_overflow, lemma_u64_shl_is_mul};

use crate::cell::CellState;

verus! {

/// The bit a cell contributes to its column's pattern: 1 for a red piece,
/// 0 for a yellow piece or an empty cell.
pub open spec fn cell_bit(cell: Option<CellState>) -> nat {
    match cell {
        Some(c) => c.spec_bit(),
        None => 0,
    }
}

/// The bit pattern of the lowest `h` cells of a column, the bottom cell
/// being the least significant bit.
pub open spec fn column_pattern(column: Seq<Option<CellState>>, h: nat) -> nat
    decreases h,
{
    if h == 0 {
        0
    } else {
        column_pattern(column, (h - 1) as nat) + cell_bit(column[h - 1]) * pow2((h - 1) as nat)
    }
}

/// The key of one column of height `h`: its pattern plus `2^h - 1`, so that
/// columns of different heights never share a key.
pub open spec fn column_code(column: Seq<Option<CellState>>, h: nat) -> nat {
    (column_pattern(column, h) + pow2(h) - 1) as nat
}

/// The radix of the board key for columns of `rows` cells: one more than the
/// largest column key.
pub open spec fn radix_base(rows: nat) -> nat {
    (pow2(rows + 1) - 1) as nat
}

/// The value of a mixed-radix numeral, most significant digit first.
pub open spec fn mixed_radix(digits: Seq<nat>, base: nat) -> nat
    decreases digits.len(),
{
    if digits.len() == 0 {
        0
    } else {
        mixed_radix(digits.drop_last(), base) * base + digits.last()
    }
}

/// A column of `h` pieces under gravity: exactly the lowest `h` cells are filled.
pub open spec fn column_wf(column: Seq<Option<CellState>>, h: nat) -> bool {
    &&& h <= column.len()
    &&& forall|r: int| 0 <= r < column.len() ==> (#[trigger] column[r] is Some <==> r < h)
}

/// Every key of a board with these dimensions fits in a `u64`.
pub open spec fn dims_fit(rows: nat, cols: nat) -> bool {
    &&& rows < 64
    &&& pow(radix_base(rows) as int, cols) <= u64::MAX
}

/// The key of each column of a grid, leftmost first.
pub open spec fn column_codes<const R: usize, const C: usize>(
    cells: [[Option<CellState>; R]; C],
    heights: [usize; C],
) -> Seq<nat> {
    Seq::new(C as nat, |c: int| column_code(cells[c]@, heights[c] as nat))
}

/// The key of a whole grid: its column keys read as a mixed-radix numeral,
/// leftmost column most significant.
pub open spec fn board_code<const R: usize, const C: usize>(
    cells: [[Option<CellState>; R]; C],
    heights: [usize; C],
) -> nat {
    mixed_radix(column_codes(cells, heights), radix_base(R as nat))
}

proof fn lemma_pattern_bound(column: Seq<Option<CellState>>, h: nat)
    ensures
        column_pattern(column, h) < pow2(h),
    decreases h,
{
    lemma_pow2_pos(h);
    if h > 0 {
        lemma_pattern_bound(column, (h - 1) as nat);
        lemma_pow2_unfold(h);
        assert(cell_bit(column[h - 1]) <= 1);
        if cell_bit(column[h - 1]) == 0 {
            assert(column_pattern(column, h) == column_pattern(column, (h - 1) as nat));
        } else {
            assert(column_pattern(column, h) == column_pattern(column, (h - 1) as nat) + pow2(
                (h - 1) as nat,
            ));
        }
    }
}

proof fn lemma_code_interval(column: Seq<Option<CellState>>, h: nat)
    ensures
        pow2(h) - 1 <= column_code(column, h),
        column_code(column, h) + 1 < pow2(h + 1),
{
    lemma_pattern_bound(column, h);
    lemma_pow2_unfold(h + 1);
}

/// A column key lies below the radix of any board at least as tall.
pub proof fn lemma_code_below_base(column: Seq<Option<CellState>>, h: nat, rows: nat)
    requires
        h <= rows,
    ensures
        column_code(column, h) < radix_base(rows),
{
    lemma_code_interval(column, h);
    if h < rows {
        lemma_pow2_strictly_increases(h + 1, rows + 1);
    }
}

proof fn lemma_pattern_injective(a: Seq<Option<CellState>>, b: Seq<Option<CellState>>, h: nat)
    requires
        column_pattern(a, h) == column_pattern(b, h),
    ensures
        forall|r: int| 0 <= r < h ==> cell_bit(#[trigger] a[r]) == cell_bit(b[r]),
    decreases h,
{
    if h > 0 {
        let k = (h - 1) as nat;
        lemma_pattern_bound(a, k);
        lemma_pattern_bound(b, k);
        assert(cell_bit(a[k as int]) <= 1 && cell_bit(b[k as int]) <= 1);
        assert(cell_bit(a[k as int]) == cell_bit(b[k as int])) by {
            if cell_bit(a[k as int]) == 0 && cell_bit(b[k as int]) == 1 {
                assert(column_pattern(a, h) == column_pattern(a, k));
                assert(column_pattern(b, h) == column_pattern(b, k) + pow2(k));
            }
            if cell_bit(a[k as int]) == 1 && cell_bit(b[k as int]) == 0 {
                assert(column_pattern(a, h) == column_pattern(a, k) + pow2(k));
                assert(column_pattern(b, h) == column_pattern(b, k));
            }
        }
        assert(column_pattern(a, k) == column_pattern(b, k)) by {
            if cell_bit(a[k as int]) == 0 {
                assert(column_pattern(a, h) == column_pattern(a, k));
                assert(column_pattern(b, h) == column_pattern(b, k));
            } else {
                assert(column_pattern(a, h) == column_pattern(a, k) + pow2(k));
                assert(column_pattern(b, h) == column_pattern(b, k) + pow2(k));
            }
        }
        lemma_pattern_injective(a, b, k);
    }
}

/// Column keys never collide: two columns of equal length under gravity have
/// the same key exactly when they have the same height and the same cells, and
/// every key lies below the radix `2^(rows + 1) - 1`.
pub proof fn lemma_column_code_perfect(
    a: Seq<Option<CellState>>,
    ha: nat,
    b: Seq<Option<CellState>>,
    hb: nat,
)
    requires
        a.len() == b.len(),
        column_wf(a, ha),
        column_wf(b, hb),
    ensures
        column_code(a, ha) == column_code(b, hb) <==> (ha == hb && a == b),
        column_code(a, ha) < radix_base(a.len()),
{
    lemma_code_below_base(a, ha, a.len());
    if column_code(a, ha) == column_code(b, hb) {
        lemma_code_interval(a, ha);
        lemma_code_interval(b, hb);
        if ha < hb {
            if ha + 1 < hb {
                lemma_pow2_strictly_increases(ha + 1, hb);
            }
        }
        if hb < ha {
            if hb + 1 < ha {
                lemma_pow2_strictly_increases(hb + 1, ha);
            }
        }
        assert(ha == hb);
        lemma_pow2_pos(ha);
        lemma_pattern_injective(a, b, ha);
        assert forall|r: int| 0 <= r < a.len() implies a[r] == b[r] by {
            if r < ha {
                assert(a[r] is Some && b[r] is Some);
                assert(cell_bit(a[r]) == cell_bit(b[r]));
            } else {
                assert(a[r] is None && b[r] is None);
            }
        }
        assert(a =~= b);
    }
}

/// The height `k <= h` whose key interval `[2^k - 1, 2^(k+1) - 1)` holds `v`.
proof fn lemma_find_height(v: nat, h: nat) -> (k: nat)
    requires
        v + 1 < pow2(h + 1),
    ensures
        k <= h,
        pow2(k) <= v + 1 < pow2(k + 1),
    decreases h,
{
    lemma_pow2_unfold(h + 1);
    if pow2(h) <= v + 1 {
        h
    } else {
        if h == 0 {
            lemma2_to64();
        }
        lemma_find_height(v, (h - 1) as nat)
    }
}

/// The column of `rows` cells holding `k` pieces whose colours spell the
/// low `k` bits of `p`, bottom first (1 for red).
pub open spec fn column_of_bits(rows: nat, k: nat, p: nat) -> Seq<Option<CellState>> {
    Seq::new(
        rows,
        |r: int|
            if r < k {
                Some(
                    if (p / pow2(r as nat)) % 2 == 1 {
                        CellState::Red
                    } else {
                        CellState::Yellow
                    },
                )
            } else {
                None
            },
    )
}

proof fn lemma_pattern_of_bits(rows: nat, k: nat, p: nat, j: nat)
    requires
        k <= rows,
        j <= k,
    ensures
        column_pattern(column_of_bits(rows, k, p), j) == p % pow2(j),
    decreases j,
{
    if j == 0 {
        lemma2_to64();
    } else {
        let i = (j - 1) as nat;
        lemma_pattern_of_bits(rows, k, p, i);
        lemma_pow2_pos(i);
        lemma_pow2_unfold(j);
        lemma_breakdown(p as int, pow2(i) as int, 2);
        assert(pow2(i) * 2 == pow2(j));
        let col = column_of_bits(rows, k, p);
        assert(cell_bit(col[i as int]) == (p / pow2(i)) % 2);
    }
}

/// Column keys leave no gap: every value below the radix `2^(rows + 1) - 1`
/// is the key of some column of `rows` cells under gravity. Together with
/// `lemma_column_code_perfect`, the columns of `rows` cells have exactly
/// `2^(rows + 1) - 1` distinct keys.
pub proof fn lemma_column_codes_cover(rows: nat, v: nat)
    requires
        v < radix_base(rows),
    ensures
        exists|column: Seq<Option<CellState>>, h: nat|
            column.len() == rows && column_wf(column, h) && #[trigger] column_code(column, h) == v,
{
    lemma_pow2_pos(rows + 1);
    let k = lemma_find_height(v, rows);
    let p = (v + 1 - pow2(k)) as nat;
    lemma_pow2_unfold(k + 1);
    let column = column_of_bits(rows, k, p);
    lemma_pattern_of_bits(rows, k, p, k);
    lemma_small_mod(p, pow2(k));
    assert(column_code(column, k) == v);
    assert(column_wf(column, k));
}

/// A numeral of zeros is worth zero.
pub(crate) proof fn lemma_zero_digits(digits: Seq<nat>, base: nat)
    requires
        forall|i: int| 0 <= i < digits.len() ==> #[trigger] digits[i] == 0,
    ensures
        mixed_radix(digits, base) == 0,
    decreases digits.len(),
{
    if digits.len() > 0 {
        lemma_zero_digits(digits.drop_last(), base);
        assert(digits[digits.len() - 1] == 0);
        assert(mixed_radix(digits.drop_last(), base) * base == 0);
    }
}

/// A numeral whose digits are all below the base is worth less than
/// `base^len`.
pub proof fn lemma_mixed_radix_bound(digits: Seq<nat>, base: nat)
    requires
        forall|i: int| 0 <= i < digits.len() ==> #[trigger] digits[i] < base,
    ensures
        mixed_radix(digits, base) < pow(base as int, digits.len()),
    decreases digits.len(),
{
    reveal(pow);
    if digits.len() > 0 {
        let rest = digits.drop_last();
        lemma_mixed_radix_bound(rest, base);
        let v = mixed_radix(rest, base);
        let p = pow(base as int, rest.len());
        assert(v + 1 <= p);
        assert(digits.last() < base);
        assert(v * base + digits.last() < p * base) by (nonlinear_arith)
            requires
                v + 1 <= p,
                digits.last() < base,
        ;
        assert(pow(base as int, digits.len()) == base * p);
    }
}

/// Mixed-radix numerals of equal length with all digits below the base are
/// equal exactly when their values are.
pub proof fn lemma_mixed_radix_injective(a: Seq<nat>, b: Seq<nat>, base: nat)
    requires
        a.len() == b.len(),
        forall|i: int| 0 <= i < a.len() ==> #[trigger] a[i] < base,
        forall|i: int| 0 <= i < b.len() ==> #[trigger] b[i] < base,
        mixed_radix(a, base) == mixed_radix(b, base),
    ensures
        a == b,
    decreases a.len(),
{
    if a.len() > 0 {
        let x = mixed_radix(a, base) as int;
        lemma_fundamental_div_mod_converse(
            x,
            base as int,
            mixed_radix(a.drop_last(), base) as int,
            a.last() as int,
        );
        lemma_fundamental_div_mod_converse(
            x,
            base as int,
            mixed_radix(b.drop_last(), base) as int,
            b.last() as int,
        );
        lemma_mixed_radix_injective(a.drop_last(), b.drop_last(), base);
        assert(a =~= a.drop_last().push(a.last()));
        assert(b =~= b.drop_last().push(b.last()));
    } else {
        assert(a =~= b);
    }
}

proof fn lemma_one_shl(s: u64)
    requires
        s < 64,
    ensures
        (1u64 << s) == pow2(s as nat),
{
    lemma_u64_pow2_no_overflow(s as nat);
    assert(1 * pow2(s as nat) == pow2(s as nat));
    lemma_u64_shl_is_mul(1, s);
}

/// The key of one column holding `height` pieces: the pattern of its pieces
/// (red as 1, bottom first) plus `2^height - 1`.
pub fn compute_column_hash<const R: usize>(column: &[Option<CellState>; R], height: usize) -> (r: u64)
    requires
        height <= R,
        R < 64,
    ensures
        r == column_code(column@, height as nat),
{
    let mut bit_pattern: u64 = 0;
    let mut row_idx: usize = 0;
    proof {
        lemma_pow2_pos(0);
    }

    // the bits of the occupied rows, bottom row least significant
    while row_idx < height
        invariant
            row_idx <= height <= R < 64,
            bit_pattern == column_pattern(column@, row_idx as nat),
            bit_pattern < pow2(row_idx as nat),
        decreases height - row_idx,
    {
        proof {
            lemma_pow2_unfold(row_idx as nat + 1);
            lemma_u64_pow2_no_overflow(row_idx as nat);
        }
        let ghost before = bit_pattern;
        assert(column_pattern(column@, row_idx as nat + 1) == before + cell_bit(column@[row_idx as int])
            * pow2(row_idx as nat));
        match column[row_idx] {
            Some(cell_state) => match cell_state {
                CellState::Red => {
                    let shift = row_idx as u64;
                    let bit = 1u64 << shift;
                    proof {
                        lemma_one_shl(shift);
                        assert(before < (1u64 << shift));
                        assert(before < (1u64 << shift) && shift < 64 ==> before | (1u64 << shift)
                            == before + (1u64 << shift)) by (bit_vector);
                    }
                    bit_pattern |= bit;
                    assert(cell_bit(column@[row_idx as int]) == 1);
                },
                CellState::Yellow => {
                    assert(cell_bit(column@[row_idx as int]) == 0);
                },
            },
            None => {
                assert(cell_bit(column@[row_idx as int]) == 0);
            },
        }
        row_idx += 1;
    }

    // 2^height - 1
    proof {
        lemma_u64_pow2_no_overflow(height as nat);
        lemma2_to64();
        lemma2_to64_rest();
        lemma_pow2_unfold(height as nat + 1);
    }
    let offset: u64 = if height > 0 {
        proof {
            lemma_one_shl(height as u64);
        }
        (1u64 << height as u64) - 1
    } else {
        0
    };
    bit_pattern + offset
}

/// The weights `base^i` of the key's digits, with `base = 2^(R + 1) - 1`.
fn make_radix_weights<const R: usize, const C: usize>() -> (r: [u64; C])
    requires
        dims_fit(R as nat, C as nat),
    ensures
        forall|i: int| 0 <= i < C ==> r[i] == pow(radix_base(R as nat) as int, i as nat),
{
    let ghost b = radix_base(R as nat);
    proof {
        lemma_one_shl(R as u64);
        lemma_pow2_unfold(R as nat + 1);
        lemma2_to64();
        lemma2_to64_rest();
    }
    // 2^(R + 1) - 1, written so that R = 63 does not overflow
    let base: u64 = ((1u64 << R as u64) - 1) * 2 + 1;
    assert(base == b);

    let mut powers: [u64; C] = [0; C];
    let mut i: usize = 0;
    while i < C
        invariant
            i <= C,
            dims_fit(R as nat, C as nat),
            base == b,
            b == radix_base(R as nat),
            b >= 1,
            forall|j: int| 0 <= j < i ==> powers[j] == pow(b as int, j as nat),
        decreases C - i,
    {
        proof {
            lemma_pow_increases(b, i as nat, C as nat);
            if i > 0 {
                let k = (i - 1) as nat;
                assert(pow(b as int, k + 1) == b * pow(b as int, k)) by {
                    reveal(pow);
                }
                assert(powers[k as int] == pow(b as int, k));
                assert(powers[k as int] * base == b * pow(b as int, k)) by (nonlinear_arith)
                    requires
                        powers[k as int] == pow(b as int, k),
                        base == b,
                ;
                assert(k + 1 == i);
            } else {
                assert(pow(b as int, 0) == 1) by {
                    reveal(pow);
                }
            }
        }
        powers[i] = if i == 0 {
            1
        } else {
            powers[i - 1] * base
        };
        i += 1;
    }
    powers
}

/// Every column key of a grid whose heights fit its rows lies below the radix.
pub(crate) proof fn lemma_codes_below_base<const R: usize, const C: usize>(
    cells: [[Option<CellState>; R]; C],
    heights: [usize; C],
)
    requires
        forall|c: int| 0 <= c < C ==> heights[c] <= R,
    ensures
        forall|c: int|
            0 <= c < C ==> #[trigger] column_codes(cells, heights)[c] < radix_base(R as nat),
{
    assert forall|c: int| 0 <= c < C implies #[trigger] column_codes(cells, heights)[c]
        < radix_base(R as nat) by {
        lemma_code_below_base(cells[c]@, heights[c] as nat, R as nat);
    }
}

/// The key of a whole grid: the column keys as the digits of a number in
/// radix `2^(R + 1) - 1`, the leftmost column most significant.
pub fn compute_board_hash<const R: usize, const C: usize>(
    cell_states: &[[Option<CellState>; R]; C],
    column_heights: &[usize; C],
) -> (r: u64)
    requires
        dims_fit(R as nat, C as nat),
        forall|c: int| 0 <= c < C ==> column_heights[c] <= R,
    ensures
        r == board_code(*cell_states, *column_heights),
{
    let radix_weights: [u64; C] = make_radix_weights::<R, C>();
    let ghost b = radix_base(R as nat);
    let ghost digits = column_codes(*cell_states, *column_heights);
    proof {
        lemma_codes_below_base(*cell_states, *column_heights);
        assert(digits.take(0) =~= Seq::<nat>::empty());
    }

    let mut hash: u64 = 0;
    let mut col_idx: usize = 0;
    while col_idx < C
        invariant
            col_idx <= C,
            dims_fit(R as nat, C as nat),
            b == radix_base(R as nat),
            digits == column_codes(*cell_states, *column_heights),
            forall|c: int| 0 <= c < C ==> column_heights[c] <= R,
            forall|c: int| 0 <= c < C ==> #[trigger] digits[c] < b,
            forall|i: int| 0 <= i < C ==> radix_weights[i] == pow(b as int, i as nat),
            hash == mixed_radix(digits.take(col_idx as int), b) * pow(b as int, (C - col_idx) as nat),
        decreases C - col_idx,
    {
        let column_hash = compute_column_hash::<R>(&cell_states[col_idx], column_heights[col_idx]);
        let weight = radix_weights[C - col_idx - 1];
        proof {
            let k = col_idx as int;
            let d = digits[k];
            let p = pow(b as int, (C - k - 1) as nat);
            let v = mixed_radix(digits.take(k), b);
            let next = digits.take(k + 1);
            assert(next.drop_last() =~= digits.take(k));
            assert(mixed_radix(next, b) == v * b + d);
            assert(pow(b as int, (C - k) as nat) == b * p) by {
                reveal(pow);
            }
            assert(column_hash == d);
            assert(weight == p);
            lemma_pow_positive(b as int, (C - k - 1) as nat);
            lemma_mixed_radix_bound(next, b);
            lemma_pow_adds(b as int, (k + 1) as nat, (C - k - 1) as nat);
            assert((k + 1) as nat + (C - k - 1) as nat == C as nat);
            let q = pow(b as int, (k + 1) as nat);
            assert(hash == v * (b * p));
            assert((v * b + d) * p == v * (b * p) + d * p
                && d * p <= (v * b + d) * p
                && (v * b + d) * p < q * p) by (nonlinear_arith)
                requires
                    v * b + d < q,
                    p > 0,
                    v >= 0,
                    d >= 0,
                    b >= 0,
            ;
        }
        hash += column_hash * weight;
        col_idx += 1;
    }
    assert(digits.take(C as int) =~= digits);
    proof {
        reveal(pow);
    }
    hash
}

} // verus!
