//! Parity-sort permutation of a weight matrix's blocks.
//!
//! For each row the permutation lists the row's block indices, all even-parity
//! blocks first, then the odd ones, each group in ascending order.

use vstd::prelude::*;

verus! {

/// The indices below `upto` whose parity is `want`, in ascending order.
pub open spec fn with_parity(row: Seq<u8>, want: u8, upto: int) -> Seq<u16>
    decreases upto,
{
    if upto <= 0 {
        Seq::empty()
    } else if row[upto - 1] == want {
        with_parity(row, want, upto - 1).push((upto - 1) as u16)
    } else {
        with_parity(row, want, upto - 1)
    }
}

/// The permutation of one row: even blocks, then odd ones.
pub open spec fn row_perm(row: Seq<u8>) -> Seq<u16> {
    with_parity(row, 0, row.len() as int) + with_parity(row, 1, row.len() as int)
}

/// Row `r` of a matrix of `width` blocks per row.
pub open spec fn matrix_row(parity: Seq<u8>, width: int, r: int) -> Seq<u8> {
    parity.subrange(r * width, (r + 1) * width)
}

/// The permutations of the first `rows` rows, one after the other.
pub open spec fn parity_perm(parity: Seq<u8>, width: int, rows: int) -> Seq<u16>
    decreases rows,
{
    if rows <= 0 {
        Seq::empty()
    } else {
        parity_perm(parity, width, rows - 1) + row_perm(matrix_row(parity, width, rows - 1))
    }
}

/// Appends the indices of `row` whose parity is `want`.
fn push_with_parity(row: &[u8], want: u8, perm: &mut Vec<u16>)
    ensures
        final(perm)@ == old(perm)@ + with_parity(row@, want, row@.len() as int),
{
    let mut k: usize = 0;
    assert(perm@ + Seq::<u16>::empty() =~= perm@);
    while k < row.len()
        invariant
            k <= row.len(),
            perm@ == old(perm)@ + with_parity(row@, want, k as int),
        decreases row.len() - k,
    {
        let ghost before = with_parity(row@, want, k as int);
        if row[k] == want {
            perm.push(k as u16);
            assert(perm@ =~= old(perm)@ + before.push(k as u16));
        }
        k = k + 1;
    }
}

/// Builds the parity-sort permutation from the per-block parities of a matrix
/// of `n_rows` rows of `b_blocks` blocks. A block whose parity is neither 0 nor
/// 1 is listed nowhere.
pub fn build_parity_perm(parity: &[u8], n_rows: usize, b_blocks: usize) -> (perm: Vec<u16>)
    requires
        n_rows * b_blocks <= parity.len(),
    ensures
        perm@ == parity_perm(parity@, b_blocks as int, n_rows as int),
{
    let mut perm: Vec<u16> = Vec::new();
    let mut r: usize = 0;
    while r < n_rows
        invariant
            r <= n_rows,
            n_rows * b_blocks <= parity.len(),
            perm@ == parity_perm(parity@, b_blocks as int, r as int),
        decreases n_rows - r,
    {
        assert(0 <= r * b_blocks <= (r + 1) * b_blocks <= n_rows * b_blocks) by (nonlinear_arith)
            requires
                0 <= r < n_rows,
                0 <= b_blocks,
        ;
        let row: &[u8] = &parity[r * b_blocks..(r + 1) * b_blocks];
        let ghost before = perm@;
        push_with_parity(row, 0, &mut perm);
        push_with_parity(row, 1, &mut perm);
        assert(row@.len() == b_blocks) by (nonlinear_arith)
            requires
                row@.len() == (r + 1) * b_blocks - r * b_blocks,
        ;
        assert(perm@ =~= before + row_perm(matrix_row(parity@, b_blocks as int, r as int)));
        r = r + 1;
    }
    perm
}

proof fn lemma_with_parity(row: Seq<u8>, want: u8, upto: int)
    requires
        0 <= upto <= row.len() <= 0x1_0000,
    ensures
        ({
            let s = with_parity(row, want, upto);
            &&& forall|i: int| 0 <= i < s.len() ==> #[trigger] s[i] < upto && row[s[i] as int]
                == want
            &&& forall|i: int, j: int| 0 <= i < j < s.len() ==> s[i] < s[j]
            &&& forall|k: int|
                0 <= k < upto && #[trigger] row[k] == want ==> s.contains(k as u16)
        }),
    decreases upto,
{
    if upto > 0 {
        lemma_with_parity(row, want, upto - 1);
        let before = with_parity(row, want, upto - 1);
        let s = with_parity(row, want, upto);
        assert forall|k: int| 0 <= k < upto && #[trigger] row[k] == want implies s.contains(
            k as u16,
        ) by {
            if k < upto - 1 {
                assert(before.contains(k as u16));
                let i = choose|i: int| 0 <= i < before.len() && before[i] == k as u16;
                assert(s[i] == k as u16);
            } else {
                assert(s[s.len() - 1] == k as u16);
            }
        }
    }
}

proof fn lemma_with_parity_len(row: Seq<u8>, upto: int)
    requires
        0 <= upto <= row.len(),
        forall|k: int| 0 <= k < row.len() ==> #[trigger] row[k] <= 1,
    ensures
        with_parity(row, 0, upto).len() + with_parity(row, 1, upto).len() == upto,
    decreases upto,
{
    if upto > 0 {
        lemma_with_parity_len(row, upto - 1);
        assert(row[upto - 1] <= 1);
    }
}

/// A row's permutation lists each of its blocks exactly once, the even ones
/// before the odd ones, and blocks of the same parity in ascending order;
/// provided that the row has at most 65536 blocks, each of parity 0 or 1.
pub proof fn row_perm_sorts_by_parity(row: Seq<u8>)
    requires
        row.len() <= 0x1_0000,
        forall|k: int| 0 <= k < row.len() ==> #[trigger] row[k] <= 1,
    ensures
        ({
            let s = row_perm(row);
            &&& s.len() == row.len()
            &&& s.no_duplicates()
            &&& forall|i: int| 0 <= i < s.len() ==> #[trigger] s[i] < row.len()
            &&& forall|k: int| 0 <= k < row.len() ==> #[trigger] s.contains(k as u16)
            &&& forall|i: int, j: int|
                0 <= i < j < s.len() ==> row[#[trigger] s[i] as int] < row[#[trigger] s[j] as int]
                    || (row[s[i] as int] == row[s[j] as int] && s[i] < s[j])
        }),
{
    let n = row.len() as int;
    let evens = with_parity(row, 0, n);
    let odds = with_parity(row, 1, n);
    let s = row_perm(row);
    lemma_with_parity(row, 0, n);
    lemma_with_parity(row, 1, n);
    lemma_with_parity_len(row, n);
    assert forall|i: int| 0 <= i < s.len() implies #[trigger] s[i] < n && row[s[i] as int] == (
    if i < evens.len() {
        0u8
    } else {
        1u8
    }) by {
        if i < evens.len() {
            assert(s[i] == evens[i]);
        } else {
            assert(s[i] == odds[i - evens.len()]);
        }
    }
    assert forall|i: int, j: int| 0 <= i < j < s.len() implies row[#[trigger] s[i] as int]
        < row[#[trigger] s[j] as int] || (row[s[i] as int] == row[s[j] as int] && s[i] < s[j]) by {
        if j < evens.len() {
            assert(evens[i] < evens[j]);
        } else if i >= evens.len() {
            assert(odds[i - evens.len()] < odds[j - evens.len()]);
        }
    }
    assert forall|k: int| 0 <= k < row.len() implies #[trigger] s.contains(k as u16) by {
        assert(row[k] <= 1);
        if row[k] == 0 {
            assert(evens.contains(k as u16));
            let i = choose|i: int| 0 <= i < evens.len() && evens[i] == k as u16;
            assert(s[i] == k as u16);
        } else {
            assert(odds.contains(k as u16));
            let i = choose|i: int| 0 <= i < odds.len() && odds[i] == k as u16;
            assert(s[evens.len() + i] == k as u16);
        }
    }
}

/// A row's permutation lists exactly its blocks of parity 0 and 1, whatever the
/// others are, even ones first and each group in ascending order.
pub proof fn row_perm_lists_known_parities(row: Seq<u8>)
    requires
        row.len() <= 0x1_0000,
    ensures
        ({
            let s = row_perm(row);
            &&& forall|i: int|
                0 <= i < s.len() ==> #[trigger] s[i] < row.len() && row[s[i] as int] <= 1
            &&& forall|k: int|
                0 <= k < row.len() && #[trigger] row[k] <= 1 ==> s.contains(k as u16)
            &&& forall|i: int, j: int|
                0 <= i < j < s.len() ==> row[#[trigger] s[i] as int] < row[#[trigger] s[j] as int]
                    || (row[s[i] as int] == row[s[j] as int] && s[i] < s[j])
        }),
{
    let n = row.len() as int;
    let evens = with_parity(row, 0, n);
    let odds = with_parity(row, 1, n);
    let s = row_perm(row);
    lemma_with_parity(row, 0, n);
    lemma_with_parity(row, 1, n);
    assert forall|i: int| 0 <= i < s.len() implies #[trigger] s[i] < n && row[s[i] as int] == (
    if i < evens.len() {
        0u8
    } else {
        1u8
    }) by {
        if i < evens.len() {
            assert(s[i] == evens[i]);
        } else {
            assert(s[i] == odds[i - evens.len()]);
        }
    }
    assert forall|i: int, j: int| 0 <= i < j < s.len() implies row[#[trigger] s[i] as int]
        < row[#[trigger] s[j] as int] || (row[s[i] as int] == row[s[j] as int] && s[i] < s[j]) by {
        if j < evens.len() {
            assert(evens[i] < evens[j]);
        } else if i >= evens.len() {
            assert(odds[i - evens.len()] < odds[j - evens.len()]);
        }
    }
    assert forall|k: int| 0 <= k < row.len() && #[trigger] row[k] <= 1 implies s.contains(
        k as u16,
    ) by {
        if row[k] == 0 {
            assert(evens.contains(k as u16));
            let i = choose|i: int| 0 <= i < evens.len() && evens[i] == k as u16;
            assert(s[i] == k as u16);
        } else {
            assert(odds.contains(k as u16));
            let i = choose|i: int| 0 <= i < odds.len() && odds[i] == k as u16;
            assert(s[evens.len() + i] == k as u16);
        }
    }
}

/// A matrix's permutation is that of its rows one after the other: none for no
/// rows, and a further row's at the end.
pub proof fn parity_perm_appends_rows(parity: Seq<u8>, width: int, rows: int)
    requires
        0 <= rows,
    ensures
        parity_perm(parity, width, 0).len() == 0,
        parity_perm(parity, width, rows + 1) == parity_perm(parity, width, rows) + row_perm(
            parity.subrange(width * rows, width * rows + width),
        ),
{
    assert(rows * width == width * rows) by (nonlinear_arith);
    assert((rows + 1) * width == width * rows + width) by (nonlinear_arith);
}

/// Segment `r` of a matrix's permutation is the permutation of row `r`;
/// provided that every block has parity 0 or 1.
pub proof fn parity_perm_by_row(parity: Seq<u8>, width: int, rows: int, r: int)
    requires
        0 <= width,
        0 <= r < rows,
        rows * width <= parity.len(),
        forall|k: int| 0 <= k < parity.len() ==> #[trigger] parity[k] <= 1,
    ensures
        parity_perm(parity, width, rows).len() == rows * width,
        parity_perm(parity, width, rows).subrange(r * width, (r + 1) * width) == row_perm(
            matrix_row(parity, width, r),
        ),
    decreases rows,
{
    let last = rows - 1;
    let row = matrix_row(parity, width, last);
    let before = parity_perm(parity, width, last);
    let whole = parity_perm(parity, width, rows);
    assert(rows * width == last * width + width) by (nonlinear_arith)
        requires
            last == rows - 1,
    ;
    assert(0 <= last * width) by (nonlinear_arith)
        requires
            0 <= last,
            0 <= width,
    ;
    assert((last + 1) * width == rows * width);
    assert(row.len() == width);
    lemma_with_parity_len(row, width);
    assert(row_perm(row).len() == width);
    if last == 0 {
        assert(before.len() == 0);
        assert(last * width == 0) by (nonlinear_arith)
            requires
                last == 0,
        ;
        assert(whole.subrange(r * width, (r + 1) * width) =~= row_perm(row));
    } else if r == last {
        parity_perm_by_row(parity, width, last, 0);
        assert(whole.subrange(r * width, (r + 1) * width) =~= row_perm(row));
    } else {
        parity_perm_by_row(parity, width, last, r);
        assert(0 <= r * width <= (r + 1) * width <= last * width) by (nonlinear_arith)
            requires
                0 <= r < last,
                0 <= width,
        ;
        assert(whole.subrange(r * width, (r + 1) * width) =~= before.subrange(
            r * width,
            (r + 1) * width,
        ));
    }
}

} // verus!
