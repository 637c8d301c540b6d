//! The placement of the elements of a 4x4 matrix, stored column + row * 4,
//! when it is transposed. The elements themselves (floating point in the
//! renderer) are only moved, never computed with.

use vstd::prelude::*;

verus! {

/// The element at `col`, `row` of a matrix stored column + row * 4.
pub open spec fn at<T>(e: Seq<T>, col: int, row: int) -> T {
    e[col + row * 4]
}

/// The transpose of `e` as the renderer computes it: every element moves
/// from `col`, `row` to `row`, `col`, except that the element at column 0,
/// row 1 keeps its own value instead of taking the one at column 1, row 0.
pub open spec fn transposed<T>(e: Seq<T>, res: Seq<T>) -> bool {
    &&& res.len() == 16
    &&& forall|col: int, row: int|
        0 <= col < 4 && 0 <= row < 4 && !(col == 0 && row == 1) ==> #[trigger] at(res, col, row) == at(
            e,
            row,
            col,
        )
    &&& at(res, 0, 1) == at(e, 0, 1)
}

/// The elements of the transpose of the matrix with elements `elements`.
pub fn transpose_elements<T: Copy>(elements: &[T; 16]) -> (res: [T; 16])
    ensures
        transposed(elements@, res@),
{
    let e = elements;
    let res = [
        e[0], e[4], e[8], e[12],
        e[4], e[5], e[9], e[13],
        e[2], e[6], e[10], e[14],
        e[3], e[7], e[11], e[15],
    ];
    assert forall|col: int, row: int|
        0 <= col < 4 && 0 <= row < 4 && !(col == 0 && row == 1) implies #[trigger] at(res@, col, row) == at(
            e@,
            row,
            col,
        ) by {
        assert(0 <= col + row * 4 < 16);
    }
    res
}

/// Transposing twice gives the matrix back exactly when its elements at
/// column 0, row 1 and column 1, row 0 are equal.
pub proof fn lemma_transpose_twice<T>(e: Seq<T>, once: Seq<T>, twice: Seq<T>)
    requires
        e.len() == 16,
        transposed(e, once),
        transposed(once, twice),
    ensures
        (twice =~= e) <==> (at(e, 1, 0) == at(e, 0, 1)),
{
    assert forall|col: int, row: int| 0 <= col < 4 && 0 <= row < 4 && !(col == 0 && row == 1) && !(col == 1 && row == 0)
        implies #[trigger] at(twice, col, row) == at(e, col, row) by {
        assert(at(twice, col, row) == at(once, row, col));
    }
    assert(at(twice, 0, 1) == at(once, 0, 1));
    assert(at(twice, 1, 0) == at(once, 0, 1));
    if at(e, 1, 0) == at(e, 0, 1) {
        assert forall|i: int| 0 <= i < 16 implies twice[i] == e[i] by {
            let col = i % 4;
            let row = i / 4;
            assert(i == col + row * 4);
            assert(at(twice, col, row) == at(e, col, row));
        }
    } else {
        assert(twice[1] != e[1]);
    }
}

} // verus!
