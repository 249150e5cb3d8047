use vstd::prelude::*;

use itertools::Itertools;

verus! {

/// Whether `n` points make a cubic Bézier spline: at least four, and one
/// more than a multiple of three.
pub open spec fn is_cubic_spline_length(n: nat) -> bool {
    n >= 4 && (n - 1) % 3 == 0
}

/// The number of cubic pieces taken from `n` points: one for every run of
/// four consecutive points that starts at a multiple of three.
pub open spec fn spline_piece_count(n: nat) -> nat {
    if n >= 4 {
        ((n - 1) / 3) as nat
    } else {
        0
    }
}

/// The `k`-th cubic piece of a spline: the four points starting at `3 * k`.
pub open spec fn spline_piece<T>(points: Seq<T>, k: int) -> (T, T, T, T) {
    (points[3 * k], points[3 * k + 1], points[3 * k + 2], points[3 * k + 3])
}

/// In a spline with a valid number of points, the pieces use three points
/// each plus the first, the first piece starts at the first point, each
/// piece starts where the one before it ends, and the last piece ends at the
/// last point.
pub proof fn lemma_spline_pieces_chain<T>(points: Seq<T>)
    requires
        is_cubic_spline_length(points.len()),
    ensures
        3 * spline_piece_count(points.len()) + 1 == points.len(),
        spline_piece(points, 0).0 == points[0],
        forall|k: int|
            0 <= k < spline_piece_count(points.len()) - 1 ==> #[trigger] spline_piece(points, k).3
                == spline_piece(points, k + 1).0,
        spline_piece(points, spline_piece_count(points.len()) - 1).3 == points.last(),
{
}

/// The valid point counts are exactly the numbers from 4 up that leave 1
/// when divided by 3: 4, 7, 10, 13, and so on without end.
pub proof fn lemma_spline_lengths(n: nat)
    ensures
        is_cubic_spline_length(n) <==> (n >= 4 && n % 3 == 1),
        forall|k: nat| k >= 1 ==> #[trigger] is_cubic_spline_length(3 * k + 1),
        forall|k: nat| !#[trigger] is_cubic_spline_length(3 * k) && !is_cubic_spline_length(3 * k + 2),
{
}

/// The points that a run of cubic pieces passes through, in order: where
/// the first piece starts, then the three further points of each piece.
pub open spec fn points_of_pieces<T>(start: T, pieces: Seq<(T, T, T, T)>) -> Seq<T>
    decreases pieces.len(),
{
    if pieces.len() == 0 {
        seq![start]
    } else {
        points_of_pieces(start, pieces.drop_last()) + seq![
            pieces.last().1,
            pieces.last().2,
            pieces.last().3,
        ]
    }
}

/// Pieces that start at every third point and chain end to start give back
/// the points they were cut from: reading the first piece's start and then
/// the three further points of each piece yields the first `3 * m + 1`
/// points, in order.
pub proof fn lemma_pieces_give_back_points<T>(points: Seq<T>, pieces: Seq<(T, T, T, T)>)
    requires
        pieces.len() > 0,
        3 * pieces.len() + 1 <= points.len(),
        forall|k: int| 0 <= k < pieces.len() ==> #[trigger] pieces[k] == spline_piece(points, k),
    ensures
        points_of_pieces(points[0], pieces) == points.take(3 * pieces.len() + 1 as int),
    decreases pieces.len(),
{
    let m = pieces.len() as int;
    let last = pieces[m - 1];
    assert(last == spline_piece(points, m - 1));
    if m == 1 {
        assert(points_of_pieces(points[0], pieces.drop_last()) == seq![points[0]]);
        assert(points_of_pieces(points[0], pieces) =~= points.take(4));
    } else {
        let shorter = pieces.drop_last();
        assert forall|k: int| 0 <= k < shorter.len() implies #[trigger] shorter[k] == spline_piece(
            points,
            k,
        ) by {
            assert(shorter[k] == pieces[k]);
        }
        lemma_pieces_give_back_points(points, shorter);
        assert(points_of_pieces(points[0], pieces) =~= points.take(3 * m + 1));
    }
}

/// In a spline with a valid number of points, its pieces give back all of
/// its points, in order.
pub proof fn lemma_spline_pieces_reassemble<T>(points: Seq<T>)
    requires
        is_cubic_spline_length(points.len()),
    ensures
        points_of_pieces(
            points[0],
            Seq::new(spline_piece_count(points.len()), |k: int| spline_piece(points, k)),
        ) == points,
{
    let pieces = Seq::new(spline_piece_count(points.len()), |k: int| spline_piece(points, k));
    lemma_pieces_give_back_points(points, pieces);
    assert(points.take(3 * pieces.len() + 1 as int) =~= points);
}

/// The point count of a spline is not of the form `3 * k + 1` with `k >= 1`.
pub struct InvalidSplinePoints {
    pub len: usize,
}

impl InvalidSplinePoints {
    /// What a spline's points should be, in words.
    pub fn expected() -> (s: &'static str)
        ensures
            s@ == "a valid sequence of points for a cubic spline - a sequence of at least length 4, which is 1 greater than a multiple of 3"@,
    {
        "a valid sequence of points for a cubic spline - a sequence of at least length 4, which is 1 greater than a multiple of 3"
    }
}

/// Accepts the points of a cubic spline when their count is valid.
pub fn validate_cubic_spline_points<T>(points: Vec<T>) -> (r: Result<Vec<T>, InvalidSplinePoints>)
    ensures
        r is Ok <==> (points@.len() >= 4 && points@.len() % 3 == 1),
        is_cubic_spline_length(points@.len()) ==> (r matches Ok(v) && v@ == points@),
        !is_cubic_spline_length(points@.len()) ==> (r matches Err(e) && e.len == points@.len()),
{
    let n = points.len();
    if n >= 4 && (n - 1) % 3 == 0 {
        Ok(points)
    } else {
        Err(InvalidSplinePoints { len: n })
    }
}

/// The windows of four consecutive indices below `n`, in order, as
/// `Itertools::tuple_windows` yields them from `0..n`: `(i, i + 1, i + 2, i + 3)`
/// for each `i` from 0 while `i + 3 < n`, and none when `n < 4`.
#[verifier::external_body]
fn index_windows(n: usize) -> (w: Vec<(usize, usize, usize, usize)>)
    ensures
        w@.len() == (if n >= 4 { n - 3 } else { 0 }),
        forall|i: int|
            0 <= i < w@.len() ==> #[trigger] w@[i] == (i as usize, (i + 1) as usize, (i + 2) as usize, (
            i + 3) as usize),
{
    (0..n).tuple_windows::<(usize, usize, usize, usize)>().collect()
}

/// The cubic pieces of a spline: every third window of four consecutive
/// points, starting with the first, so that each piece starts where the one
/// before it ends.
pub fn spline_segments<T: Copy>(points: &Vec<T>) -> (pieces: Vec<(T, T, T, T)>)
    ensures
        pieces@.len() == spline_piece_count(points@.len()),
        forall|k: int| 0 <= k < pieces@.len() ==> #[trigger] pieces@[k] == spline_piece(points@, k),
        forall|k: int|
            0 <= k < pieces@.len() ==> #[trigger] pieces@[k] == (
                points@[3 * k],
                points@[3 * k + 1],
                points@[3 * k + 2],
                points@[3 * k + 3],
            ),
        pieces@.len() > 0 ==> points_of_pieces(points@[0], pieces@) == points@.take(
            3 * pieces@.len() + 1 as int,
        ),
{
    let windows = index_windows(points.len());
    let mut pieces: Vec<(T, T, T, T)> = Vec::new();
    let mut i: usize = 0;
    while i < windows.len()
        invariant
            windows@.len() == (if points@.len() >= 4 { points@.len() - 3 } else { 0 }),
            forall|j: int|
                0 <= j < windows@.len() ==> #[trigger] windows@[j] == (j as usize, (j + 1) as usize, (
                j + 2) as usize, (j + 3) as usize),
            i % 3 == 0,
            i <= windows@.len() + 2,
            pieces@.len() == i / 3,
            forall|k: int| 0 <= k < pieces@.len() ==> #[trigger] pieces@[k] == spline_piece(points@, k),
        decreases windows@.len() + 3 - i,
    {
        let (a, b, c, d) = windows[i];
        pieces.push((points[a], points[b], points[c], points[d]));
        i = i + 3;
    }
    proof {
        if pieces@.len() > 0 {
            assert(3 * pieces@.len() + 1 <= points@.len());
            lemma_pieces_give_back_points(points@, pieces@);
        }
    }
    pieces
}

} // verus!
