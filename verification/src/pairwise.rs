//! Squared Euclidean distances between points with whole-number coordinates.
//!
//! The distance between two points is computed from their squared norms and
//! their inner product, so that a matrix of distances needs each norm once.
//! On whole numbers this is exact, and the result is the sum of the squared
//! differences of the coordinates.

use vstd::prelude::*;

verus! {

/// The inner product of `a` and `b`.
pub open spec fn dot(a: Seq<i32>, b: Seq<i32>) -> int
    recommends
        a.len() == b.len(),
    decreases a.len(),
{
    if a.len() == 0 {
        0
    } else {
        dot(a.drop_last(), b.drop_last()) + a.last() * b.last()
    }
}

/// The squared distance between `a` and `b`, from their squared norms and
/// their inner product.
pub open spec fn sq_dist(a: Seq<i32>, b: Seq<i32>) -> int
    recommends
        a.len() == b.len(),
{
    dot(a, a) + dot(b, b) - 2 * dot(a, b)
}

/// The sum of the squared differences of the coordinates of `a` and `b`.
pub open spec fn sum_sq_diff(a: Seq<i32>, b: Seq<i32>) -> int
    recommends
        a.len() == b.len(),
    decreases a.len(),
{
    if a.len() == 0 {
        0
    } else {
        sum_sq_diff(a.drop_last(), b.drop_last()) + (a.last() - b.last()) * (a.last() - b.last())
    }
}

/// The rows of `x` all have one length.
pub open spec fn is_matrix(x: Seq<Vec<i32>>) -> bool {
    forall|i: int, j: int| 0 <= i < x.len() && 0 <= j < x.len() ==> x[i].len() == x[j].len()
}

/// The largest product of two coordinates: `2^62`.
pub open spec fn max_product() -> int {
    0x4000_0000_0000_0000
}

/// The largest squared difference of two coordinates: `(2^32 - 1)^2`.
pub open spec fn max_sq_diff() -> int {
    0xffff_fffe_0000_0001
}

proof fn lemma_product_bound(x: i32, y: i32)
    ensures
        -max_product() <= x * y <= max_product(),
        0 <= x * x,
        x * y == y * x,
        0 <= (x - y) * (x - y) <= max_sq_diff(),
        (x - y) * (x - y) == x * x + y * y - 2 * (x * y),
{
    assert(-0x4000_0000_0000_0000 <= x * y <= 0x4000_0000_0000_0000) by (nonlinear_arith)
        requires
            -0x8000_0000 <= x < 0x8000_0000,
            -0x8000_0000 <= y < 0x8000_0000,
    ;
    assert(0 <= x * x) by (nonlinear_arith);
    assert(x * y == y * x) by (nonlinear_arith);
    let d = x - y;
    assert(0 <= d * d <= 0xffff_fffe_0000_0001) by (nonlinear_arith)
        requires
            -0xffff_ffff <= d <= 0xffff_ffff,
    ;
    assert((x - y) * (x - y) == x * x + y * y - 2 * (x * y)) by (nonlinear_arith);
}

/// The inner product does not depend on the order of its arguments.
pub proof fn lemma_dot_commutes(a: Seq<i32>, b: Seq<i32>)
    requires
        a.len() == b.len(),
    ensures
        dot(a, b) == dot(b, a),
    decreases a.len(),
{
    if a.len() > 0 {
        lemma_dot_commutes(a.drop_last(), b.drop_last());
        lemma_product_bound(a.last(), b.last());
    }
}

/// The size of an inner product is at most `2^62` for each coordinate, and a
/// squared norm is not negative.
pub proof fn lemma_dot_bound(a: Seq<i32>, b: Seq<i32>)
    requires
        a.len() == b.len(),
    ensures
        -(a.len() * max_product()) <= dot(a, b) <= a.len() * max_product(),
        0 <= dot(a, a),
    decreases a.len(),
{
    if a.len() > 0 {
        lemma_dot_bound(a.drop_last(), b.drop_last());
        lemma_product_bound(a.last(), b.last());
        lemma_product_bound(a.last(), a.last());
    }
}

/// The squared distance is the sum of the squared differences of the
/// coordinates: computing it from norms and inner product loses nothing.
pub proof fn lemma_sq_dist_is_sum_sq_diff(a: Seq<i32>, b: Seq<i32>)
    requires
        a.len() == b.len(),
    ensures
        sq_dist(a, b) == sum_sq_diff(a, b),
        0 <= sq_dist(a, b) <= a.len() * max_sq_diff(),
    decreases a.len(),
{
    if a.len() > 0 {
        lemma_sq_dist_is_sum_sq_diff(a.drop_last(), b.drop_last());
        lemma_product_bound(a.last(), b.last());
    }
}

/// The squared distance is symmetric, and zero from a point to itself.
pub proof fn lemma_sq_dist_symmetric(a: Seq<i32>, b: Seq<i32>)
    requires
        a.len() == b.len(),
    ensures
        sq_dist(a, b) == sq_dist(b, a),
        sq_dist(a, a) == 0,
{
    lemma_dot_commutes(a, b);
}

/// Tells whether the rows of `x` all have one length.
pub fn is_rectangular(x: &Vec<Vec<i32>>) -> (yes: bool)
    ensures
        yes == is_matrix(x@),
{
    let mut i: usize = 1;
    while i < x.len()
        invariant
            1 <= i,
            forall|r: int| 0 <= r < i && r < x.len() ==> (#[trigger] x[r]).len() == x[0].len(),
        decreases x.len() - i,
    {
        if x[i].len() != x[0].len() {
            return false;
        }
        i = i + 1;
    }
    true
}

/// Computes the inner product of `a` and `b`.
pub fn dot_product(a: &Vec<i32>, b: &Vec<i32>) -> (product: i128)
    requires
        a.len() == b.len(),
    ensures
        product == dot(a@, b@),
{
    let mut acc: i128 = 0;
    let mut k: usize = 0;
    while k < a.len()
        invariant
            k <= a.len(),
            a.len() == b.len(),
            acc == dot(a@.take(k as int), b@.take(k as int)),
            -(k * max_product()) <= acc <= k * max_product(),
        decreases a.len() - k,
    {
        proof {
            lemma_product_bound(a[k as int], b[k as int]);
            assert(a@.take(k + 1).drop_last() =~= a@.take(k as int));
            assert(b@.take(k + 1).drop_last() =~= b@.take(k as int));
        }
        acc = acc + (a[k] as i128) * (b[k] as i128);
        k = k + 1;
    }
    proof {
        assert(a@.take(k as int) =~= a@);
        assert(b@.take(k as int) =~= b@);
    }
    acc
}

/// Computes the squared distance between two points from their squared
/// norms and their inner product.
fn combine(norm_a: i128, norm_b: i128, product: i128, Ghost(a): Ghost<Seq<i32>>, Ghost(b): Ghost<
    Seq<i32>,
>) -> (dist: u128)
    requires
        a.len() == b.len(),
        a.len() <= usize::MAX,
        norm_a == dot(a, a),
        norm_b == dot(b, b),
        product == dot(a, b),
    ensures
        dist == sq_dist(a, b),
{
    proof {
        lemma_dot_bound(a, a);
        lemma_dot_bound(b, b);
        lemma_dot_bound(a, b);
        lemma_sq_dist_is_sum_sq_diff(a, b);
        let n = a.len() as int;
        assert(n <= 0xffff_ffff_ffff_ffff);
        assert(n * max_product() <= 0xffff_ffff_ffff_ffff * 0x4000_0000_0000_0000);
        assert(n * max_sq_diff() <= 0xffff_ffff_ffff_ffff * 0xffff_fffe_0000_0001);
    }
    let norms: u128 = (norm_a + norm_b) as u128;
    let twice: i128 = 2 * product;
    if twice >= 0 {
        norms - twice as u128
    } else {
        let excess: i128 = -twice;
        assert(norms + excess == sq_dist(a, b));
        norms + excess as u128
    }
}

/// Computes the matrix of squared distances between the rows of `x`.
///
/// The entry in row `i` and column `j` is `|x_i|^2 + |x_j|^2 - 2 (x_i . x_j)`.
/// The matrix is symmetric and its diagonal is zero.
pub fn cal_pairwise_dist(x: &Vec<Vec<i32>>) -> (dist: Vec<Vec<u128>>)
    requires
        is_matrix(x@),
    ensures
        dist.len() == x.len(),
        forall|i: int| 0 <= i < dist.len() ==> (#[trigger] dist[i]).len() == x.len(),
        forall|i: int, j: int|
            0 <= i < x.len() && 0 <= j < x.len() ==> #[trigger] dist[i][j] == sq_dist(x[i]@, x[j]@),
        forall|i: int, j: int|
            0 <= i < x.len() && 0 <= j < x.len() ==> #[trigger] dist[i][j] == dist[j][i],
        forall|i: int| 0 <= i < x.len() ==> (#[trigger] dist[i])[i] == 0,
{
    let n = x.len();
    let mut norms: Vec<i128> = Vec::new();
    let mut i: usize = 0;
    while i < n
        invariant
            n == x.len(),
            i <= n,
            norms.len() == i,
            forall|r: int| 0 <= r < i ==> #[trigger] norms[r] == dot(x[r]@, x[r]@),
        decreases n - i,
    {
        let norm = dot_product(&x[i], &x[i]);
        norms.push(norm);
        i = i + 1;
    }
    let mut dist: Vec<Vec<u128>> = Vec::new();
    let mut i: usize = 0;
    while i < n
        invariant
            n == x.len(),
            is_matrix(x@),
            i <= n,
            norms.len() == n,
            forall|r: int| 0 <= r < n ==> #[trigger] norms[r] == dot(x[r]@, x[r]@),
            dist.len() == i,
            forall|r: int| 0 <= r < i ==> (#[trigger] dist[r]).len() == n,
            forall|r: int, c: int|
                0 <= r < i && 0 <= c < n ==> #[trigger] dist[r][c] == sq_dist(x[r]@, x[c]@),
        decreases n - i,
    {
        let mut row: Vec<u128> = Vec::new();
        let mut j: usize = 0;
        while j < n
            invariant
                n == x.len(),
                is_matrix(x@),
                i < n,
                j <= n,
                norms.len() == n,
                forall|r: int| 0 <= r < n ==> #[trigger] norms[r] == dot(x[r]@, x[r]@),
                row.len() == j,
                forall|c: int| 0 <= c < j ==> #[trigger] row[c] == sq_dist(x[i as int]@, x[c]@),
            decreases n - j,
        {
            let product = dot_product(&x[i], &x[j]);
            let entry = combine(norms[i], norms[j], product, Ghost(x[i as int]@), Ghost(x[j as int]@));
            row.push(entry);
            j = j + 1;
        }
        dist.push(row);
        i = i + 1;
    }
    proof {
        assert forall|r: int, c: int| 0 <= r < n && 0 <= c < n implies #[trigger] dist[r][c]
            == dist[c][r] by {
            lemma_sq_dist_symmetric(x[r]@, x[c]@);
        }
        assert forall|r: int| 0 <= r < n implies (#[trigger] dist[r])[r] == 0 by {
            lemma_sq_dist_symmetric(x[r]@, x[r]@);
        }
    }
    dist
}

} // verus!
