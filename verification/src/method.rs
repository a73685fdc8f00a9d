//! Comparison methods, generic in their weight type, and the constructors
//! that give each method its identity-shaped starting weights.

use vstd::prelude::*;

verus! {

/// How a perception vector and a prediction vector are compared. The
/// weights are what training adjusts.
#[derive(Clone)]
pub enum ComparisonMethod<F> {
    /// Cosine similarity between the projected perception and the prediction.
    Cosine { projection_matrix: Vec<Vec<F>> },
    /// Weighted Euclidean distance.
    WeightedEuclidean { weights: Vec<F> },
    /// Attention-style: a query from one store, a key from the other.
    CrossAttention { query_weights: Vec<Vec<F>>, key_weights: Vec<Vec<F>> },
    /// K-nearest-neighbours lookup.
    KNN { k: usize },
}

/// `m` has `rows` rows of `cols` entries, `one` on the diagonal and `zero`
/// elsewhere.
pub open spec fn is_unit_matrix<F>(m: Seq<Vec<F>>, rows: nat, cols: nat, one: F, zero: F) -> bool {
    &&& m.len() == rows
    &&& forall|i: int|
        0 <= i < rows ==> {
            &&& (#[trigger] m[i])@.len() == cols
            &&& forall|j: int| 0 <= j < cols ==> #[trigger] m[i]@[j] == if i == j {
                one
            } else {
                zero
            }
        }
}

/// The smaller of two dimensions.
pub open spec fn min_dim(a: usize, b: usize) -> usize {
    if a <= b {
        a
    } else {
        b
    }
}

/// A row of `cols` entries: `one` at position `diag` (if it is a position of
/// the row) and `zero` elsewhere.
fn unit_row<F: Copy>(cols: usize, diag: usize, one: F, zero: F) -> (row: Vec<F>)
    ensures
        row@.len() == cols,
        forall|j: int| 0 <= j < cols ==> #[trigger] row@[j] == if j == diag {
            one
        } else {
            zero
        },
{
    let mut row: Vec<F> = Vec::new();
    let mut j: usize = 0;
    while j < cols
        invariant
            j <= cols,
            row@.len() == j,
            forall|q: int| 0 <= q < j ==> #[trigger] row@[q] == if q == diag {
                one
            } else {
                zero
            },
        decreases cols - j,
    {
        if j == diag {
            row.push(one);
        } else {
            row.push(zero);
        }
        j = j + 1;
    }
    row
}

/// A `rows` by `cols` matrix with `one` on the diagonal and `zero` elsewhere.
pub fn identity_matrix<F: Copy>(rows: usize, cols: usize, one: F, zero: F) -> (m: Vec<Vec<F>>)
    ensures
        is_unit_matrix(m@, rows as nat, cols as nat, one, zero),
        m@.len() == rows,
        forall|i: int| 0 <= i < rows ==> (#[trigger] m@[i])@.len() == cols,
        forall|i: int| 0 <= i < rows && i < cols ==> #[trigger] m@[i]@[i] == one,
        forall|i: int, j: int| 0 <= i < rows && 0 <= j < cols && i != j ==> #[trigger] m@[i]@[j] == zero,
{
    let mut m: Vec<Vec<F>> = Vec::new();
    let mut i: usize = 0;
    while i < rows
        invariant
            i <= rows,
            is_unit_matrix(m@, i as nat, cols as nat, one, zero),
        decreases rows - i,
    {
        let row = unit_row(cols, i, one, zero);
        m.push(row);
        i = i + 1;
        assert(m@[i - 1] == row);
    }
    proof {
        law_unit_matrix(m@, rows as nat, cols as nat, one, zero);
    }
    m
}

impl<F: Copy> ComparisonMethod<F> {
    /// A `Cosine` method whose projection maps perception space into
    /// prediction space by the identity: `prediction_dim` rows of
    /// `perception_dim` entries, `one` on the diagonal, `zero` elsewhere
    /// (extra rows are zero when prediction space is larger; extra columns are
    /// dropped when it is smaller).
    pub fn cosine_identity(perception_dim: usize, prediction_dim: usize, one: F, zero: F) -> (m: Self)
        ensures
            m matches ComparisonMethod::Cosine { projection_matrix } && is_unit_matrix(
                projection_matrix@,
                prediction_dim as nat,
                perception_dim as nat,
                one,
                zero,
            ) && projection_matrix@.len() == prediction_dim && (forall|i: int|
                0 <= i < prediction_dim && i < perception_dim ==> #[trigger] projection_matrix@[i]@[i]
                    == one),
    {
        let proj = identity_matrix(prediction_dim, perception_dim, one, zero);
        ComparisonMethod::Cosine { projection_matrix: proj }
    }

    /// A `WeightedEuclidean` method that weighs each of `dim` components by
    /// `one`.
    pub fn weighted_euclidean_identity(dim: usize, one: F) -> (m: Self)
        ensures
            m matches ComparisonMethod::WeightedEuclidean { weights } && weights@.len() == dim
                && forall|i: int| 0 <= i < dim ==> #[trigger] weights@[i] == one,
    {
        let mut weights: Vec<F> = Vec::new();
        let mut i: usize = 0;
        while i < dim
            invariant
                i <= dim,
                weights@.len() == i,
                forall|q: int| 0 <= q < i ==> #[trigger] weights@[q] == one,
            decreases dim - i,
        {
            weights.push(one);
            i = i + 1;
        }
        ComparisonMethod::WeightedEuclidean { weights }
    }

    /// A `CrossAttention` method whose query and key maps are identities onto
    /// the first `min(perception_dim, prediction_dim)` components.
    pub fn cross_attention_identity(perception_dim: usize, prediction_dim: usize, one: F, zero: F) -> (m: Self)
        ensures
            m matches ComparisonMethod::CrossAttention { query_weights, key_weights } && {
                &&& is_unit_matrix(
                    query_weights@,
                    min_dim(perception_dim, prediction_dim) as nat,
                    perception_dim as nat,
                    one,
                    zero,
                )
                &&& is_unit_matrix(
                    key_weights@,
                    min_dim(perception_dim, prediction_dim) as nat,
                    prediction_dim as nat,
                    one,
                    zero,
                )
                &&& query_weights@.len() == (if perception_dim <= prediction_dim {
                    perception_dim
                } else {
                    prediction_dim
                })
                &&& key_weights@.len() == query_weights@.len()
            },
    {
        let shared = if perception_dim <= prediction_dim {
            perception_dim
        } else {
            prediction_dim
        };
        proof {
            law_min_dim(perception_dim, prediction_dim);
        }
        let qw = identity_matrix(shared, perception_dim, one, zero);
        let kw = identity_matrix(shared, prediction_dim, one, zero);
        ComparisonMethod::CrossAttention { query_weights: qw, key_weights: kw }
    }

    /// A `KNN` method with `k` neighbours.
    pub fn knn(k: usize) -> (m: Self)
        ensures
            m == (ComparisonMethod::<F>::KNN { k }),
    {
        ComparisonMethod::KNN { k }
    }
}

/// A unit matrix has the stated shape, `one` at every diagonal place and
/// `zero` at every other place.
pub proof fn law_unit_matrix<F>(m: Seq<Vec<F>>, rows: nat, cols: nat, one: F, zero: F)
    requires
        is_unit_matrix(m, rows, cols, one, zero),
    ensures
        m.len() == rows,
        forall|i: int| 0 <= i < rows ==> (#[trigger] m[i])@.len() == cols,
        forall|i: int| 0 <= i < rows && i < cols ==> #[trigger] m[i]@[i] == one,
        forall|i: int, j: int| 0 <= i < rows && 0 <= j < cols && i != j ==> #[trigger] m[i]@[j] == zero,
{
    assert forall|i: int| 0 <= i < rows && i < cols implies #[trigger] m[i]@[i] == one by {
        assert(m[i]@.len() == cols);
    }
    assert forall|i: int, j: int| 0 <= i < rows && 0 <= j < cols && i != j implies #[trigger] m[i]@[j]
        == zero by {
        assert(m[i]@.len() == cols);
    }
}

/// `min_dim` is the smaller of its arguments.
pub proof fn law_min_dim(a: usize, b: usize)
    ensures
        min_dim(a, b) <= a,
        min_dim(a, b) <= b,
        min_dim(a, b) == a || min_dim(a, b) == b,
{
}

} // verus!
