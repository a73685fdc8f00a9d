use jepa_dual::method::{identity_matrix, ComparisonMethod};

#[test]
fn identity_matrix_shape() {
    let m = identity_matrix(2, 3, 1.0f64, 0.0);
    assert_eq!(m, vec![vec![1.0, 0.0, 0.0], vec![0.0, 1.0, 0.0]]);
    let m = identity_matrix(3, 2, 1u8, 0);
    assert_eq!(m, vec![vec![1, 0], vec![0, 1], vec![0, 0]]);
    assert!(identity_matrix(0, 4, 1u8, 0).is_empty());
}

#[test]
fn cosine_identity_is_prediction_by_perception() {
    match ComparisonMethod::cosine_identity(4, 2, 1.0f64, 0.0) {
        ComparisonMethod::Cosine { projection_matrix } => {
            assert_eq!(projection_matrix, vec![vec![1.0, 0.0, 0.0, 0.0], vec![0.0, 1.0, 0.0, 0.0]]);
        }
        _ => panic!("expected a cosine method"),
    }
    match ComparisonMethod::cosine_identity(2, 3, 1.0f64, 0.0) {
        ComparisonMethod::Cosine { projection_matrix } => {
            assert_eq!(projection_matrix, vec![vec![1.0, 0.0], vec![0.0, 1.0], vec![0.0, 0.0]]);
        }
        _ => panic!("expected a cosine method"),
    }
}

#[test]
fn weighted_euclidean_identity_is_all_ones() {
    match ComparisonMethod::weighted_euclidean_identity(3, 1.0f64) {
        ComparisonMethod::WeightedEuclidean { weights } => assert_eq!(weights, vec![1.0; 3]),
        _ => panic!("expected a weighted euclidean method"),
    }
}

#[test]
fn cross_attention_identity_uses_shared_dimension() {
    match ComparisonMethod::cross_attention_identity(3, 2, 1.0f64, 0.0) {
        ComparisonMethod::CrossAttention { query_weights, key_weights } => {
            assert_eq!(query_weights, vec![vec![1.0, 0.0, 0.0], vec![0.0, 1.0, 0.0]]);
            assert_eq!(key_weights, vec![vec![1.0, 0.0], vec![0.0, 1.0]]);
        }
        _ => panic!("expected a cross attention method"),
    }
}

#[test]
fn knn_keeps_k() {
    match ComparisonMethod::<f64>::knn(3) {
        ComparisonMethod::KNN { k } => assert_eq!(k, 3),
        _ => panic!("expected a knn method"),
    }
}
