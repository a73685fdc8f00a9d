use jepa_dual::ranking::{rank_scores, top_k_indices};
use jepa_dual::score::{score_key, score_keys};

#[test]
fn top_k_orders_by_key_descending() {
    let keys = vec![3u64, 9, 1, 9, 5];
    assert_eq!(top_k_indices(&keys, 5), vec![1, 3, 4, 0, 2]);
    assert_eq!(top_k_indices(&keys, 2), vec![1, 3]);
    assert_eq!(top_k_indices(&keys, 0), Vec::<usize>::new());
}

#[test]
fn top_k_larger_than_len() {
    let keys = vec![2u64, 4];
    assert_eq!(top_k_indices(&keys, 7), vec![1, 0]);
    assert_eq!(top_k_indices(&Vec::new(), 3), Vec::<usize>::new());
}

#[test]
fn top_k_prefix_of_longer_ranking() {
    let keys = vec![4u64, 4, 8, 0, 8, 1];
    let full = top_k_indices(&keys, 6);
    for k in 0..=6 {
        assert_eq!(top_k_indices(&keys, k), full[..k].to_vec());
    }
}

#[test]
fn score_keys_follow_float_order() {
    let values = [-f64::INFINITY, -3.5, -1.0, -0.0, 0.0, 1e-300, 0.25, 2.0, f64::INFINITY];
    for w in values.windows(2) {
        let a = score_key(w[0].to_bits());
        let b = score_key(w[1].to_bits());
        if w[0] == w[1] {
            assert_eq!(a, b);
        } else {
            assert!(a < b);
        }
    }
}

#[test]
fn score_key_exact_values() {
    assert_eq!(score_key(0), 0x8000_0000_0000_0000);
    assert_eq!(score_key(0x8000_0000_0000_0000), 0x8000_0000_0000_0000);
    assert_eq!(score_key(1.0f64.to_bits()), 0xBFF0_0000_0000_0000);
    assert_eq!(score_key((-1.0f64).to_bits()), 0x400F_FFFF_FFFF_FFFF);
    assert_eq!(
        score_keys(&vec![0, 1.0f64.to_bits()]),
        vec![0x8000_0000_0000_0000, 0xBFF0_0000_0000_0000]
    );
}

#[test]
fn rank_scores_by_value() {
    let scores: Vec<u64> = [0.1f64, -2.0, 0.7, 0.1].iter().map(|x| x.to_bits()).collect();
    assert_eq!(rank_scores(&scores, 4), vec![2, 0, 3, 1]);
    assert_eq!(rank_scores(&scores, 1), vec![2]);
}
