use numeral_recognition::{best_label, score_key, top_k_guesses, DataError, SIGN_BIT};

fn keys(scores: &[f64]) -> Vec<u64> {
    scores.iter().map(|x| score_key(x.to_bits())).collect()
}

#[test]
fn best_label_picks_largest() {
    assert_eq!(best_label(&keys(&[0.1, 0.9, 0.2, 0.0, 0.3, 0.1, 0.0, 0.0, 0.05, 0.4])), 1);
}

#[test]
fn best_label_ties_go_to_lowest_index() {
    assert_eq!(best_label(&keys(&[0.5, 0.5, 0.1, 0.0, 0.0, 0.0, 0.0, 0.0, 0.0, 0.0])), 0);
    assert_eq!(best_label(&keys(&[0.25; 10])), 0);
    assert_eq!(best_label(&keys(&[0.1, 0.2, 0.8, 0.8])), 2);
}

#[test]
fn best_label_with_negative_scores() {
    assert_eq!(best_label(&keys(&[-3.0, -0.5, -2.0])), 1);
    assert_eq!(best_label(&keys(&[-0.0, 0.0])), 0);
    assert_eq!(best_label(&keys(&[-1.0, f64::INFINITY, 5.0])), 1);
}

#[test]
fn score_key_orders_like_the_scores() {
    let values = [f64::NEG_INFINITY, -1e300, -2.5, -1e-300, 0.0, 1e-300, 0.5, 2.5, 1e300, f64::INFINITY];
    for w in values.windows(2) {
        assert!(score_key(w[0].to_bits()) < score_key(w[1].to_bits()));
    }
    assert_eq!(score_key((-0.0f64).to_bits()), score_key(0.0f64.to_bits()));
    assert_eq!(score_key(0), SIGN_BIT);
    assert_eq!(score_key(1), SIGN_BIT + 1);
    assert_eq!(score_key(SIGN_BIT + 1), u64::MAX - SIGN_BIT - 1);
}

#[test]
fn top_two_keeps_index_order_among_ties() {
    let scores = [0.1, 0.7, 0.7, 0.2];
    let ranked = top_k_guesses(&keys(&scores), 2).unwrap();
    let k7 = score_key(0.7f64.to_bits());
    assert_eq!(ranked, vec![(1usize, k7), (2usize, k7)]);
    let confidences: Vec<(usize, f64)> = ranked.iter().map(|(i, _)| (*i, scores[*i])).collect();
    assert_eq!(confidences, vec![(1, 0.7), (2, 0.7)]);
}

#[test]
fn full_ranking_is_descending_and_stable() {
    let k = vec![3u64, 9, 3, 1, 9, 0];
    let ranked = top_k_guesses(&k, 6).unwrap();
    let order: Vec<usize> = ranked.iter().map(|p| p.0).collect();
    assert_eq!(order, vec![1, 4, 0, 2, 3, 5]);
    for (i, s) in ranked {
        assert_eq!(k[i], s);
    }
}

#[test]
fn first_guess_matches_best_label() {
    let k = keys(&[0.3, 0.1, 0.3, 0.05]);
    let ranked = top_k_guesses(&k, 1).unwrap();
    assert_eq!(ranked[0].0, best_label(&k));
    assert_eq!(ranked[0].0, 0);
}

#[test]
fn zero_guesses_is_empty() {
    assert_eq!(top_k_guesses(&[], 0), Ok(vec![]));
    assert_eq!(top_k_guesses(&[4, 2], 0), Ok(vec![]));
}

#[test]
fn too_many_guesses_is_insufficient_classes() {
    assert_eq!(
        top_k_guesses(&[1, 2, 3], 4),
        Err(DataError::InsufficientClasses { requested: 4, available: 3 })
    );
}

#[test]
fn zeros_share_a_key_and_negatives_sort_below() {
    let neg_small = score_key((-1e-300f64).to_bits());
    let zero = score_key(0.0f64.to_bits());
    let neg_zero = score_key((-0.0f64).to_bits());
    assert_eq!(zero, neg_zero);
    assert!(neg_small < zero);
    assert_eq!(neg_small, u64::MAX - (-1e-300f64).to_bits());
}
