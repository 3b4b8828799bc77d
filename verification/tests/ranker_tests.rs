use local_llm::ranker::{
    chunk_tokens, cosine, dot_product, embedding_from_bits, fixed_from_bits, isqrt_u128,
    join_blank_line, rank, rank_order, retrieve_top, Segment, MAX_COMPONENT, SIMILARITY_ONE,
};

fn seg(text: &str, embedding: Vec<i32>) -> Segment {
    Segment { text: text.to_string(), embedding }
}

#[test]
fn isqrt_exact() {
    assert_eq!(isqrt_u128(0), 0);
    assert_eq!(isqrt_u128(1), 1);
    assert_eq!(isqrt_u128(15), 3);
    assert_eq!(isqrt_u128(16), 4);
    assert_eq!(isqrt_u128(u128::MAX), (1u128 << 64) - 1);
}

#[test]
fn dot_product_exact() {
    assert_eq!(dot_product(&vec![1, 2, 3], &vec![4, 5, 6]), 32);
    assert_eq!(dot_product(&vec![], &vec![1]), 0);
    assert_eq!(dot_product(&vec![-8388607; 4], &vec![8388607; 4]), -4 * 8388607i128 * 8388607);
}

#[test]
fn cosine_of_vector_with_itself_is_one() {
    assert_eq!(cosine(&vec![65536, 0], &vec![65536, 0]), SIMILARITY_ONE);
    assert_eq!(cosine(&vec![3, -4, 12], &vec![3, -4, 12]), SIMILARITY_ONE);
}

#[test]
fn cosine_zero_vector_policy() {
    // cosine against a zero vector is exactly 0 for any vector — no
    // division-by-zero panic, by documented policy.
    let zero = vec![0, 0, 0];
    for a in [vec![1, 2, 3], vec![-65536, 0, 7], vec![0, 0, 0]] {
        assert_eq!(cosine(&a, &zero), 0);
        assert_eq!(cosine(&zero, &a), 0);
    }
}

#[test]
fn cosine_orthogonal_and_opposite() {
    assert_eq!(cosine(&vec![65536, 0], &vec![0, 65536]), 0);
    assert_eq!(cosine(&vec![65536, 0], &vec![-65536, 0]), -SIMILARITY_ONE);
}

#[test]
fn cosine_forty_five_degrees() {
    // cos 45° scaled: floor(65536²·65536 / isqrt(2·65536⁴)) = 46340
    assert_eq!(cosine(&vec![65536, 0], &vec![65536, 65536]), 46340);
}

#[test]
fn rank_orders_by_descending_similarity() {
    let q = vec![10, 0];
    let segs = vec![
        seg("opposite", vec![-10, 0]),
        seg("parallel", vec![20, 0]),
        seg("diagonal", vec![65536, 65536]),
        seg("orthogonal", vec![0, 7]),
    ];
    let texts = rank(&q, &segs, 10);
    assert_eq!(texts, vec!["parallel", "diagonal", "orthogonal", "opposite"]);
}

#[test]
fn rank_ties_keep_original_order() {
    // Two segments parallel to the query score identically; the stable order
    // keeps the earlier one first.
    let q = vec![4, 0];
    let segs = vec![
        seg("first parallel", vec![8, 0]),
        seg("orthogonal", vec![0, 5]),
        seg("second parallel", vec![2, 0]),
    ];
    let order = rank_order(&q, &segs);
    assert_eq!(order, vec![0, 2, 1]);
}

#[test]
fn rank_top_one_parallel_beats_orthogonal() {
    // rank(query, [(seg_a, parallel), (seg_b, orthogonal)], top_k = 1)
    // returns only seg_a's text.
    let q = vec![2, 0];
    let segs = vec![seg("seg_a text", vec![4, 0]), seg("seg_b text", vec![0, 3])];
    let texts = rank(&q, &segs, 1);
    assert_eq!(texts, vec!["seg_a text"]);
}

#[test]
fn rank_with_large_top_k_returns_all() {
    let q = vec![1];
    let segs = vec![seg("a", vec![1]), seg("b", vec![-1])];
    assert_eq!(rank(&q, &segs, 99), vec!["a", "b"]);
    assert_eq!(rank(&q, &vec![], 3), Vec::<String>::new());
}

#[test]
fn join_uses_blank_line_separator() {
    assert_eq!(join_blank_line(&vec![]), "");
    assert_eq!(join_blank_line(&vec!["a".to_string()]), "a");
    assert_eq!(
        join_blank_line(&vec!["a".to_string(), "b".to_string(), "c".to_string()]),
        "a\n\nb\n\nc"
    );
}

#[test]
fn retrieve_top_concatenates_ranked_texts() {
    let q = vec![6, 1];
    let segs = vec![
        seg("weak", vec![1, 60]),
        seg("best", vec![12, 2]),
        seg("good", vec![10, 4]),
    ];
    assert_eq!(retrieve_top(&q, &segs, 2), "best\n\ngood");
    assert_eq!(retrieve_top(&q, &segs, 9), "best\n\ngood\n\nweak");
}

#[test]
fn chunking_splits_into_fixed_token_chunks() {
    let tokens: Vec<i32> = (1..=7).collect();
    let chunks = chunk_tokens(&tokens, 3);
    assert_eq!(chunks, vec![vec![1, 2, 3], vec![4, 5, 6], vec![7]]);
    assert_eq!(chunk_tokens(&vec![], 512), Vec::<Vec<i32>>::new());
    let exact = chunk_tokens(&vec![1, 2, 3, 4], 2);
    assert_eq!(exact, vec![vec![1, 2], vec![3, 4]]);
}

#[test]
fn fixed_point_decoding_of_float_bits() {
    assert_eq!(fixed_from_bits(1.0f32.to_bits()), 65536);
    assert_eq!(fixed_from_bits((-0.5f32).to_bits()), -32768);
    assert_eq!(fixed_from_bits(3.25f32.to_bits()), 212992);
    assert_eq!(fixed_from_bits(0.0f32.to_bits()), 0);
    assert_eq!(fixed_from_bits((-0.0f32).to_bits()), 0);
    // below one fixed-point unit
    assert_eq!(fixed_from_bits(1.0e-6f32.to_bits()), 0);
    assert_eq!(fixed_from_bits(1.0e-45f32.to_bits()), 0);
    // saturation and the non-finite policy
    assert_eq!(fixed_from_bits(128.0f32.to_bits()), MAX_COMPONENT);
    assert_eq!(fixed_from_bits((-4096.0f32).to_bits()), -MAX_COMPONENT);
    assert_eq!(fixed_from_bits(f32::INFINITY.to_bits()), MAX_COMPONENT);
    assert_eq!(fixed_from_bits(f32::NEG_INFINITY.to_bits()), -MAX_COMPONENT);
    assert_eq!(fixed_from_bits(f32::NAN.to_bits()), 0);
    // truncation toward zero
    assert_eq!(fixed_from_bits(0.70710678f32.to_bits()), 46340);
    assert_eq!(fixed_from_bits((-0.70710678f32).to_bits()), -46340);
}

#[test]
fn embedding_decoding_preserves_order() {
    let floats = [1.0f32, -1.0, 0.25];
    let bits: Vec<u32> = floats.iter().map(|f| f.to_bits()).collect();
    let fixed = embedding_from_bits(&bits);
    assert_eq!(fixed, vec![65536, -65536, 16384]);
}
