use local_llm::cache::{
    cache_file_name, cache_key_for_bytes, cache_key_for_content, check_embed_window,
    decode_vector, encode_vector, EMBED_WINDOW,
};
use local_llm::errors::RunError;

#[test]
fn codec_round_trips_float_bits() {
    // Idempotence of the cache file format: the bit patterns of computed
    // floats survive a store/load cycle unchanged.
    let floats: Vec<f32> = vec![0.0, -1.5, 3.25e-7, f32::MAX, f32::MIN_POSITIVE, -0.0];
    let bits: Vec<u32> = floats.iter().map(|f| f.to_bits()).collect();
    let encoded = encode_vector(&bits);
    assert_eq!(encoded.len(), 4 * bits.len());
    let decoded = decode_vector(&encoded).unwrap();
    assert_eq!(decoded, bits);
    let restored: Vec<f32> = decoded.iter().map(|b| f32::from_bits(*b)).collect();
    for (a, b) in floats.iter().zip(restored.iter()) {
        assert_eq!(a.to_bits(), b.to_bits());
    }
}

#[test]
fn codec_is_little_endian_without_header() {
    let encoded = encode_vector(&vec![0x11223344u32]);
    assert_eq!(encoded, vec![0x44u8, 0x33, 0x22, 0x11]);
}

#[test]
fn decode_rejects_truncated_files() {
    let r = decode_vector(&[0u8, 1, 2, 3, 4]);
    assert!(matches!(r, Err(RunError::CacheIOFailure(_))));
    assert!(decode_vector(&[]).unwrap().is_empty());
}

#[test]
fn reencoding_a_file_is_identity() {
    let file: Vec<u8> = (0u8..32).collect();
    let v = decode_vector(&file).unwrap();
    assert_eq!(encode_vector(&v), file);
}

#[test]
fn cache_key_is_deterministic() {
    // Content-addressing: same model and input give the same key, in any
    // order of invocation; distinct inputs give distinct keys.
    let k1 = cache_key_for_content("model.gguf", "same text");
    let k2 = cache_key_for_content("model.gguf", "other text");
    let k3 = cache_key_for_content("model.gguf", "same text");
    assert_eq!(k1, k3);
    assert_ne!(k1, k2);
    assert_ne!(
        cache_key_for_content("model-a.gguf", "same text"),
        cache_key_for_content("model-b.gguf", "same text")
    );
}

#[test]
fn cache_key_hashes_raw_bytes() {
    // A file's bytes and identical inline content address the same entry.
    assert_eq!(
        cache_key_for_bytes("model.gguf", "hello".as_bytes()),
        cache_key_for_content("model.gguf", "hello")
    );
    // known digest: SHA-256 of the empty input, hex encoded
    assert_eq!(
        cache_key_for_content("", ""),
        "e3b0c44298fc1c149afbf4c8996fb92427ae41e4649b934ca495991b7852b855"
    );
    assert_eq!(
        cache_key_for_content("model.gguf", "hello"),
        "71d7d6d3fa4fce4e5e4fcabd3a4e79d966545dbb2df47e9d3d0409ecb54b910d"
    );
}

#[test]
fn cache_file_names() {
    assert_eq!(cache_file_name("abc123"), "abc123.bin");
}

#[test]
fn embedding_window_check() {
    assert!(check_embed_window(EMBED_WINDOW, EMBED_WINDOW).is_ok());
    let r = check_embed_window(EMBED_WINDOW + 1, EMBED_WINDOW);
    match r {
        Err(RunError::InputTooLong { tokens, window }) => {
            assert_eq!(tokens, EMBED_WINDOW + 1);
            assert_eq!(window, EMBED_WINDOW);
        }
        _ => panic!("expected InputTooLong"),
    }
    let e = check_embed_window(5000, 4096).unwrap_err();
    assert_eq!(e.message(), "Input too long: 5000 tokens, but embedding window is 4096");
}
