//! The content-addressed embedding cache: key derivation (a digest over the
//! model path and the input bytes) and the cache file format (raw
//! little-endian 32-bit words, no header).
//!
//! The 32-bit words are the bit patterns of the vector's components; the
//! codec itself is pure integer logic and is verified, including both
//! round-trip directions.

use vstd::prelude::*;
use vstd::string::StringSliceAdditionalSpecFns;

use crate::errors::RunError;
use sha2::Digest;

verus! {

/// Source of the input to embed: a file (by path) or inline text content.
pub enum InputSource {
    File(String),
    Content(String),
}

/// Context window configured for embedding extraction; larger than the
/// default generation window, since embedding inputs are long single passes.
pub const EMBED_WINDOW: usize = 4096;

/// What the SHA-256 digest of a byte string is; 32 bytes, a function of the
/// input alone.
pub uninterp spec fn spec_sha256(data: Seq<u8>) -> Seq<u8>;

/// Relies on sha2::Sha256: returns the SHA-256 digest of `data`, which is
/// 32 bytes long and depends on `data` alone.
#[verifier::external_body]
fn sha256_digest(data: &[u8]) -> (r: Vec<u8>)
    ensures
        r@ == spec_sha256(data@),
        r@.len() == 32,
{
    sha2::Sha256::digest(data).to_vec()
}

/// The lower-case hexadecimal digit for `d`.
pub open spec fn hex_digit(d: int) -> char {
    if d == 0 {
        '0'
    } else if d == 1 {
        '1'
    } else if d == 2 {
        '2'
    } else if d == 3 {
        '3'
    } else if d == 4 {
        '4'
    } else if d == 5 {
        '5'
    } else if d == 6 {
        '6'
    } else if d == 7 {
        '7'
    } else if d == 8 {
        '8'
    } else if d == 9 {
        '9'
    } else if d == 10 {
        'a'
    } else if d == 11 {
        'b'
    } else if d == 12 {
        'c'
    } else if d == 13 {
        'd'
    } else if d == 14 {
        'e'
    } else {
        'f'
    }
}

/// Lower-case hexadecimal encoding of a byte string, two digits per byte.
pub open spec fn spec_hex(data: Seq<u8>) -> Seq<char>
    decreases data.len(),
{
    if data.len() == 0 {
        Seq::empty()
    } else {
        seq![hex_digit(data[0] as int / 16), hex_digit(data[0] as int % 16)] + spec_hex(data.drop_first())
    }
}

fn hex_char_str(d: u8) -> (r: &'static str)
    requires
        d < 16,
    ensures
        r@ == seq![hex_digit(d as int)],
{
    proof {
        reveal_strlit("0");
        reveal_strlit("1");
        reveal_strlit("2");
        reveal_strlit("3");
        reveal_strlit("4");
        reveal_strlit("5");
        reveal_strlit("6");
        reveal_strlit("7");
        reveal_strlit("8");
        reveal_strlit("9");
        reveal_strlit("a");
        reveal_strlit("b");
        reveal_strlit("c");
        reveal_strlit("d");
        reveal_strlit("e");
        reveal_strlit("f");
    }
    let r = match d {
        0 => "0",
        1 => "1",
        2 => "2",
        3 => "3",
        4 => "4",
        5 => "5",
        6 => "6",
        7 => "7",
        8 => "8",
        9 => "9",
        10 => "a",
        11 => "b",
        12 => "c",
        13 => "d",
        14 => "e",
        _ => "f",
    };
    proof {
        assert(r@ =~= seq![hex_digit(d as int)]);
    }
    r
}

/// Lower-case hexadecimal encoding of `data`.
pub fn to_hex(data: &Vec<u8>) -> (r: String)
    ensures
        r@ == spec_hex(data@),
{
    let mut r = String::new();
    let n = data.len();
    assert(data@.skip(0) == data@);
    let mut i: usize = 0;
    while i < n
        invariant
            n == data@.len(),
            i <= n,
            spec_hex(data@) =~= r@ + spec_hex(data@.skip(i as int)),
        decreases n - i,
    {
        let b = data[i];
        r.append(hex_char_str(b / 16));
        r.append(hex_char_str(b % 16));
        proof {
            assert(data@.skip(i as int).drop_first() =~= data@.skip(i + 1));
        }
        i += 1;
    }
    r
}

/// The cache key for the given model path (as UTF-8 bytes) and input bytes:
/// the lower-case hex encoding of the SHA-256 digest of their concatenation.
pub open spec fn spec_cache_key(path_bytes: Seq<u8>, data: Seq<u8>) -> Seq<char> {
    spec_hex(spec_sha256(path_bytes + data))
}

proof fn lemma_spec_hex_len(data: Seq<u8>)
    ensures
        spec_hex(data).len() == 2 * data.len(),
    decreases data.len(),
{
    if data.len() > 0 {
        lemma_spec_hex_len(data.drop_first());
    }
}

/// Derives the content-addressed cache key for raw input bytes (the bytes of
/// a referenced file).
pub fn cache_key_for_bytes(model_path: &str, data: &[u8]) -> (r: String)
    ensures
        r@ == spec_cache_key(model_path.spec_bytes(), data@),
        r@.len() == 64,
{
    proof {
        lemma_spec_hex_len(spec_sha256(model_path.spec_bytes() + data@));
    }
    let mut buf: Vec<u8> = model_path.as_bytes_vec();
    let n = data.len();
    let mut i: usize = 0;
    while i < n
        invariant
            n == data@.len(),
            i <= n,
            buf@ == model_path.spec_bytes() + data@.take(i as int),
        decreases n - i,
    {
        buf.push(data[i]);
        proof {
            assert(model_path.spec_bytes() + data@.take(i as int) + seq![data@[i as int]]
                =~= model_path.spec_bytes() + data@.take(i + 1));
        }
        i += 1;
    }
    proof {
        assert(data@.take(n as int) =~= data@);
    }
    let digest = sha256_digest(buf.as_slice());
    to_hex(&digest)
}

/// Derives the content-addressed cache key for inline text content.
pub fn cache_key_for_content(model_path: &str, content: &str) -> (r: String)
    ensures
        r@ == spec_cache_key(model_path.spec_bytes(), content.spec_bytes()),
        r@.len() == 64,
{
    cache_key_for_bytes(model_path, content.as_bytes())
}

/// Content-addressing: the cache key is a function of the model path and the
/// input bytes alone, so two invocations with the same model and input yield
/// the same key, regardless of invocation order.
pub proof fn lemma_cache_key_deterministic(
    path_a: Seq<u8>,
    data_a: Seq<u8>,
    path_b: Seq<u8>,
    data_b: Seq<u8>,
)
    requires
        path_a == path_b,
        data_a == data_b,
    ensures
        spec_cache_key(path_a, data_a) == spec_cache_key(path_b, data_b),
{
}

/// The file name of a cache entry: the key followed by `.bin`.
pub fn cache_file_name(key: &str) -> (r: String)
    ensures
        r@ == key@ + ".bin"@,
{
    let mut s = key.to_owned();
    s.append(".bin");
    s
}

/// The four little-endian bytes of a 32-bit word.
pub open spec fn spec_word_bytes(w: u32) -> Seq<u8> {
    seq![
        (w & 0xff) as u8,
        ((w >> 8) & 0xff) as u8,
        ((w >> 16) & 0xff) as u8,
        ((w >> 24) & 0xff) as u8,
    ]
}

/// The 32-bit word read from four little-endian bytes.
pub open spec fn spec_word_of(b0: u8, b1: u8, b2: u8, b3: u8) -> u32 {
    (b0 as u32) | ((b1 as u32) << 8) | ((b2 as u32) << 16) | ((b3 as u32) << 24)
}

/// The cache file encoding of a vector of 32-bit words: each word as four
/// little-endian bytes, no header and no length prefix.
pub open spec fn spec_encode_vector(v: Seq<u32>) -> Seq<u8> {
    Seq::new((4 * v.len()) as nat, |k: int| spec_word_bytes(v[k / 4])[k % 4])
}

/// The vector read back from a cache file: one word per four bytes.
pub open spec fn spec_decode_vector(b: Seq<u8>) -> Seq<u32> {
    Seq::new((b.len() / 4) as nat, |i: int| spec_word_of(b[4 * i], b[4 * i + 1], b[4 * i + 2], b[4 * i + 3]))
}

proof fn lemma_word_round_trip(w: u32)
    ensures
        spec_word_of(
            (w & 0xff) as u8,
            ((w >> 8) & 0xff) as u8,
            ((w >> 16) & 0xff) as u8,
            ((w >> 24) & 0xff) as u8,
        ) == w,
{
    assert((((w & 0xff) as u8) as u32) | ((((w >> 8) & 0xff) as u8) as u32) << 8 | ((((w >> 16)
        & 0xff) as u8) as u32) << 16 | ((((w >> 24) & 0xff) as u8) as u32) << 24 == w)
        by (bit_vector);
}

proof fn lemma_bytes_round_trip(b0: u8, b1: u8, b2: u8, b3: u8)
    ensures
        spec_word_bytes(spec_word_of(b0, b1, b2, b3)) =~= seq![b0, b1, b2, b3],
{
    let w = spec_word_of(b0, b1, b2, b3);
    assert(((b0 as u32) | ((b1 as u32) << 8) | ((b2 as u32) << 16) | ((b3 as u32) << 24)) & 0xff
        == b0 as u32) by (bit_vector);
    assert((((b0 as u32) | ((b1 as u32) << 8) | ((b2 as u32) << 16) | ((b3 as u32) << 24)) >> 8)
        & 0xff == b1 as u32) by (bit_vector);
    assert((((b0 as u32) | ((b1 as u32) << 8) | ((b2 as u32) << 16) | ((b3 as u32) << 24)) >> 16)
        & 0xff == b2 as u32) by (bit_vector);
    assert((((b0 as u32) | ((b1 as u32) << 8) | ((b2 as u32) << 16) | ((b3 as u32) << 24)) >> 24)
        & 0xff == b3 as u32) by (bit_vector);
}

/// Encodes a vector of 32-bit words in the cache file format.
pub fn encode_vector(v: &Vec<u32>) -> (r: Vec<u8>)
    ensures
        r@ == spec_encode_vector(v@),
{
    let n = v.len();
    let mut r: Vec<u8> = Vec::new();
    let mut i: usize = 0;
    while i < n
        invariant
            n == v@.len(),
            i <= n,
            r@.len() == 4 * i,
            forall|k: int| 0 <= k < 4 * i ==> r@[k] == spec_word_bytes(v@[k / 4])[k % 4],
        decreases n - i,
    {
        let w = v[i];
        proof {
            assert(w & 0xff < 256 && (w >> 8) & 0xff < 256 && (w >> 16) & 0xff < 256 && (w >> 24)
                & 0xff < 256) by (bit_vector);
        }
        r.push((w & 0xff) as u8);
        r.push(((w >> 8) & 0xff) as u8);
        r.push(((w >> 16) & 0xff) as u8);
        r.push(((w >> 24) & 0xff) as u8);
        proof {
            assert forall|k: int| 0 <= k < 4 * (i + 1) implies r@[k] == spec_word_bytes(
                v@[k / 4],
            )[k % 4] by {
                if k < 4 * i {
                } else {
                    let j = k - 4 * i;
                    vstd::arithmetic::div_mod::lemma_fundamental_div_mod_converse(
                        k,
                        4,
                        i as int,
                        j,
                    );
                }
            }
        }
        i += 1;
    }
    proof {
        assert(r@ =~= spec_encode_vector(v@));
    }
    r
}

/// Decodes a cache file back into a vector of 32-bit words. Fails exactly
/// when the file length is not a multiple of four bytes.
pub fn decode_vector(b: &[u8]) -> (r: Result<Vec<u32>, RunError>)
    ensures
        r is Ok <==> b@.len() % 4 == 0,
        r matches Ok(v) ==> v@ == spec_decode_vector(b@),
        r matches Err(e) ==> e matches RunError::CacheIOFailure(_),
{
    let n = b.len();
    if n % 4 != 0 {
        return Err(
            RunError::CacheIOFailure("cache file length is not a multiple of 4 bytes".to_owned()),
        );
    }
    let count = n / 4;
    let mut v: Vec<u32> = Vec::new();
    let mut i: usize = 0;
    while i < count
        invariant
            n == b@.len(),
            n % 4 == 0,
            count == n / 4,
            i <= count,
            v@.len() == i,
            forall|j: int|
                0 <= j < i ==> v@[j] == spec_word_of(
                    b@[4 * j],
                    b@[4 * j + 1],
                    b@[4 * j + 2],
                    b@[4 * j + 3],
                ),
        decreases count - i,
    {
        let b0 = b[4 * i];
        let b1 = b[4 * i + 1];
        let b2 = b[4 * i + 2];
        let b3 = b[4 * i + 3];
        let w = (b0 as u32) | ((b1 as u32) << 8) | ((b2 as u32) << 16) | ((b3 as u32) << 24);
        proof {
            let x1 = b1 as u32;
            let x2 = b2 as u32;
            let x3 = b3 as u32;
            assert(x1 < 256 && x2 < 256 && x3 < 256 ==> (x1 << 8) <= 0xff00 && (x2 << 16)
                <= 0xff0000 && (x3 << 24) <= 0xff000000) by (bit_vector);
        }
        v.push(w);
        i += 1;
    }
    proof {
        assert(v@ =~= spec_decode_vector(b@));
    }
    Ok(v)
}

/// Idempotence of the cache file format: a vector persisted in the cache
/// encoding and read back is bit-identical to the vector that was computed.
pub proof fn lemma_cache_round_trip(v: Seq<u32>)
    ensures
        spec_decode_vector(spec_encode_vector(v)) == v,
{
    let enc = spec_encode_vector(v);
    assert(enc.len() == 4 * v.len());
    assert(enc.len() % 4 == 0);
    assert forall|i: int| 0 <= i < v.len() implies spec_decode_vector(enc)[i] == v[i] by {
        assert forall|j: int| 0 <= j < 4 implies enc[4 * i + j] == spec_word_bytes(v[i])[j] by {
            vstd::arithmetic::div_mod::lemma_fundamental_div_mod_converse(4 * i + j, 4, i, j);
        }
        lemma_word_round_trip(v[i]);
    }
    assert(spec_decode_vector(enc) =~= v);
}

/// The reverse direction: any well-formed cache file (length a multiple of
/// four) re-encodes to exactly the same bytes.
pub proof fn lemma_cache_round_trip_bytes(b: Seq<u8>)
    requires
        b.len() % 4 == 0,
    ensures
        spec_encode_vector(spec_decode_vector(b)) == b,
{
    let dec = spec_decode_vector(b);
    vstd::arithmetic::div_mod::lemma_fundamental_div_mod(b.len() as int, 4);
    assert(dec.len() == b.len() / 4);
    assert forall|k: int| 0 <= k < b.len() implies spec_encode_vector(dec)[k] == b[k] by {
        let i = k / 4;
        let j = k % 4;
        vstd::arithmetic::div_mod::lemma_fundamental_div_mod(k, 4);
        lemma_bytes_round_trip(b[4 * i], b[4 * i + 1], b[4 * i + 2], b[4 * i + 3]);
    }
    assert(spec_encode_vector(dec) =~= b);
}

/// Rejects an embedding input whose token count exceeds the window configured
/// for embedding extraction, before any decode pass is attempted.
pub fn check_embed_window(token_count: usize, window: usize) -> (r: Result<(), RunError>)
    ensures
        r is Ok <==> token_count <= window,
        r matches Err(e) ==> e == (RunError::InputTooLong { tokens: token_count, window }),
{
    if token_count > window {
        Err(RunError::InputTooLong { tokens: token_count, window })
    } else {
        Ok(())
    }
}

} // verus!
