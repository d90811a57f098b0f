//! Little-endian 16-bit PCM framing and its base64 text form.
use vstd::prelude::*;

verus! {

/// The digit of the standard base64 alphabet (`A-Z a-z 0-9 + /`) for a
/// six-bit value.
pub open spec fn b64_digit(v: int) -> char {
    if v < 26 {
        (65 + v) as char
    } else if v < 52 {
        (97 + (v - 26)) as char
    } else if v < 62 {
        (48 + (v - 52)) as char
    } else if v == 62 {
        '+'
    } else {
        '/'
    }
}

/// Standard base64 with `=` padding: each group of three bytes becomes four
/// digits; a final group of one or two bytes is padded to four characters.
pub open spec fn base64_of(b: Seq<u8>) -> Seq<char>
    decreases b.len(),
{
    if b.len() == 0 {
        seq![]
    } else if b.len() == 1 {
        let x = b[0] as int;
        seq![b64_digit(x / 4), b64_digit((x % 4) * 16), '=', '=']
    } else if b.len() == 2 {
        let x = b[0] as int;
        let y = b[1] as int;
        seq![b64_digit(x / 4), b64_digit((x % 4) * 16 + y / 16), b64_digit((y % 16) * 4), '=']
    } else {
        let x = b[0] as int;
        let y = b[1] as int;
        let z = b[2] as int;
        seq![
            b64_digit(x / 4),
            b64_digit((x % 4) * 16 + y / 16),
            b64_digit((y % 16) * 4 + z / 64),
            b64_digit(z % 64),
        ] + base64_of(b.subrange(3, b.len() as int))
    }
}

/// Low byte of a sample's two's-complement form.
pub open spec fn lo_byte(v: i16) -> u8 {
    ((v as u16) % 256) as u8
}

/// High byte of a sample's two's-complement form.
pub open spec fn hi_byte(v: i16) -> u8 {
    ((v as u16) / 256) as u8
}

/// The sample whose little-endian bytes are `lo`, `hi`.
pub open spec fn join_bytes(lo: u8, hi: u8) -> i16 {
    ((lo as u16) + 256 * (hi as u16)) as i16
}

/// Samples serialised back to back, each as two little-endian bytes.
pub open spec fn pcm_bytes(s: Seq<i16>) -> Seq<u8> {
    Seq::new(
        (2 * s.len()) as nat,
        |k: int|
            if k % 2 == 0 {
                lo_byte(s[k / 2])
            } else {
                hi_byte(s[k / 2])
            },
    )
}

/// Byte pairs read back as little-endian samples; an odd last byte is ignored.
pub open spec fn pcm_samples(b: Seq<u8>) -> Seq<i16> {
    Seq::new(b.len() / 2, |k: int| join_bytes(b[2 * k], b[2 * k + 1]))
}

proof fn lemma_join_split(v: i16)
    ensures
        join_bytes(lo_byte(v), hi_byte(v)) == v,
{
    assert(((((v as u16) % 256) as u8) as u16 + 256 * ((((v as u16) / 256) as u8) as u16)) as i16
        == v) by (bit_vector);
}

proof fn lemma_split_join(lo: u8, hi: u8)
    ensures
        lo_byte(join_bytes(lo, hi)) == lo,
        hi_byte(join_bytes(lo, hi)) == hi,
{
    assert(((((lo as u16) + 256 * (hi as u16)) as i16) as u16 % 256) as u8 == lo) by (bit_vector);
    assert(((((lo as u16) + 256 * (hi as u16)) as i16) as u16 / 256) as u8 == hi) by (bit_vector);
}

/// Serialising samples to PCM bytes and reading them back gives the same
/// samples: the framing loses nothing.
pub proof fn lemma_pcm_round_trip(s: Seq<i16>)
    ensures
        pcm_samples(pcm_bytes(s)) == s,
{
    let b = pcm_bytes(s);
    assert forall|k: int| 0 <= k < s.len() implies #[trigger] pcm_samples(b)[k] == s[k] by {
        assert((2 * k) % 2 == 0);
        assert((2 * k + 1) % 2 == 1);
        assert((2 * k) / 2 == k);
        assert((2 * k + 1) / 2 == k);
        lemma_join_split(s[k]);
    }
    assert(pcm_samples(b) =~= s);
}

/// Reading an even-length byte sequence as samples and serialising them again
/// gives the same bytes.
pub proof fn lemma_bytes_round_trip(b: Seq<u8>)
    requires
        b.len() % 2 == 0,
    ensures
        pcm_bytes(pcm_samples(b)) == b,
{
    let s = pcm_samples(b);
    assert forall|k: int| 0 <= k < b.len() implies #[trigger] pcm_bytes(s)[k] == b[k] by {
        let j = k / 2;
        lemma_split_join(b[2 * j], b[2 * j + 1]);
        if k % 2 == 0 {
            assert(k == 2 * j);
        } else {
            assert(k == 2 * j + 1);
        }
    }
    assert(pcm_bytes(s) =~= b);
}

/// Relies on `base64::Engine::encode` with `general_purpose::STANDARD`:
/// standard alphabet, `=` padding.
#[verifier::external_body]
fn encode_base64(bytes: &[u8]) -> (r: String)
    ensures
        r@ == base64_of(bytes@),
{
    base64::Engine::encode(&base64::engine::general_purpose::STANDARD, bytes)
}

/// Relies on `base64::Engine::decode` with `general_purpose::STANDARD`, which
/// requires canonical padding and rejects non-zero trailing bits: it accepts
/// exactly the encodings of byte sequences and returns those bytes.
#[verifier::external_body]
fn decode_base64(text: &str) -> (r: Option<Vec<u8>>)
    ensures
        forall|b: Seq<u8>| text@ == base64_of(b) ==> (r is Some && r->0@ == b),
        r is Some ==> text@ == base64_of(r->0@),
{
    base64::Engine::decode(&base64::engine::general_purpose::STANDARD, text).ok()
}

/// Serialises samples as little-endian 16-bit PCM bytes.
pub fn encode_pcm_bytes(samples: &[i16]) -> (r: Vec<u8>)
    ensures
        r@ == pcm_bytes(samples@),
{
    let mut out: Vec<u8> = Vec::with_capacity(samples.len());
    let mut i: usize = 0;
    while i < samples.len()
        invariant
            i <= samples@.len(),
            out@.len() == 2 * i,
            forall|k: int|
                0 <= k < 2 * i ==> #[trigger] out@[k] == pcm_bytes(samples@)[k],
        decreases samples@.len() - i,
    {
        let u: u16 = samples[i] as u16;
        out.push((u % 256) as u8);
        out.push((u / 256) as u8);
        proof {
            assert((2 * i as int) % 2 == 0 && (2 * i as int) / 2 == i);
            assert((2 * i as int + 1) % 2 == 1 && (2 * i as int + 1) / 2 == i);
        }
        i = i + 1;
    }
    assert(out@ =~= pcm_bytes(samples@));
    out
}

/// Base64 text of the samples' little-endian PCM bytes.
pub fn encode_pcm_base64(samples: &[i16]) -> (r: String)
    ensures
        r@ == base64_of(pcm_bytes(samples@)),
{
    let bytes = encode_pcm_bytes(samples);
    encode_base64(bytes.as_slice())
}

/// Reads base64 PCM text back into samples. Gives `None` exactly when the text
/// is not the base64 form of whole little-endian samples.
pub fn decode_pcm_base64(text: &str) -> (r: Option<Vec<i16>>)
    ensures
        forall|v: Seq<i16>| text@ == base64_of(pcm_bytes(v)) ==> (r is Some && r->0@ == v),
        r is Some ==> text@ == base64_of(pcm_bytes(r->0@)),
{
    let decoded = decode_base64(text);
    match decoded {
        None => {
            proof {
                assert forall|v: Seq<i16>| text@ != base64_of(pcm_bytes(v)) by {
                    if text@ == base64_of(pcm_bytes(v)) {
                        assert(decoded is Some);
                    }
                }
            }
            None
        },
        Some(bytes) => {
            if bytes.len() % 2 != 0 {
                proof {
                    assert forall|v: Seq<i16>| text@ != base64_of(pcm_bytes(v)) by {
                        if text@ == base64_of(pcm_bytes(v)) {
                            assert(bytes@ == pcm_bytes(v));
                        }
                    }
                }
                return None;
            }
            let blen: usize = bytes.len();
            let n: usize = blen / 2;
            let mut out: Vec<i16> = Vec::with_capacity(n);
            let mut i: usize = 0;
            while i < n
                invariant
                    n == bytes@.len() / 2,
                    blen == bytes@.len(),
                    2 * n <= blen,
                    i <= n,
                    out@.len() == i,
                    forall|k: int| 0 <= k < i ==> #[trigger] out@[k] == pcm_samples(bytes@)[k],
                decreases n - i,
            {
                let lo: u16 = bytes[2 * i] as u16;
                let hi: u16 = bytes[2 * i + 1] as u16;
                assert(lo < 256 && hi < 256);
                out.push(#[verifier::truncate] ((lo + 256 * hi) as i16));
                i = i + 1;
            }
            proof {
                assert(out@ =~= pcm_samples(bytes@));
                lemma_bytes_round_trip(bytes@);
                assert forall|v: Seq<i16>| text@ == base64_of(pcm_bytes(v)) implies out@ == v by {
                    assert(bytes@ == pcm_bytes(v));
                    lemma_pcm_round_trip(v);
                }
            }
            Some(out)
        },
    }
}

} // verus!
