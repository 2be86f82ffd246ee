//! LZ4 compression of large memory entries, stored as `"lz4:"` followed by
//! the hex digits of the compressed bytes.

use vstd::prelude::*;
use vstd::string::{StrSliceExecFns, StringSliceAdditionalSpecFns};
use crate::text::{digit_char, digit_str};

verus! {

#[verifier::external_type_specification]
#[verifier::external_body]
pub struct ExDecompressError(lz4_flex::block::DecompressError);

#[verifier::external_type_specification]
#[verifier::external_body]
pub struct ExFromUtf8Error(std::string::FromUtf8Error);

/// Entries longer than this many bytes are compressed.
pub const COMPRESSION_THRESHOLD: usize = 1024;

/// What LZ4 block compression, with the input size prepended, makes of `b`.
pub uninterp spec fn lz4_compressed(b: Seq<u8>) -> Seq<u8>;

/// What LZ4 block decompression of a size-prefixed input makes of `b`, if it
/// is well formed.
pub uninterp spec fn lz4_decompressed(b: Seq<u8>) -> Option<Seq<u8>>;

/// Relies on lz4_flex's `compress_prepend_size`: the compressed form depends
/// on the input bytes alone.
#[verifier::external_body]
fn lz4_compress(b: &[u8]) -> (r: Vec<u8>)
    ensures
        r@ == lz4_compressed(b@),
{
    lz4_flex::compress_prepend_size(b)
}

/// Relies on lz4_flex's `decompress_size_prepended`: the outcome depends on
/// the input bytes alone.
#[verifier::external_body]
fn lz4_decompress(b: &[u8]) -> (r: Result<Vec<u8>, lz4_flex::block::DecompressError>)
    ensures
        match r {
            Ok(v) => lz4_decompressed(b@) == Some(v@),
            Err(_) => lz4_decompressed(b@) is None,
        },
{
    lz4_flex::decompress_size_prepended(b)
}

/// Relies on std's `String::from_utf8`: it succeeds exactly on valid UTF-8,
/// and then the text's encoding is the given bytes.
#[verifier::external_body]
fn utf8_text(b: Vec<u8>) -> (r: Result<String, std::string::FromUtf8Error>)
    ensures
        r is Ok <==> vstd::utf8::valid_utf8(b@),
        r matches Ok(s) ==> vstd::utf8::encode_utf8(s@) == b@,
{
    String::from_utf8(b)
}

/// The lowercase hex digit of `n < 16`.
pub open spec fn hex_char(n: nat) -> char {
    if n < 10 {
        digit_char(n)
    } else if n == 10 { 'a' } else if n == 11 { 'b' } else if n == 12 { 'c' } else if n == 13 { 'd' } else if n == 14 { 'e' } else { 'f' }
}

/// Two lowercase hex digits for each byte.
pub open spec fn hex_of(b: Seq<u8>) -> Seq<char>
    decreases b.len(),
{
    if b.len() == 0 {
        Seq::empty()
    } else {
        hex_of(b.drop_last()) + seq![hex_char((b.last() / 16) as nat), hex_char((b.last() % 16) as nat)]
    }
}

fn hex_digit_str(n: u8) -> (r: &'static str)
    requires
        n < 16,
    ensures
        r@ == seq![hex_char(n as nat)],
{
    if n < 10 {
        digit_str(n as u64)
    } else {
        proof {
            reveal_strlit("a");
            reveal_strlit("b");
            reveal_strlit("c");
            reveal_strlit("d");
            reveal_strlit("e");
            reveal_strlit("f");
        }
        let r = if n == 10 { "a" } else if n == 11 { "b" } else if n == 12 { "c" } else if n == 13 { "d" } else if n == 14 { "e" } else { "f" };
        assert(r@ =~= seq![hex_char(n as nat)]);
        r
    }
}

/// Writes each byte as two lowercase hex digits.
pub fn hex_encode(data: &[u8]) -> (r: String)
    ensures
        r@ == hex_of(data@),
{
    let mut s = String::new();
    let mut i: usize = 0;
    while i < data.len()
        invariant
            i <= data@.len(),
            s@ == hex_of(data@.subrange(0, i as int)),
        decreases data@.len() - i,
    {
        let b = data[i];
        s.append(hex_digit_str(b / 16));
        s.append(hex_digit_str(b % 16));
        i = i + 1;
        proof {
            let sub = data@.subrange(0, i as int);
            assert(sub.drop_last() =~= data@.subrange(0, i - 1));
            assert(sub.last() == b);
        }
    }
    assert(data@.subrange(0, i as int) =~= data@);
    s
}

/// The value of a hex digit of either case, if `c` is one.
pub open spec fn hex_value(c: u8) -> Option<u8> {
    if 48 <= c <= 57 {
        Some((c - 48) as u8)
    } else if 97 <= c <= 102 {
        Some((c - 87) as u8)
    } else if 65 <= c <= 70 {
        Some((c - 55) as u8)
    } else {
        None
    }
}

fn hex_digit_value(c: u8) -> (r: Option<u8>)
    ensures
        r == hex_value(c),
{
    if 48 <= c && c <= 57 {
        Some(c - 48)
    } else if 97 <= c && c <= 102 {
        Some(c - 87)
    } else if 65 <= c && c <= 70 {
        Some(c - 55)
    } else {
        None
    }
}

/// Whether every byte of `t` is a hex digit.
pub open spec fn all_hex(t: Seq<u8>) -> bool {
    forall|i: int| 0 <= i < t.len() ==> (#[trigger] hex_value(t[i])) is Some
}

/// The bytes spelled by pairs of hex digits.
pub open spec fn bytes_of_hex(t: Seq<u8>) -> Seq<u8> {
    Seq::new(t.len() / 2, |i: int| (hex_value(t[2 * i]).unwrap() * 16 + hex_value(t[2 * i + 1]).unwrap()) as u8)
}

/// Reads pairs of hex digits (either case) as bytes. Fails on an odd
/// length or on a byte that is not a hex digit.
pub fn hex_decode(hex: &str) -> (r: Result<Vec<u8>, String>)
    ensures
        r is Ok <==> (hex.spec_bytes().len() % 2 == 0 && all_hex(hex.spec_bytes())),
        r matches Ok(v) ==> v@ == bytes_of_hex(hex.spec_bytes()),
{
    let t = hex.as_bytes();
    if t.len() % 2 != 0 {
        return Err(String::from_str("Hex string has odd length"));
    }
    let mut out: Vec<u8> = Vec::new();
    let mut i: usize = 0;
    while i < t.len()
        invariant
            t@ == hex.spec_bytes(),
            t@.len() % 2 == 0,
            i % 2 == 0,
            i <= t@.len(),
            out@.len() == i / 2,
            forall|j: int| 0 <= j < i ==> (#[trigger] hex_value(t@[j])) is Some,
            forall|k: int| 0 <= k < i / 2 ==> out@[k] == #[trigger] bytes_of_hex(t@)[k],
        decreases t@.len() - i,
    {
        let hi = hex_digit_value(t[i]);
        let lo = hex_digit_value(t[i + 1]);
        match (hi, lo) {
            (Some(h), Some(l)) => {
                proof {
                    assert(h < 16 && l < 16);
                }
                out.push(h * 16 + l);
                assert(out@[(i / 2) as int] == bytes_of_hex(t@)[(i / 2) as int]);
                i = i + 2;
            },
            _ => {
                proof {
                    if hi is None {
                        assert(!all_hex(t@));
                    } else {
                        assert(hex_value(t@[i + 1]) is None);
                        assert(!all_hex(t@));
                    }
                }
                return Err(String::from_str("Invalid hex"));
            },
        }
    }
    assert(out@ =~= bytes_of_hex(t@));
    Ok(out)
}

/// Whether a stored entry is compressed: it starts with `"lz4:"`.
pub open spec fn is_compressed_spec(stored: Seq<char>) -> bool {
    stored.len() >= 4 && stored.subrange(0, 4) == "lz4:"@
}

/// Whether `stored` carries the compression prefix.
pub fn is_compressed(stored: &str) -> (r: bool)
    ensures
        r == is_compressed_spec(stored@),
{
    proof {
        reveal_strlit("lz4:");
    }
    let n = stored.unicode_len();
    if n < 4 {
        return false;
    }
    let r = stored.get_char(0) == 'l' && stored.get_char(1) == 'z' && stored.get_char(2) == '4' && stored.get_char(3) == ':';
    proof {
        if r {
            assert(stored@.subrange(0, 4) =~= "lz4:"@);
        } else if stored@.subrange(0, 4) == "lz4:"@ {
            assert(stored@.subrange(0, 4)[0] == stored@[0]);
            assert(stored@.subrange(0, 4)[1] == stored@[1]);
            assert(stored@.subrange(0, 4)[2] == stored@[2]);
            assert(stored@.subrange(0, 4)[3] == stored@[3]);
        }
    }
    r
}

/// Stores `content` compressed when it is longer than the threshold (in
/// bytes): `("lz4:" + hex of the compressed bytes, true)`; otherwise as it
/// is, `(content, false)`.
pub fn maybe_compress(content: &str) -> (r: (String, bool))
    ensures
        content.spec_bytes().len() <= COMPRESSION_THRESHOLD ==> r.0@ == content@ && !r.1,
        content.spec_bytes().len() > COMPRESSION_THRESHOLD ==> r.0@ == "lz4:"@ + hex_of(lz4_compressed(content.spec_bytes())) && r.1,
{
    if content.as_bytes().len() <= COMPRESSION_THRESHOLD {
        return (String::from_str(content), false);
    }
    let compressed = lz4_compress(content.as_bytes());
    let hex = hex_encode(compressed.as_slice());
    (String::from_str("lz4:").concat(hex.as_str()), true)
}

/// Reads back a stored entry: an entry without the prefix is returned as it
/// is; a compressed one is hex-decoded, decompressed and read as UTF-8, and
/// each of those steps may fail.
pub fn maybe_decompress(stored: &str) -> (r: Result<String, String>)
    ensures
        !is_compressed_spec(stored@) ==> (r matches Ok(s) && s@ == stored@),
        is_compressed_spec(stored@) ==> {
            let rest = stored@.subrange(4, stored@.len() as int);
            let t = vstd::utf8::encode_utf8(rest);
            match r {
                Ok(s) => t.len() % 2 == 0 && all_hex(t) && lz4_decompressed(bytes_of_hex(t)) == Some(vstd::utf8::encode_utf8(s@)),
                Err(_) => !(t.len() % 2 == 0 && all_hex(t)) || lz4_decompressed(bytes_of_hex(t)) is None
                    || !vstd::utf8::valid_utf8(lz4_decompressed(bytes_of_hex(t)).unwrap()),
            }
        },
{
    if !is_compressed(stored) {
        return Ok(String::from_str(stored));
    }
    let rest = stored.substring_char(4, stored.unicode_len());
    let compressed = match hex_decode(rest) {
        Ok(v) => v,
        Err(e) => {
            return Err(e);
        },
    };
    let decompressed = match lz4_decompress(compressed.as_slice()) {
        Ok(v) => v,
        Err(_) => {
            return Err(String::from_str("LZ4 decompression failed"));
        },
    };
    match utf8_text(decompressed) {
        Ok(s) => Ok(s),
        Err(_) => Err(String::from_str("Decompressed data is not valid UTF-8")),
    }
}

} // verus!
