//! The content-addressed image cache: target-size computation, the
//! reuse-or-rebuild decision, image file naming, and binary integrity
//! checking.

use vstd::prelude::*;
use sha2::Digest;

verus! {

pub const BLOCK_SIZE: u64 = 512;

/// Why an image cannot be built.
#[derive(Clone, Copy, PartialEq, Eq, Structural, Debug)]
pub enum ImageError {
    /// The configured target size is smaller than the measured source.
    TargetTooSmall { target: u64, measured: u64 },
}

/// `b` rounded up to the next block boundary.
pub open spec fn spec_align(b: int) -> int {
    b + (if b % 512 == 0 {
        0int
    } else {
        512 - b % 512
    })
}

/// `size` rounded up to the next block boundary.
pub fn align_to_block_size(size: u64) -> (r: u64)
    requires
        size + BLOCK_SIZE <= u64::MAX,
    ensures
        r % 512 == 0,
        size <= r < size + 512,
        r as int == spec_align(size as int),
{
    let rem = size % BLOCK_SIZE;
    if rem == 0 {
        size
    } else {
        let r = size + (BLOCK_SIZE - rem);
        proof {
            assert(r % 512 == 0) by (nonlinear_arith)
                requires
                    r == size + (512 - size % 512),
                    size % 512 != 0,
                    size >= 0,
            ;
        }
        r
    }
}

/// The byte size an image file will be given: the configured target when
/// one is set (0 means unset), else the measured source size plus 1000
/// bytes of slack, the larger of the two, rounded up to a block boundary.
/// A set target smaller than the measured source is a configuration error.
pub open spec fn spec_target_size(explicit: u64, measured: u64) -> Result<int, ImageError> {
    if explicit != 0 && explicit < measured {
        Err(ImageError::TargetTooSmall { target: explicit, measured })
    } else {
        let base = if explicit >= measured + 1000 {
            explicit as int
        } else {
            measured + 1000
        };
        Ok(spec_align(base))
    }
}

pub fn target_image_size(explicit: u64, measured: u64) -> (r: Result<u64, ImageError>)
    requires
        measured + 1000 + BLOCK_SIZE <= u64::MAX,
        explicit + BLOCK_SIZE <= u64::MAX,
    ensures
        match r {
            Ok(size) => spec_target_size(explicit, measured) == Result::<int, ImageError>::Ok(
                size as int,
            ),
            Err(e) => spec_target_size(explicit, measured) == Result::<int, ImageError>::Err(e),
        },
{
    if explicit != 0 && explicit < measured {
        return Err(ImageError::TargetTooSmall { target: explicit, measured });
    }
    let base = if explicit >= measured + 1000 {
        explicit
    } else {
        measured + 1000
    };
    let aligned = align_to_block_size(base);
    Ok(aligned)
}

/// What a probe of the cached image file found.
pub struct CacheProbe {
    pub cached_exists: bool,
    pub cached_mtime_ms: u64,
    pub cached_size: u64,
}

/// Whether a cached image may be reused: it must exist, and unless
/// validation is skipped, the cache must be enabled, the cached file no
/// older than the source, and its size exactly the computed target.  The
/// decision is a function of these inputs alone, so it is deterministic.
pub open spec fn spec_cache_hit(
    probe: CacheProbe,
    source_mtime_ms: u64,
    target_size: u64,
    cache_disabled: bool,
    skip_validation: bool,
) -> bool {
    probe.cached_exists && (skip_validation || (!cache_disabled && probe.cached_mtime_ms
        >= source_mtime_ms && probe.cached_size == target_size))
}

pub fn image_cache_decision(
    probe: &CacheProbe,
    source_mtime_ms: u64,
    target_size: u64,
    cache_disabled: bool,
    skip_validation: bool,
) -> (r: bool)
    ensures
        r == spec_cache_hit(*probe, source_mtime_ms, target_size, cache_disabled, skip_validation),
{
    probe.cached_exists && (skip_validation || (!cache_disabled && probe.cached_mtime_ms
        >= source_mtime_ms && probe.cached_size == target_size))
}

/// What to do about one image.
#[derive(Clone, Copy, PartialEq, Eq, Structural, Debug)]
pub enum ImagePlan {
    /// The cached file is up to date: no formatting, no copying.
    Reuse,
    /// Allocate a fresh file of the given size, format, mount and fill it.
    Rebuild { size: u64 },
}

/// Decides the fate of one image from its probe and measurements.  A target
/// smaller than the measured source is refused before anything is touched:
/// an error plan never carries a rebuild.
pub fn build_image_plan(
    explicit: u64,
    measured: u64,
    probe: &CacheProbe,
    source_mtime_ms: u64,
    cache_disabled: bool,
    skip_validation: bool,
) -> (r: Result<ImagePlan, ImageError>)
    requires
        measured + 1000 + BLOCK_SIZE <= u64::MAX,
        explicit + BLOCK_SIZE <= u64::MAX,
    ensures
        match r {
            Ok(plan) => {
                &&& spec_target_size(explicit, measured) matches Ok(size)
                &&& (plan == ImagePlan::Reuse <==> spec_cache_hit(
                    *probe,
                    source_mtime_ms,
                    size as u64,
                    cache_disabled,
                    skip_validation,
                ))
                &&& (plan matches ImagePlan::Rebuild { size: s } ==> s == size)
            },
            Err(e) => spec_target_size(explicit, measured) == Result::<int, ImageError>::Err(e),
        },
{
    let size = match target_image_size(explicit, measured) {
        Ok(s) => s,
        Err(e) => {
            return Err(e);
        },
    };
    if image_cache_decision(probe, source_mtime_ms, size, cache_disabled, skip_validation) {
        Ok(ImagePlan::Reuse)
    } else {
        Ok(ImagePlan::Rebuild { size })
    }
}

/// The cache file name of a named image: `{name}.ext4`.
pub fn image_file_name(name: &[u8]) -> (r: Vec<u8>)
    ensures
        r@ == name@ + seq![0x2eu8, 0x65u8, 0x78u8, 0x74u8, 0x34u8],
{
    let mut out = vstd::slice::slice_to_vec(name);
    out.push(0x2e);
    out.push(0x65);
    out.push(0x78);
    out.push(0x74);
    out.push(0x34);
    proof {
        assert(out@ =~= name@ + seq![0x2eu8, 0x65u8, 0x78u8, 0x74u8, 0x34u8]);
    }
    out
}

/// A buffer of `len` zero bytes, as written into a freshly allocated image
/// file.
pub fn zero_buffer(len: usize) -> (r: Vec<u8>)
    ensures
        r@.len() == len,
        forall|i: int| 0 <= i < len ==> r@[i] == 0u8,
{
    let mut out: Vec<u8> = Vec::new();
    let mut i: usize = 0;
    while i < len
        invariant
            0 <= i <= len,
            out@.len() == i,
            forall|l: int| 0 <= l < i ==> out@[l] == 0u8,
        decreases len - i,
    {
        out.push(0);
        i += 1;
    }
    out
}

/// The lower-case hex digit of a nibble.
pub open spec fn hex_digit(n: u8) -> u8 {
    if n < 10 {
        (0x30 + n) as u8
    } else {
        (0x61 + (n - 10)) as u8
    }
}

/// The hex rendering of a byte string, two digits per byte.
pub open spec fn hex_of(s: Seq<u8>) -> Seq<u8>
    decreases s.len(),
{
    if s.len() == 0 {
        Seq::empty()
    } else {
        hex_of(s.drop_last()) + seq![
            hex_digit(s.last() / 16),
            hex_digit((s.last() % 16) as u8),
        ]
    }
}

/// Renders bytes as lower-case hex.
#[verifier::loop_isolation(false)]
pub fn hex_bytes(bytes: &[u8]) -> (r: Vec<u8>)
    ensures
        r@ == hex_of(bytes@),
{
    let n = bytes.len();
    let mut out: Vec<u8> = Vec::new();
    let mut i: usize = 0;
    while i < n
        invariant
            0 <= i <= n == bytes@.len(),
            out@ == hex_of(bytes@.subrange(0, i as int)),
        decreases n - i,
    {
        let b = bytes[i];
        let hi = b / 16;
        let lo = b % 16;
        out.push(
            if hi < 10 {
                0x30 + hi
            } else {
                0x61 + (hi - 10)
            },
        );
        out.push(
            if lo < 10 {
                0x30 + lo
            } else {
                0x61 + (lo - 10)
            },
        );
        proof {
            assert(bytes@.subrange(0, i + 1).drop_last() =~= bytes@.subrange(0, i as int));
            assert(bytes@.subrange(0, i + 1).last() == bytes@[i as int]);
            assert(out@ =~= hex_of(bytes@.subrange(0, i + 1)));
        }
        i += 1;
    }
    proof {
        assert(bytes@.subrange(0, n as int) =~= bytes@);
    }
    out
}

/// Turns ASCII bytes into a `String`.  Relies on String::from_utf8_lossy,
/// which maps ASCII bytes to the identical characters.
#[verifier::external_body]
pub fn ascii_string(v: &[u8]) -> (r: String)
    requires
        forall|i: int| 0 <= i < v@.len() ==> v@[i] < 128,
    ensures
        r@.len() == v@.len(),
        forall|i: int| 0 <= i < v@.len() ==> r@[i] == v@[i] as char,
{
    String::from_utf8_lossy(v).into_owned()
}

/// Renders bytes as a lower-case hex `String`.
pub fn hex(bytes: &[u8]) -> (r: String)
    ensures
        r@.len() == hex_of(bytes@).len(),
        forall|i: int| 0 <= i < r@.len() ==> r@[i] == hex_of(bytes@)[i] as char,
{
    let h = hex_bytes(bytes);
    proof {
        lemma_hex_ascii(bytes@);
    }
    ascii_string(h.as_slice())
}

/// Every hex digit is ASCII.
proof fn lemma_hex_ascii(s: Seq<u8>)
    ensures
        forall|i: int| 0 <= i < hex_of(s).len() ==> hex_of(s)[i] < 128,
    decreases s.len(),
{
    if s.len() > 0 {
        lemma_hex_ascii(s.drop_last());
        let h = hex_of(s);
        let hp = hex_of(s.drop_last());
        assert forall|i: int| 0 <= i < h.len() implies h[i] < 128 by {
            if i < hp.len() {
                assert(h[i] == hp[i]);
            } else {
                assert(hex_digit(s.last() / 16) < 128 && hex_digit((s.last() % 16) as u8) < 128);
            }
        }
    }
}

/// What SHA-256 digests a byte string to.
pub uninterp spec fn sha256_of(data: Seq<u8>) -> Seq<u8>;

/// Relies on sha2::Sha256: the digest is 32 bytes and depends on the input
/// bytes alone.
#[verifier::external_body]
pub fn sha256(data: &[u8]) -> (r: Vec<u8>)
    ensures
        r@ == sha256_of(data@),
        r@.len() == 32,
{
    sha2::Sha256::digest(data).to_vec()
}

/// Checks a downloaded binary against an expected hex digest: true exactly
/// when the hex of the data's SHA-256 equals the expected string.
pub fn verify_sha256(data: &[u8], expected_hex: &[u8]) -> (r: bool)
    ensures
        r <==> hex_of(sha256_of(data@)) == expected_hex@,
{
    let digest = sha256(data);
    let hexed = hex_bytes(digest.as_slice());
    crate::vars::bytes_eq(hexed.as_slice(), expected_hex)
}

} // verus!
