//! Layer digests: a SHA-256 state fed with every byte a layer stream hands
//! out, its lowercase hex form, and the checks of each layer against the
//! digests that the manifest and the image configuration expect.
use vstd::prelude::*;
use vstd::string::StringExecFns;

verus! {

#[verifier::external_type_specification]
#[verifier::external_body]
pub struct ExSha256(openssl::sha::Sha256);

/// The bytes a SHA-256 state has been fed since it was made, in order.
pub uninterp spec fn sha256_fed(h: openssl::sha::Sha256) -> Seq<u8>;

/// The 32-byte SHA-256 digest of `data`.
pub uninterp spec fn sha256_of(data: Seq<u8>) -> Seq<u8>;

/// Relies on openssl::sha::Sha256::new: a state that has been fed nothing.
#[verifier::external_body]
fn sha256_new() -> (r: openssl::sha::Sha256)
    ensures
        sha256_fed(r) == Seq::<u8>::empty(),
{
    openssl::sha::Sha256::new()
}

/// Relies on openssl::sha::Sha256::update: `buf` is fed after what came before.
#[verifier::external_body]
fn sha256_update(h: &mut openssl::sha::Sha256, buf: &[u8])
    ensures
        sha256_fed(*final(h)) == sha256_fed(*old(h)) + buf@,
{
    h.update(buf)
}

/// Relies on openssl::sha::Sha256::finish: the digest of all that was fed.
#[verifier::external_body]
fn sha256_finish(h: openssl::sha::Sha256) -> (r: Vec<u8>)
    ensures
        r@ == sha256_of(sha256_fed(h)),
        r@.len() == 32,
{
    h.finish().to_vec()
}

/// The lowercase hex digit for a value below 16.
pub open spec fn hex_char(n: u8) -> char {
    seq!['0', '1', '2', '3', '4', '5', '6', '7', '8', '9', 'a', 'b', 'c', 'd', 'e', 'f'][n as int]
}

/// Two lowercase hex digits per byte, the high half first.
pub open spec fn hex_of(b: Seq<u8>) -> Seq<char>
    decreases b.len(),
{
    if b.len() == 0 {
        Seq::empty()
    } else {
        hex_of(b.drop_last()) + seq![hex_char(b.last() / 16), hex_char(b.last() % 16)]
    }
}

/// Two hex digits per byte.
pub proof fn lemma_hex_length(b: Seq<u8>)
    ensures
        hex_of(b).len() == 2 * b.len(),
    decreases b.len(),
{
    if b.len() > 0 {
        lemma_hex_length(b.drop_last());
    }
}

/// Relies on hex::encode: lowercase, two digits per byte, in order.
#[verifier::external_body]
fn hex_encode(b: &[u8]) -> (r: String)
    ensures
        r@ == hex_of(b@),
{
    hex::encode(b)
}

/// The lowercase hex SHA-256 digest of `data`.
pub open spec fn digest_hex(data: Seq<u8>) -> Seq<char> {
    hex_of(sha256_of(data))
}

/// The algorithm prefix of a digest string.
pub open spec fn sha256_prefix() -> Seq<char> {
    "sha256:"@
}

/// The digesting half of a reader: every byte that a layer stream hands to
/// its consumer is also passed to [`Sha256Reader::update`]. The view is the
/// sequence of all bytes passed so far.
pub struct Sha256Reader {
    sha: openssl::sha::Sha256,
}

impl View for Sha256Reader {
    type V = Seq<u8>;

    closed spec fn view(&self) -> Seq<u8> {
        sha256_fed(self.sha)
    }
}

impl Sha256Reader {
    /// A digest over no bytes yet.
    pub fn new() -> (r: Sha256Reader)
        ensures
            r@ == Seq::<u8>::empty(),
    {
        Sha256Reader { sha: sha256_new() }
    }

    /// Takes in the bytes just read.
    pub fn update(&mut self, buf: &[u8])
        ensures
            final(self)@ == old(self)@ + buf@,
    {
        sha256_update(&mut self.sha, buf);
    }

    /// The lowercase hex digest of every byte taken in, from the first to the
    /// last: the stream is to be drained before this is called.
    pub fn finish(self) -> (r: String)
        ensures
            r@ == digest_hex(self@),
            r@.len() == 64,
    {
        let d = sha256_finish(self.sha);
        proof {
            lemma_hex_length(d@);
        }
        hex_encode(d.as_slice())
    }
}

/// `sha256:` followed by the hex digest `hex`.
pub fn prefixed_digest(hex: &str) -> (r: String)
    ensures
        r@ == sha256_prefix() + hex@,
{
    String::from_str("sha256:").concat(hex)
}

/// The only layer media type unpacked: gzip-compressed tar.
pub open spec fn gzip_layer_media_type() -> Seq<char> {
    "application/vnd.oci.image.layer.v1.tar+gzip"@
}

/// Why an unpack stops.
#[derive(Debug)]
pub enum UnpackError {
    /// The manifest's layers and the configuration's diff ids differ in number.
    LayerCountMismatch { layers: usize, diff_ids: usize },
    /// A layer of another media type than gzip-compressed tar.
    UnsupportedMediaType { media_type: String },
    /// The uncompressed stream's digest is not the expected diff id.
    DiffIdMismatch { expected: String, discovered: String },
    /// The compressed stream's digest is not the descriptor's digest.
    LayerDigestMismatch { expected: String, discovered: String },
    /// The configuration blob's digest is not its descriptor's digest.
    ConfigDigestMismatch { expected: String, discovered: String },
}

/// Fails unless there is one diff id per layer.
pub fn check_layer_count(layers: usize, diff_ids: usize) -> (r: Result<(), UnpackError>)
    ensures
        r is Ok <==> layers == diff_ids,
        r is Err ==> r == Err::<(), UnpackError>(
            UnpackError::LayerCountMismatch { layers, diff_ids },
        ),
{
    if layers != diff_ids {
        Err(UnpackError::LayerCountMismatch { layers, diff_ids })
    } else {
        Ok(())
    }
}

/// Fails, naming the type, unless `media_type` is gzip-compressed tar.
pub fn check_media_type(media_type: &String) -> (r: Result<(), UnpackError>)
    ensures
        r is Ok <==> media_type@ == gzip_layer_media_type(),
        r matches Err(UnpackError::UnsupportedMediaType { media_type: m }) ==> m@ == media_type@,
        r is Err ==> r matches Err(UnpackError::UnsupportedMediaType { .. }),
{
    let gzip = String::from_str("application/vnd.oci.image.layer.v1.tar+gzip");
    if *media_type == gzip {
        Ok(())
    } else {
        Err(UnpackError::UnsupportedMediaType { media_type: media_type.clone() })
    }
}

/// Compares the configuration blob's discovered hex digest with the
/// `sha256:<hex>` digest of its descriptor; the error carries both sides.
pub fn check_config_digest(expected: &String, hex: &String) -> (r: Result<(), UnpackError>)
    ensures
        r is Ok <==> expected@ == sha256_prefix() + hex@,
        r is Err ==> (r matches Err(UnpackError::ConfigDigestMismatch { expected: e, discovered: d })
            && e@ == expected@ && d@ == sha256_prefix() + hex@),
{
    let found = prefixed_digest(hex.as_str());
    if *expected != found {
        return Err(
            UnpackError::ConfigDigestMismatch { expected: expected.clone(), discovered: found },
        );
    }
    Ok(())
}

/// Compares a layer's two discovered digests with the expected ones: first
/// the uncompressed one (`diff_hex`) with the diff id, then the compressed
/// one (`layer_hex`) with the descriptor's digest. Both expected values are
/// `sha256:<hex>` strings; the errors carry both sides in that form.
pub fn check_layer_digests(
    expected_diff_id: &String,
    diff_hex: &String,
    expected_digest: &String,
    layer_hex: &String,
) -> (r: Result<(), UnpackError>)
    ensures
        r is Ok <==> (expected_diff_id@ == sha256_prefix() + diff_hex@ && expected_digest@
            == sha256_prefix() + layer_hex@),
        expected_diff_id@ != sha256_prefix() + diff_hex@ ==> (r matches Err(
            UnpackError::DiffIdMismatch { expected: e, discovered: d },
        ) && e@ == expected_diff_id@ && d@ == sha256_prefix() + diff_hex@),
        expected_diff_id@ == sha256_prefix() + diff_hex@ && expected_digest@ != sha256_prefix()
            + layer_hex@ ==> (r matches Err(
            UnpackError::LayerDigestMismatch { expected: e, discovered: d },
        ) && e@ == expected_digest@ && d@ == sha256_prefix() + layer_hex@),
{
    let diff_id = prefixed_digest(diff_hex.as_str());
    if *expected_diff_id != diff_id {
        return Err(
            UnpackError::DiffIdMismatch { expected: expected_diff_id.clone(), discovered: diff_id },
        );
    }
    let digest = prefixed_digest(layer_hex.as_str());
    if *expected_digest != digest {
        return Err(
            UnpackError::LayerDigestMismatch { expected: expected_digest.clone(), discovered: digest },
        );
    }
    Ok(())
}

} // verus!
