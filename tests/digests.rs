use oci_bundle::digest::{
    check_config_digest, check_layer_count, check_layer_digests, check_media_type, prefixed_digest, Sha256Reader,
    UnpackError,
};

const EMPTY: &str = "e3b0c44298fc1c149afbf4c8996fb92427ae41e4649b934ca495991b7852b855";
const ABC: &str = "ba7816bf8f01cfea414140de5dae2223b00361a396177a9cb410ff61f20015ad";

#[test]
fn digest_of_nothing() {
    assert_eq!(Sha256Reader::new().finish(), EMPTY);
}

#[test]
fn digest_covers_every_chunk_in_order() {
    let mut r = Sha256Reader::new();
    r.update(b"a");
    r.update(b"");
    r.update(b"bc");
    assert_eq!(r.finish(), ABC);
}

#[test]
fn digest_is_lowercase_hex_of_the_bytes() {
    let mut r = Sha256Reader::new();
    r.update(b"abc");
    let d = r.finish();
    assert_eq!(d.len(), 64);
    assert!(d.bytes().all(|b| b.is_ascii_digit() || (b'a'..=b'f').contains(&b)));
    assert_ne!(d, "abc");
}

#[test]
fn prefix_is_added() {
    assert_eq!(prefixed_digest(ABC), format!("sha256:{ABC}"));
}

#[test]
fn matching_digests_pass() {
    let e = format!("sha256:{EMPTY}");
    let a = format!("sha256:{ABC}");
    assert!(check_layer_digests(&e, &EMPTY.to_string(), &a, &ABC.to_string()).is_ok());
}

#[test]
fn diff_id_mismatch_names_both() {
    let e = format!("sha256:{EMPTY}");
    let a = format!("sha256:{ABC}");
    match check_layer_digests(&e, &ABC.to_string(), &a, &ABC.to_string()) {
        Err(UnpackError::DiffIdMismatch { expected, discovered }) => {
            assert_eq!(expected, e);
            assert_eq!(discovered, a);
        }
        other => panic!("unexpected {:?}", other),
    }
}

#[test]
fn layer_digest_mismatch_names_both() {
    let e = format!("sha256:{EMPTY}");
    let a = format!("sha256:{ABC}");
    let mut tampered = Sha256Reader::new();
    tampered.update(b"abd");
    let found = tampered.finish();
    match check_layer_digests(&e, &EMPTY.to_string(), &a, &found) {
        Err(UnpackError::LayerDigestMismatch { expected, discovered }) => {
            assert_eq!(expected, a);
            assert_eq!(discovered, format!("sha256:{found}"));
        }
        other => panic!("unexpected {:?}", other),
    }
}

#[test]
fn layer_count_must_match() {
    assert!(check_layer_count(2, 2).is_ok());
    assert!(matches!(
        check_layer_count(2, 3),
        Err(UnpackError::LayerCountMismatch { layers: 2, diff_ids: 3 })
    ));
}

#[test]
fn only_gzip_layers_are_supported() {
    let gz = "application/vnd.oci.image.layer.v1.tar+gzip".to_string();
    assert!(check_media_type(&gz).is_ok());
    let zstd = "application/vnd.oci.image.layer.v1.tar+zstd".to_string();
    match check_media_type(&zstd) {
        Err(UnpackError::UnsupportedMediaType { media_type }) => assert_eq!(media_type, zstd),
        other => panic!("unexpected {:?}", other),
    }
}

#[test]
fn config_digest_is_checked() {
    let good = format!("sha256:{ABC}");
    assert!(check_config_digest(&good, &ABC.to_string()).is_ok());
    match check_config_digest(&good, &EMPTY.to_string()) {
        Err(UnpackError::ConfigDigestMismatch { expected, discovered }) => {
            assert_eq!(expected, good);
            assert_eq!(discovered, format!("sha256:{EMPTY}"));
        }
        other => panic!("unexpected {:?}", other),
    }
}
