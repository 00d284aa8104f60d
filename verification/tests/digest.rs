use wanxiang_installer::digest::{asset_digest, file_digest, find_asset, to_hex, verify, Asset, DigestError};

const ABC: &str = "ba7816bf8f01cfea414140de5dae2223b00361a396177a9cb410ff61f20015ad";

fn asset(name: &str, digest: Option<&str>) -> Asset {
    Asset {
        name: name.to_string(),
        browser_download_url: format!("https://example.com/{name}"),
        digest: digest.map(str::to_string),
    }
}

#[test]
fn hex_is_lowercase_two_digits_per_byte() {
    assert_eq!(to_hex(&[0x00, 0x0f, 0xa0, 0xff]), "000fa0ff");
    assert_eq!(to_hex(&[]), "");
}

#[test]
fn sha256_of_known_inputs() {
    assert_eq!(file_digest(b"abc"), ABC);
    assert_eq!(
        file_digest(b""),
        "e3b0c44298fc1c149afbf4c8996fb92427ae41e4649b934ca495991b7852b855"
    );
}

#[test]
fn published_digest_loses_its_prefix() {
    let a = asset("x.zip", Some(&format!("sha256:{ABC}")));
    assert_eq!(asset_digest(&a).ok(), Some(ABC.to_string()));
    assert!(matches!(asset_digest(&asset("x.zip", None)), Err(DigestError::Missing)));
    assert!(matches!(asset_digest(&asset("x.zip", Some("md5:abc"))), Err(DigestError::BadFormat)));
}

#[test]
fn verify_accepts_only_the_published_digest() {
    let good = asset("x.zip", Some(&format!("sha256:{ABC}")));
    assert!(verify(b"abc", &good).is_ok());
    match verify(b"abd", &good) {
        Err(DigestError::Mismatch { name, local, remote }) => {
            assert_eq!(name, "x.zip");
            assert_eq!(remote, ABC);
            assert_ne!(local, ABC);
            assert_eq!(local.len(), 64);
        }
        _ => panic!("expected a mismatch"),
    }
    assert!(matches!(verify(b"abc", &asset("x.zip", None)), Err(DigestError::Missing)));
    assert!(matches!(verify(b"abc", &asset("x.zip", Some(ABC))), Err(DigestError::BadFormat)));
}

#[test]
fn find_asset_takes_the_first_with_the_name() {
    let assets = vec![asset("a", Some("sha256:1")), asset("b", None), asset("a", Some("sha256:2"))];
    let found = find_asset(&assets, "a").unwrap_or_else(|| panic!("missing"));
    assert_eq!(found.digest.as_deref(), Some("sha256:1"));
    assert!(find_asset(&assets, "c").is_none());
}
