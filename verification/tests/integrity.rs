use bytes::Bytes;
use ssri::Algorithm;
use volt::utils::app::App;
use volt::utils::errors::VoltError;
use volt::utils::hex::hex_chars;
use volt::utils::integrity::{
    confirm_label, hex_string, legacy_integrity, legacy_outcome, strong_integrity, strong_outcome,
    tag_legacy,
};

const EMPTY_SHA1_HEX: &str = "da39a3ee5e6b4b0d3255bfef95601890afd80709";
const EMPTY_SHA512_HEX: &str = "cf83e1357eefb8bdf1542850d66d8007d620e4050b5715dc83f4a921d36ce9ce47d0d13c5d85f2b0ff8318d2877eec2f63b931bd47417a81a538327af927da3e";

fn from_hex(text: &str) -> Vec<u8> {
    let digits: Vec<u32> = text.chars().map(|c| c.to_digit(16).unwrap()).collect();
    digits.chunks(2).map(|pair| (pair[0] * 16 + pair[1]) as u8).collect()
}

#[test]
fn legacy_label_of_empty_buffer() {
    let label = App::calc_hash(&Bytes::new(), Algorithm::Sha1).unwrap();
    assert_eq!(label, format!("sha1-{}", base64::encode(EMPTY_SHA1_HEX)));
    assert_eq!(label, "sha1-ZGEzOWEzZWU1ZTZiNGIwZDMyNTViZmVmOTU2MDE4OTBhZmQ4MDcwOQ==");
}

#[test]
fn strong_label_of_empty_buffer() {
    let label = App::calc_hash(&Bytes::new(), Algorithm::Sha512).unwrap();
    assert_eq!(label, format!("sha512-{}", EMPTY_SHA512_HEX));
    assert_eq!(label.len(), "sha512-".len() + 128);
}

#[test]
fn legacy_label_of_hello_world() {
    let data = Bytes::from_static(b"hello world");
    let label = App::calc_hash(&data, Algorithm::Sha1).unwrap();
    assert_eq!(label, "sha1-MmFhZTZjMzVjOTRmY2ZiNDE1ZGJlOTVmNDA4YjljZTkxZWU4NDZlZA==");
}

#[test]
fn strong_label_of_hello_world() {
    let data = Bytes::from(b"hello world".to_vec());
    let label = App::calc_hash(&data, Algorithm::Sha512).unwrap();
    assert_eq!(
        label,
        "sha512-309ecc489c12d6eb4cc40f50c902f2b4d0ed77ee511a7c7a9bcd3ca86d4cd86f989dd35bc5ff499670da34255b45b0cfd830e81f605dcf7dc5542e93ae9cd76f"
    );
}

#[test]
fn labels_differ_with_the_content() {
    let a = App::calc_hash(&Bytes::from_static(b"a"), Algorithm::Sha1).unwrap();
    let b = App::calc_hash(&Bytes::from_static(b"b"), Algorithm::Sha1).unwrap();
    assert_ne!(a, b);
    let c = App::calc_hash(&Bytes::from_static(b"a"), Algorithm::Sha512).unwrap();
    let d = App::calc_hash(&Bytes::from_static(b"b"), Algorithm::Sha512).unwrap();
    assert_ne!(c, d);
}

#[test]
fn other_algorithms_give_the_empty_string() {
    let data = Bytes::from_static(b"hello world");
    assert_eq!(App::calc_hash(&data, Algorithm::Sha256).unwrap(), "");
    assert_eq!(App::calc_hash(&data, Algorithm::Sha384).unwrap(), "");
    assert_eq!(App::calc_hash(&Bytes::new(), Algorithm::Sha256).unwrap(), "");
}

#[test]
fn legacy_label_reads_back_as_integrity_string() {
    let label = App::calc_hash(&Bytes::from_static(b"archive"), Algorithm::Sha1).unwrap();
    let parsed: ssri::Integrity = label.parse().unwrap();
    assert_eq!(parsed.hashes.len(), 1);
    assert_eq!(parsed.hashes[0].algorithm, Algorithm::Sha1);
    assert_eq!(format!("sha1-{}", parsed.hashes[0].digest), label);
}

#[test]
fn legacy_integrity_encodes_the_hex_text() {
    let digest = from_hex(EMPTY_SHA1_HEX);
    let label = legacy_integrity(&digest).unwrap();
    assert_eq!(label, "sha1-ZGEzOWEzZWU1ZTZiNGIwZDMyNTViZmVmOTU2MDE4OTBhZmQ4MDcwOQ==");
    let direct = format!("sha1-{}", base64::encode(&digest));
    assert_ne!(label, direct);
}

#[test]
fn strong_integrity_is_plain_hex() {
    let digest = from_hex(EMPTY_SHA512_HEX);
    assert_eq!(strong_integrity(&digest), format!("sha512-{}", EMPTY_SHA512_HEX));
    assert_eq!(strong_integrity(&[]), "sha512-");
}

#[test]
fn tag_legacy_puts_the_tag_in_front() {
    assert_eq!(tag_legacy("abc="), "sha1-abc=");
    assert_eq!(tag_legacy(""), "sha1-");
}

#[test]
fn confirm_label_keeps_an_accepted_label() {
    let parsed = "sha1-abc=".parse::<ssri::Integrity>();
    assert!(parsed.is_ok());
    let kept = confirm_label("sha1-abc=".to_string(), parsed).unwrap();
    assert_eq!(kept, "sha1-abc=");
}

#[test]
fn confirm_label_reports_a_refused_label() {
    let parsed = "md5-abc=".parse::<ssri::Integrity>();
    assert!(parsed.is_err());
    match confirm_label("md5-abc=".to_string(), parsed) {
        Err(VoltError::HashParseError { hash }) => assert_eq!(hash, "md5-abc="),
        other => panic!("unexpected outcome: {:?}", other),
    }
}

#[test]
fn hex_of_bytes() {
    assert_eq!(hex_string(&[]), "");
    assert_eq!(hex_string(&[0x00]), "00");
    assert_eq!(hex_string(&[0x0f, 0xf0, 0xab, 0x09]), "0ff0ab09");
    assert_eq!(hex_string(&[0xde, 0xad, 0xbe, 0xef]), "deadbeef");
    assert_eq!(hex_chars(&[0x1a, 0xff]), vec!['1', 'a', 'f', 'f']);
    let all: Vec<u8> = (0..=255).collect();
    let expected: String = all.iter().map(|b| format!("{:02x}", b)).collect();
    assert_eq!(hex_string(&all), expected);
}

#[test]
fn a_failed_copy_is_reported() {
    let broken = std::io::Error::new(std::io::ErrorKind::Other, "broken pipe");
    match legacy_outcome(Err(broken)) {
        Err(VoltError::HasherCopyError(e)) => assert_eq!(e.to_string(), "broken pipe"),
        other => panic!("unexpected outcome: {:?}", other),
    }
    let broken = std::io::Error::new(std::io::ErrorKind::Other, "short write");
    match strong_outcome(Err(broken)) {
        Err(VoltError::HasherCopyError(e)) => assert_eq!(e.to_string(), "short write"),
        other => panic!("unexpected outcome: {:?}", other),
    }
}

#[test]
fn outcomes_of_a_digest() {
    let digest = from_hex(EMPTY_SHA1_HEX);
    assert_eq!(
        legacy_outcome(Ok(digest)).unwrap(),
        "sha1-ZGEzOWEzZWU1ZTZiNGIwZDMyNTViZmVmOTU2MDE4OTBhZmQ4MDcwOQ=="
    );
    let digest = from_hex(EMPTY_SHA512_HEX);
    assert_eq!(strong_outcome(Ok(digest)).unwrap(), format!("sha512-{}", EMPTY_SHA512_HEX));
}
