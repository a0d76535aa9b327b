use qqmusic::encoding::{
    png_data_url, qqmusic_get_sign, qqmusic_gtk, qqmusic_hash33, sign_from_digest,
};

#[test]
fn test_sign_algorithm() {
    let data = r#"{"comm":{"ct":24}}"#;
    let sign = qqmusic_get_sign(data);
    assert!(!sign.is_empty());
    assert!(sign.starts_with("zzc"));
    assert_eq!(sign.len(), 19);
    assert_eq!(sign, "zzc0bf0adcffa032e6b");
}

#[test]
fn test_sign_consistent() {
    let data = "test_data";
    let sign1 = qqmusic_get_sign(data);
    let sign2 = qqmusic_get_sign(data);
    assert_eq!(sign1, sign2, "sign must be deterministic");
    assert_eq!(sign1, "zzcaada8f2d85a43f00");
}

#[test]
fn sign_picks_digits_of_the_digest() {
    assert_eq!(sign_from_digest(&[0xffu8; 16]), "zzcffffffffffffffff");
    assert_eq!(sign_from_digest(&[0u8; 16]), "zzc0000000000000000");
}

#[test]
fn test_hash33() {
    let token = qqmusic_hash33("test_qrsig");
    assert!(token > 0);
    assert_eq!(qqmusic_hash33("test_qrsig"), token);
    assert_eq!(token, 850386917);
}

#[test]
fn hash33_of_short_texts() {
    assert_eq!(qqmusic_hash33(""), 0);
    assert_eq!(qqmusic_hash33("abc"), 108966);
    assert_eq!(qqmusic_hash33("中"), 20013);
}

#[test]
fn gtk_starts_from_its_seed() {
    assert_eq!(qqmusic_gtk(""), 5381);
    assert_eq!(qqmusic_gtk("key"), 193496974);
}

#[test]
fn picture_becomes_an_address() {
    assert_eq!(
        png_data_url(&vec![0x89, 0x50, 0x4e, 0x47]),
        "data:image/png;base64,iVBORw=="
    );
    assert_eq!(png_data_url(&Vec::new()), "data:image/png;base64,");
}
