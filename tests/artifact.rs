use hath::file::{CacheFile, FileHash, FileInfo, FileType};

const HEX: &str = "5eb2e462781a2ba02cf435d6baa3573f4551c1a5";

fn sample(typ: FileType) -> CacheFile {
    let hash = match FileHash::try_from(HEX) {
        Ok(h) => h,
        Err(_) => panic!("hash"),
    };
    CacheFile { hash, info: FileInfo { size: 37444, res: (1800, 1000), typ } }
}

#[test]
fn canonical_name_disk_and_wire() {
    let f = sample(FileType::Png);
    assert_eq!(f.filename(false), format!("{HEX}-37444-1800-1000.png"));
    assert_eq!(f.filename(true), format!("{HEX}-37444-1800-1000-png"));
}

#[test]
fn canonical_name_round_trip() {
    let f = sample(FileType::WebM);
    let disk = f.filename(false);
    let back = CacheFile::from_filename(&disk).expect("parse");
    assert_eq!(back.hash, f.hash);
    assert_eq!(back.info.size, 37444);
    assert_eq!(back.info.res, (1800, 1000));
    assert!(matches!(back.info.typ, FileType::WebM));
    let wire = f.filename(true);
    let back = match CacheFile::try_from(wire.as_str()) {
        Ok(b) => b,
        Err(_) => panic!("wire parse"),
    };
    assert_eq!(back.hash, f.hash);
    assert!(matches!(back.info.typ, FileType::WebM));
}

#[test]
fn unknown_extension_is_kept_verbatim() {
    let f = CacheFile::from_filename(&format!("{HEX}-1-2-3.tiff")).expect("parse");
    match &f.info.typ {
        FileType::Unknown(t) => assert_eq!(t.as_slice(), b"tiff"),
        _ => panic!("expected unknown"),
    }
    assert_eq!(f.info.typ.extension(), b"tiff".to_vec());
    assert_eq!(f.info.typ.mime(), "application/octet-stream");
    assert_eq!(f.filename(false), format!("{HEX}-1-2-3.tiff"));
}

#[test]
fn known_extensions_and_mime_types() {
    let cases: Vec<(&str, &str)> = vec![
        ("jpg", "image/jpeg"),
        ("png", "image/png"),
        ("gif", "image/gif"),
        ("wbp", "image/webp"),
        ("avf", "image/avif"),
        ("jxl", "image/jxl"),
        ("mp4", "video/mp4"),
        ("webm", "video/webm"),
    ];
    for (ext, mime) in cases {
        let t = FileType::from(ext);
        assert!(!matches!(t, FileType::Unknown(_)));
        assert_eq!(t.extension(), ext.as_bytes().to_vec());
        assert_eq!(t.mime(), mime);
    }
}

#[test]
fn path_is_sharded_by_first_four_hex_digits() {
    let f = sample(FileType::Jpeg);
    let p = f.path(b"/cache");
    let expected = format!("/cache/5e/b2/{HEX}-37444-1800-1000.jpg");
    assert_eq!(p, expected.into_bytes());
}

#[test]
fn static_range_is_first_two_bytes_big_endian() {
    let f = sample(FileType::Jpeg);
    assert_eq!(f.static_range(), 0x5eb2);
}

#[test]
fn hash_text_round_trip() {
    let h = FileHash::try_from(HEX).ok().expect("parse");
    assert_eq!(h.to_hex_string(), HEX);
    assert_eq!(h.to_hex(), HEX.as_bytes().to_vec());
    assert_eq!(h.0[0], 0x5e);
    assert_eq!(h.0[19], 0xa5);
}

#[test]
fn hash_rejects_wrong_length_and_case() {
    assert!(FileHash::try_from(&HEX[..39]).is_err());
    assert!(FileHash::try_from(&format!("{HEX}0")).is_err());
    assert!(FileHash::try_from("").is_err());
    assert!(FileHash::try_from(&HEX.to_uppercase()).is_err());
    assert!(FileHash::try_from("5eb2e462781a2ba02cf435d6baa3573f4551c1ag").is_err());
}

#[test]
fn filename_parse_failures() {
    assert!(CacheFile::from_filename("no-extension").is_none());
    assert!(CacheFile::from_filename(&format!("{HEX}-1-2.png")).is_none());
    assert!(CacheFile::from_filename(&format!("{HEX}-x-2-3.png")).is_none());
    assert!(CacheFile::from_filename(&format!("{HEX}-1-2-4294967296.png")).is_none());
    assert!(CacheFile::from_filename("abc-1-2-3.png").is_none());
    assert!(CacheFile::try_from(format!("{HEX}-1-2-3").as_str()).is_err());
}

#[test]
fn hex_helpers() {
    assert_eq!(hath::hex::hex_to_u8(b'a', b'f'), Some(0xaf));
    assert_eq!(hath::hex::hex_to_u8(b'0', b'9'), Some(0x09));
    assert_eq!(hath::hex::hex_to_u8(b'A', b'0'), None);
    assert_eq!(hath::hex::hex_to_u8(b'0', b'g'), None);
    assert_eq!(hath::hex::u8_to_hex(0xaf), *b"af");
    assert_eq!(hath::hex::u8_to_hex(0x05), *b"05");
    assert_eq!(hath::hex::slice_to_hex(&[0x00, 0xff, 0x10]), b"00ff10".to_vec());
}
