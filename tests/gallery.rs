use hath::client::{connection_target, ConnectTarget};
use hath::downloader::{take_first_100_chars, DownloadMeta, GalleryFile};
use hath::error::Error;

#[test]
fn gallery_file_line() {
    let f = GalleryFile::parse(b"1 2 1280 abcdef jpg page_one").expect("six fields");
    assert_eq!((f.page, f.index, f.xres), (1, 2, 1280));
    assert_eq!(f.sha1_hash, b"abcdef".to_vec());
    assert_eq!(f.filetype, b"jpg".to_vec());
    assert_eq!(f.filename, b"page_one".to_vec());
    let g = GalleryFile::parse(b"x 2 3 h t n extra").expect("six fields");
    assert_eq!(g.page, 0);
    assert!(GalleryFile::parse(b"1 2 3 h t").is_none());
}

#[test]
fn gallery_description() {
    let text = b"GID 123\nFILECOUNT 2\nMINXRES 780\nTITLE My Gallery\nFILELIST\n1 1 780 aa jpg one\nbad line\n2 2 780 bb png two\nINFORMATION\nfree text\nmore";
    let m = DownloadMeta::parse(text);
    assert_eq!(m.gid, 123);
    assert_eq!(m.file_count, 2);
    assert_eq!(m.min_res, 780);
    assert_eq!(m.title, b"My Gallery".to_vec());
    assert_eq!(m.files.len(), 2);
    assert_eq!(m.files[1].filename, b"two".to_vec());
    assert_eq!(m.info, b"free text\nmore".to_vec());
}

#[test]
fn gallery_description_without_information() {
    let m = DownloadMeta::parse(b"GID x\nFILELIST\nINFORMATION");
    assert_eq!(m.gid, 0);
    assert!(m.files.is_empty());
    assert!(m.info.is_empty());
}

#[test]
fn directory_name_is_bounded() {
    let long = vec![b'a'; 300];
    assert_eq!(take_first_100_chars(&long).len(), 125);
    assert_eq!(take_first_100_chars(b"short"), b"short".to_vec());
}

#[test]
fn upstream_connection_targets() {
    assert_eq!(connection_target(Some(b"http"), true, None), Ok(ConnectTarget { tls: false, port: 80 }));
    assert_eq!(connection_target(Some(b"https"), true, None), Ok(ConnectTarget { tls: true, port: 443 }));
    assert_eq!(connection_target(None, true, Some(8080)), Ok(ConnectTarget { tls: false, port: 8080 }));
    assert_eq!(connection_target(Some(b"ftp"), true, None), Err(Error::UnsupportedProtocol));
    assert_eq!(connection_target(Some(b"https"), false, None), Err(Error::InvalidUri));
}
