use before::archive::{AssetBytes, AssetStore};
use before::media::Served;
use std::io::Write;

fn sample_zip() -> Vec<u8> {
    let cursor = std::io::Cursor::new(Vec::new());
    let mut writer = zip::ZipWriter::new(cursor);
    let options = zip::write::SimpleFileOptions::default();
    writer
        .start_file("static/index.html", options)
        .expect("start index");
    writer.write_all(b"<h1>before</h1>").expect("write index");
    writer
        .start_file("static/media/clip.mp4", options)
        .expect("start clip");
    writer.write_all(&[7u8; 300]).expect("write clip");
    writer.finish().expect("finish").into_inner()
}

#[test]
fn archive_wins_over_the_filesystem() {
    let mut store = AssetStore::new(Some(sample_zip())).expect("readable zip");
    let resolved = store
        .resolve("index.html", Some(99))
        .expect("present in the archive");
    match resolved.source {
        AssetBytes::Archive(data) => assert_eq!(data, b"<h1>before</h1>"),
        AssetBytes::Filesystem => panic!("the archive must win"),
    }
    assert_eq!(resolved.total_len, 15);
    assert_eq!(resolved.content_type, "text/html; charset=utf-8");
}

#[test]
fn missing_members_fall_back_to_the_filesystem_or_nothing() {
    let mut store = AssetStore::new(Some(sample_zip())).expect("readable zip");
    let fs = store.resolve("missing.txt", Some(7)).expect("filesystem probe hit");
    assert!(matches!(fs.source, AssetBytes::Filesystem));
    assert_eq!(fs.total_len, 7);
    assert_eq!(fs.content_type, "text/plain; charset=utf-8");
    assert!(store.resolve("missing.txt", None).is_none());
}

#[test]
fn a_store_without_an_archive_only_probes_the_filesystem() {
    let mut store = AssetStore::new(None).expect("no archive configured");
    assert!(store.resolve("index.html", None).is_none());
    let fs = store.resolve("index.html", Some(3)).expect("filesystem probe hit");
    assert!(matches!(fs.source, AssetBytes::Filesystem));
}

#[test]
fn garbage_bytes_are_not_an_archive() {
    assert!(AssetStore::new(Some(vec![1, 2, 3, 4])).is_err());
}

#[test]
fn reading_twice_is_byte_identical() {
    let mut store = AssetStore::new(Some(sample_zip())).expect("readable zip");
    let first = store
        .serve_from_archive("index.html", None)
        .expect("present")
        .expect("no range requested");
    let second = store
        .serve_from_archive("index.html", None)
        .expect("present")
        .expect("no range requested");
    match (first, second) {
        (Served::Full { data: a, .. }, Served::Full { data: b, .. }) => assert_eq!(a, b),
        _ => panic!("expected two full responses"),
    }
}

#[test]
fn archive_members_serve_ranges_too() {
    let mut store = AssetStore::new(Some(sample_zip())).expect("readable zip");
    let served = store
        .serve_from_archive("media/clip.mp4", Some(b"bytes=0-3"))
        .expect("present")
        .expect("valid range");
    match served {
        Served::Partial { data, content_type, content_range } => {
            assert_eq!(data, vec![7u8; 4]);
            assert_eq!(content_type, "video/mp4");
            assert_eq!(content_range, "bytes 0-3/300");
        }
        Served::Full { .. } => panic!("expected a partial response"),
    }
}

#[test]
fn out_of_bounds_archive_ranges_are_a_client_error() {
    let mut store = AssetStore::new(Some(sample_zip())).expect("readable zip");
    let served = store
        .serve_from_archive("media/clip.mp4", Some(b"bytes=290-399"))
        .expect("present");
    assert!(served.is_err());
}
