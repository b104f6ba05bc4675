use breeze::config::DiskConfig;
use breeze::disk::Disk;
use breeze::engine::{image_ext, riff_webp, serve_bytes, serve_disk, GetOutcome, UploadData};
use breeze::names::{extension, file_name, file_stem, upload_ext};
use breeze::range::{resolve_bounds, resolve_range};

#[test]
fn file_name_takes_last_component() {
    assert_eq!(file_name("a/b/c.txt"), Some("c.txt".to_string()));
    assert_eq!(file_name("c.txt"), Some("c.txt".to_string()));
    assert_eq!(file_name("a/b/"), Some("b".to_string()));
    assert_eq!(file_name("a/."), Some("a".to_string()));
    assert_eq!(file_name("a/.."), None);
    assert_eq!(file_name("/"), None);
    assert_eq!(file_name(""), None);
    assert_eq!(file_name("."), None);
}

#[test]
fn extension_and_stem() {
    assert_eq!(extension("a.png"), Some("png".to_string()));
    assert_eq!(extension("dir.d/noext"), None);
    assert_eq!(extension(".bashrc"), None);
    assert_eq!(extension("a."), Some("".to_string()));
    assert_eq!(file_stem("x/archive.tar.gz"), Some("archive.tar".to_string()));
    assert_eq!(file_stem(".bashrc"), Some(".bashrc".to_string()));
}

#[test]
fn upload_ext_keeps_compound_suffixes() {
    assert_eq!(upload_ext("archive.tar.gz"), Some("tar.gz".to_string()));
    assert_eq!(upload_ext("a.png"), Some("png".to_string()));
    assert_eq!(upload_ext("x.longer.gz"), Some("gz".to_string()));
    assert_eq!(upload_ext("plain.zst"), Some("zst".to_string()));
    assert_eq!(upload_ext("noext"), None);
    assert_eq!(upload_ext("a.b.txt"), Some("txt".to_string()));
}

#[test]
fn path_for_strips_directories() {
    let d = Disk::with_config(DiskConfig { save_path: "/srv/up".to_string() });
    assert_eq!(d.path_for("abc.png"), "/srv/up/abc.png");
    assert_eq!(d.path_for("../../etc/passwd"), "/srv/up/passwd");
    let d2 = Disk::with_config(DiskConfig { save_path: "/srv/up/".to_string() });
    assert_eq!(d2.path_for("x/y"), "/srv/up/y");
}

#[test]
fn image_extensions_ignore_case() {
    assert!(image_ext("png"));
    assert!(image_ext("JPG"));
    assert!(image_ext("JpEg"));
    assert!(image_ext("webp"));
    assert!(image_ext("tiff"));
    assert!(!image_ext("gif"));
    assert!(!image_ext("pngx"));
}

#[test]
fn range_defaults_and_limits() {
    assert_eq!(resolve_bounds(None, 10), Some((0, 9)));
    assert_eq!(resolve_bounds(Some((Some(2), None)), 10), Some((2, 9)));
    assert_eq!(resolve_bounds(Some((Some(2), Some(5))), 10), Some((2, 5)));
    assert_eq!(resolve_bounds(Some((Some(2), Some(10))), 10), None);
    assert_eq!(resolve_bounds(Some((Some(6), Some(5))), 10), None);
    assert_eq!(resolve_bounds(None, 0), None);
}

#[test]
fn range_header_is_resolved() {
    assert_eq!(resolve_range(Some("bytes=1000-1099"), 4096), Some((1000, 1099)));
    assert_eq!(resolve_range(Some("bytes=5-"), 50), Some((5, 49)));
    assert_eq!(resolve_range(Some("bytes=-10"), 50), Some((40, 49)));
    assert_eq!(resolve_range(Some("bytes=40-60"), 50), None);
    assert_eq!(resolve_range(None, 4096), Some((0, 4095)));
    // text that is no range header asks for the whole body
    assert_eq!(resolve_range(Some("pages=1-2"), 50), Some((0, 49)));
}

#[test]
fn served_range_is_the_slice() {
    let body: Vec<u8> = (0..=255u8).collect();
    match serve_bytes(body.clone(), Some((Some(10), Some(19)))) {
        GetOutcome::Success(res) => {
            assert_eq!(res.full_len, 256);
            assert_eq!(res.range, (10, 19));
            match res.data {
                UploadData::Cache(v) => assert_eq!(v, body[10..=19].to_vec()),
                UploadData::Disk => panic!("expected bytes"),
            }
        }
        _ => panic!("expected success"),
    }
    assert!(matches!(serve_bytes(body, Some((Some(300), None))), GetOutcome::RangeNotSatisfiable));
}

#[test]
fn zero_length_upload_has_no_satisfiable_range() {
    assert!(matches!(serve_bytes(Vec::new(), None), GetOutcome::RangeNotSatisfiable));
}

#[test]
fn disk_range_request() {
    match serve_disk(4096, Some("bytes=1000-1099")) {
        GetOutcome::Success(res) => {
            assert_eq!(res.full_len, 4096);
            assert_eq!(res.range, (1000, 1099));
            assert!(matches!(res.data, UploadData::Disk));
        }
        _ => panic!("expected success"),
    }
    assert!(matches!(serve_disk(4096, Some("bytes=5000-6000")), GetOutcome::RangeNotSatisfiable));
}

#[test]
fn webp_files_are_recognised() {
    let mut w = b"RIFF\x10\x00\x00\x00WEBPVP8 ".to_vec();
    assert!(riff_webp(&w));
    w[8] = b'X';
    assert!(!riff_webp(&w));
    assert!(!riff_webp(&b"RIFF\x00\x00\x00\x00WEBP".to_vec()));
}
