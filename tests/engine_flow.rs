use breeze::config::{CacheConfig, DiskConfig, EngineConfig};
use breeze::deletion::{check_hash, verify_token, DeleteRejection};
use breeze::engine::{candidate_name, Engine, GetOutcome, ProcessOutcome, UploadData};
use breeze::hash::calculate_hash;
use breeze::names::upload_ext;

use base64::Engine as _;

fn config(mem_capacity: usize, max_length: u64, deletion_secret: Option<&str>) -> EngineConfig {
    EngineConfig {
        base_url: "https://example.test".to_string(),
        upload_key: String::new(),
        deletion_secret: deletion_secret.map(|s| s.to_string()),
        disk: DiskConfig { save_path: "/tmp/uploads".to_string() },
        cache: CacheConfig { max_length, upload_lifetime: 60_000, scan_freq: 1000, mem_capacity },
        max_upload_len: Some(1 << 30),
        max_temp_lifetime: 3_600_000,
        max_strip_len: 1 << 20,
        motd: breeze::config::default_motd(),
    }
}

/// Runs an upload through the engine as a request handler would, feeding the
/// body in chunks of `chunk` bytes. Returns the outcome, the saved name, and
/// every byte handed to the disk writer.
fn upload(
    e: &mut Engine,
    original_name: &str,
    announced: u64,
    body: &[u8],
    chunk: usize,
    lifetime: Option<u64>,
    keep_exif: bool,
    now: u64,
) -> (ProcessOutcome, String, Vec<u8>) {
    let use_cache = match e.admission_check(announced, lifetime) {
        Ok(u) => u,
        Err(o) => return (o, String::new(), Vec::new()),
    };
    let ext = upload_ext(original_name);
    let name = loop {
        let n = Engine::new_candidate(&ext);
        if !e.has(&n, false, now) {
            break n;
        }
    };
    let mut up = e.start_upload(&name, announced, use_cache, lifetime, keep_exif);
    let mut disk = Vec::new();
    for c in body.chunks(chunk.max(1)) {
        if let Some(v) = up.feed(c) {
            disk.extend_from_slice(&v);
        }
    }
    let (blob, sample, len) = e.finish_upload(&name, up, lifetime, now);
    if let Some(b) = blob {
        disk.extend_from_slice(&b);
    }
    (e.complete(&name, len, &sample), name, disk)
}

fn body_of(o: Option<GetOutcome>) -> Vec<u8> {
    match o {
        Some(GetOutcome::Success(res)) => match res.data {
            UploadData::Cache(v) => v,
            UploadData::Disk => panic!("expected bytes from memory"),
        },
        _ => panic!("expected the upload"),
    }
}

#[test]
fn small_upload_round_trip() {
    let mut e = Engine::with_config(config(1 << 20, 1 << 20, None), 0);
    let body: Vec<u8> = (0u8..10).collect();
    let (out, name, disk) = upload(&mut e, "a.png", 10, &body, 4, None, false, 100);
    match out {
        ProcessOutcome::Success { url, deletion_url } => {
            assert!(url.starts_with("https://example.test/p/"));
            assert!(url.ends_with(".png"));
            assert_eq!(url.len(), "https://example.test/p/".len() + 6 + 4);
            assert!(deletion_url.is_none());
        }
        _ => panic!("upload refused"),
    }
    assert_eq!(disk, body);
    assert_eq!(body_of(e.get_cached(&name, None, 101)), body);
    assert_eq!(e.upl_count, 1);
}

#[test]
fn saved_names_are_six_alphanumerics_and_extension() {
    let n = Engine::new_candidate(&Some("tar.gz".to_string()));
    assert_eq!(n.len(), 13);
    assert!(n[..6].chars().all(|c| c.is_ascii_alphanumeric()));
    assert!(n.ends_with(".tar.gz"));
    assert_eq!(Engine::new_candidate(&None).len(), 6);
    assert_eq!(candidate_name("abcdef".to_string(), &Some("png".to_string())), "abcdef.png");
}

#[test]
fn taken_names_are_refused() {
    let mut e = Engine::with_config(config(1 << 20, 1 << 20, None), 0);
    let (_, name, _) = upload(&mut e, "x.txt", 3, b"abc", 3, None, false, 0);
    assert!(e.has(&name, false, 1));
    assert!(e.has("free.txt", true, 1));
    assert!(!e.has("free.txt", false, 1));
}

#[test]
fn range_request_on_large_file_goes_to_disk() {
    let mut e = Engine::with_config(config(1 << 20, 1024, None), 0);
    let body: Vec<u8> = (0..4096).map(|i| b'A' + (i % 16) as u8).collect();
    let (out, name, disk) = upload(&mut e, "big.bin", 4096, &body, 1000, None, false, 0);
    assert!(matches!(out, ProcessOutcome::Success { .. }));
    assert_eq!(disk, body);
    assert!(e.get_cached(&name, None, 1).is_none());
    assert!(!e.will_use(4096));
    match breeze::engine::serve_disk(4096, Some("bytes=1000-1099")) {
        GetOutcome::Success(res) => assert_eq!(res.range, (1000, 1099)),
        _ => panic!("expected success"),
    }
}

#[test]
fn recached_upload_serves_a_range() {
    let mut e = Engine::with_config(config(1 << 20, 1 << 20, None), 0);
    let body: Vec<u8> = (0..4096).map(|i| b'A' + (i % 16) as u8).collect();
    match e.recache("abcdef.bin", body.clone(), Some("bytes=1000-1099"), 5) {
        GetOutcome::Success(res) => {
            assert_eq!(res.range, (1000, 1099));
            match res.data {
                UploadData::Cache(v) => assert_eq!(v, body[1000..=1099].to_vec()),
                UploadData::Disk => panic!("expected bytes"),
            }
        }
        _ => panic!("expected success"),
    }
    assert_eq!(body_of(e.get_cached("abcdef.bin", None, 6)), body);
}

#[test]
fn temporary_upload_expires() {
    let mut e = Engine::with_config(config(1 << 20, 1 << 20, None), 0);
    let (out, name, disk) = upload(&mut e, "t.txt", 5, b"hello", 5, Some(1000), false, 0);
    assert!(matches!(out, ProcessOutcome::Success { .. }));
    assert!(disk.is_empty());
    assert_eq!(body_of(e.get_cached(&name, None, 0)), b"hello".to_vec());
    e.scan_cache(2000);
    assert!(e.get_cached(&name, None, 2000).is_none());
}

#[test]
fn admission_limits() {
    let mut cfg = config(1 << 20, 100, None);
    cfg.max_upload_len = Some(1000);
    cfg.max_temp_lifetime = 5000;
    let e = Engine::with_config(cfg, 0);
    assert!(matches!(e.admission_check(1000, None), Ok(false)));
    assert!(matches!(e.admission_check(1001, None), Err(ProcessOutcome::UploadTooLarge)));
    assert!(matches!(e.admission_check(100, None), Ok(true)));
    assert!(matches!(e.admission_check(101, Some(10)), Err(ProcessOutcome::TemporaryUploadTooLarge)));
    assert!(matches!(e.admission_check(10, Some(5000)), Ok(true)));
    assert!(matches!(
        e.admission_check(10, Some(5001)),
        Err(ProcessOutcome::TemporaryUploadLifetimeTooLong)
    ));
}

#[test]
fn zero_length_upload() {
    let mut e = Engine::with_config(config(1 << 20, 1 << 20, None), 0);
    let (out, name, disk) = upload(&mut e, "empty.txt", 0, b"", 1, None, false, 0);
    assert!(matches!(out, ProcessOutcome::Success { .. }));
    assert!(disk.is_empty());
    assert!(matches!(e.get_cached(&name, None, 1), Some(GetOutcome::RangeNotSatisfiable)));
}

#[test]
fn client_sending_more_than_announced_still_reaches_disk() {
    let mut e = Engine::with_config(config(1 << 20, 1 << 20, None), 0);
    let body = vec![9u8; 100];
    let (out, name, disk) = upload(&mut e, "a.txt", 10, &body, 7, None, false, 0);
    assert!(matches!(out, ProcessOutcome::Success { .. }));
    assert_eq!(disk, body);
    assert!(e.get_cached(&name, None, 1).is_none());
}

#[test]
fn held_back_image_reaches_disk_when_client_sends_more() {
    let mut e = Engine::with_config(config(1 << 20, 1 << 20, None), 0);
    let body = vec![3u8; 50];
    let (_, name, disk) = upload(&mut e, "a.jpg", 20, &body, 8, None, false, 0);
    assert_eq!(disk, body);
    assert!(e.get_cached(&name, None, 1).is_none());
}

fn query_field(url: &str, field: &str) -> String {
    let q = url.split_once('?').unwrap().1;
    for part in q.split('&') {
        let (k, v) = part.split_once('=').unwrap();
        if k == field {
            return v.to_string();
        }
    }
    panic!("no field {}", field)
}

#[test]
fn deletion_round_trip() {
    let mut e = Engine::with_config(config(1 << 20, 1 << 20, Some("s")), 0);
    let body = b"some file contents".to_vec();
    let (out, name, _) = upload(&mut e, "f.txt", body.len() as u64, &body, 5, None, false, 0);
    let del = match out {
        ProcessOutcome::Success { deletion_url: Some(d), .. } => d,
        _ => panic!("expected a deletion url"),
    };
    assert!(del.starts_with("https://example.test/del?name="));
    assert_eq!(query_field(&del, "name"), name);
    let hash = query_field(&del, "hash");
    let hmac = query_field(&del, "hmac");
    let key = e.deletion_hmac.clone().unwrap();
    assert_eq!(key, b"s".to_vec());
    let h = verify_token(Some(&key), &name, &hash, &hmac).unwrap();
    assert_eq!(Some(h), e.get_hash_cached(&name, 1));
    assert_eq!(check_hash(h, e.get_hash_cached(&name, 1)), Ok(()));
    assert!(e.remove_cached(&name));
    e.note_deleted();
    assert_eq!(e.upl_count, 0);
    assert!(e.get_cached(&name, None, 2).is_none());
    // a changed name breaks the signature
    let other = format!("x{}", &name[1..]);
    assert_eq!(verify_token(Some(&key), &other, &hash, &hmac), Err(DeleteRejection::HmacInvalid));
    assert_eq!(DeleteRejection::HmacInvalid.status(), 400);
}

#[test]
fn deletion_token_errors() {
    let key = b"s".to_vec();
    assert_eq!(verify_token(None, "a", "b", "c"), Err(DeleteRejection::Disabled));
    assert_eq!(DeleteRejection::Disabled.status(), 409);
    assert_eq!(verify_token(Some(&key), "a", "AAAA", "!!"), Err(DeleteRejection::BadHmacEncoding));
    assert_eq!(verify_token(Some(&key), "a", "!!", "AAAA"), Err(DeleteRejection::BadHashEncoding));
    assert_eq!(verify_token(Some(&key), "a", "AAAA", "AAAA"), Err(DeleteRejection::BadHashLength));
    let sixteen = base64::prelude::BASE64_URL_SAFE_NO_PAD.encode([0u8; 16]);
    assert_eq!(verify_token(Some(&key), "a", &sixteen, "AAAA"), Err(DeleteRejection::HmacInvalid));
    assert_eq!(check_hash(1, None), Err(DeleteRejection::NotFound));
    assert_eq!(DeleteRejection::NotFound.status(), 404);
    assert_eq!(check_hash(1, Some(2)), Err(DeleteRejection::HashMismatch));
}

#[test]
fn hash_format_is_length_then_sample() {
    let sample = b"abc";
    let mut buf = 3u64.to_be_bytes().to_vec();
    buf.extend_from_slice(sample);
    assert_eq!(calculate_hash(3, sample), twox_hash::XxHash3_128::oneshot(&buf));
    assert_ne!(calculate_hash(3, sample), calculate_hash(4, sample));
}

#[test]
fn deletion_hash_covers_first_bytes_only() {
    let mut e = Engine::with_config(config(1 << 20, 1 << 20, None), 0);
    let body: Vec<u8> = (0..40_000u32).map(|i| (i % 251) as u8).collect();
    let (_, name, _) = upload(&mut e, "b.bin", 40_000, &body, 3000, None, false, 0);
    let expected = calculate_hash(40_000, &body[..32_768]);
    assert_eq!(e.get_hash_cached(&name, 1), Some(expected));
}

/// A small JPEG: start of image, an EXIF block, a quantisation table, a scan
/// and the end of image.
fn jpeg_with_exif() -> (Vec<u8>, Vec<u8>) {
    let mut exif = b"Exif\0\0".to_vec();
    exif.extend(std::iter::repeat(0x5a).take(20_000));
    let mut j = vec![0xff, 0xd8];
    j.extend_from_slice(&[0xff, 0xe1]);
    j.extend_from_slice(&((exif.len() + 2) as u16).to_be_bytes());
    j.extend_from_slice(&exif);
    j.extend_from_slice(&[0xff, 0xdb, 0x00, 0x04, 0x00, 0x01]);
    j.extend_from_slice(&[0xff, 0xda, 0x00, 0x04, 0x00, 0x00, 0x11, 0x22, 0x33]);
    j.extend_from_slice(&[0xff, 0xd9]);
    (j, exif)
}

#[test]
fn exif_is_stripped_before_disk() {
    let mut e = Engine::with_config(config(1 << 20, 1 << 20, Some("s")), 0);
    let (jpeg, exif) = jpeg_with_exif();
    let (out, name, disk) = upload(&mut e, "photo.jpg", jpeg.len() as u64, &jpeg, 4096, None, false, 0);
    assert!(matches!(out, ProcessOutcome::Success { .. }));
    assert!(disk.len() < jpeg.len());
    assert!(!disk.windows(exif.len()).any(|w| w == exif.as_slice()));
    assert_eq!(body_of(e.get_cached(&name, None, 1)), disk);
}

#[test]
fn exif_is_kept_when_asked() {
    let mut e = Engine::with_config(config(1 << 20, 1 << 20, None), 0);
    let (jpeg, _) = jpeg_with_exif();
    let (_, name, disk) = upload(&mut e, "photo.jpg", jpeg.len() as u64, &jpeg, 4096, None, true, 0);
    assert_eq!(disk, jpeg);
    assert_eq!(body_of(e.get_cached(&name, None, 1)), jpeg);
}

#[test]
fn cached_upload_honours_the_range_header() {
    let mut e = Engine::with_config(config(1 << 20, 1 << 20, None), 0);
    let body: Vec<u8> = (0..100u8).collect();
    let (_, name, _) = upload(&mut e, "r.bin", 100, &body, 30, None, false, 0);
    match e.get_cached(&name, Some("bytes=10-19"), 1) {
        Some(GetOutcome::Success(res)) => {
            assert_eq!(res.range, (10, 19));
            match res.data {
                UploadData::Cache(v) => assert_eq!(v, body[10..=19].to_vec()),
                UploadData::Disk => panic!("expected bytes"),
            }
        }
        _ => panic!("expected success"),
    }
    assert!(matches!(
        e.get_cached(&name, Some("bytes=100-120"), 2),
        Some(GetOutcome::RangeNotSatisfiable)
    ));
}

#[test]
fn malformed_webp_is_stored_unstripped() {
    let mut e = Engine::with_config(config(1 << 20, 1 << 20, None), 0);
    // a RIFF/WEBP file with an ICCP chunk and a truncated VP8 chunk
    let mut w = b"RIFF".to_vec();
    let mut chunks = Vec::new();
    chunks.extend_from_slice(b"WEBP");
    chunks.extend_from_slice(b"ICCP\x04\x00\x00\x00abcd");
    chunks.extend_from_slice(b"VP8 \x02\x00\x00\x00zz");
    w.extend_from_slice(&(chunks.len() as u32).to_le_bytes());
    w.extend_from_slice(&chunks);
    let (out, name, disk) = upload(&mut e, "img.webp", w.len() as u64, &w, 64, None, false, 0);
    assert!(matches!(out, ProcessOutcome::Success { .. }));
    assert_eq!(disk, w);
    assert_eq!(body_of(e.get_cached(&name, None, 1)), w);
}
