use filestream::errors::{DownloadError, StatusClass, UploadError};
use filestream::digits::format_u64;
use filestream::object_id::{storage_path, storage_temp_path, ObjectId};
use filestream::partial::{check_read, plan_download};
use filestream::range::{resolve_range, RangeSpec};
use filestream::upload::{ChunkDecision, UploadSession};

fn span(header: &[u8], len: u64) -> Result<RangeSpec, DownloadError> {
    resolve_range(Some(header), len)
}

#[test]
fn first_byte_range() {
    let r = span(b"bytes=0-0", 100).unwrap();
    assert_eq!(r.start, 0);
    assert_eq!(r.count, 1);
    let pc = check_read(vec![7u8], r, 100).unwrap();
    assert_eq!(pc.content_length(), 1);
    assert_eq!(pc.end(), 0);
    assert_eq!(pc.content_range(), b"bytes 0-0/100".to_vec());
    assert_eq!(pc.data, vec![7u8]);
}

#[test]
fn open_ended_range_served() {
    let r = span(b"bytes=40-", 100).unwrap();
    assert_eq!(r.start, 40);
    assert_eq!(r.count, 60);
}

#[test]
fn open_ended_range_at_length_rejected() {
    assert_eq!(span(b"bytes=100-", 100), Err(DownloadError::MalformedRange));
    assert_eq!(span(b"bytes=150-", 100), Err(DownloadError::MalformedRange));
}

#[test]
fn overlong_end_clamped() {
    let r = span(b"bytes=0-999999", 100).unwrap();
    assert_eq!(r.start, 0);
    assert_eq!(r.count, 100);
    let data: Vec<u8> = (0..100u8).collect();
    let pc = check_read(data.clone(), r, 100).unwrap();
    assert_eq!(pc.data, data);
    assert_eq!(pc.content_range(), b"bytes 0-99/100".to_vec());
}

#[test]
fn malformed_headers_rejected() {
    for h in [
        &b"bites=0-1"[..],
        b"bytes=-5",
        b"bytes=5",
        b"bytes=",
        b"bytes=a-b",
        b"bytes=1-2-3",
        b"bytes=1- 2",
        b"bytes= 1-2",
        b"",
        b"by",
    ] {
        assert_eq!(span(h, 100), Err(DownloadError::MalformedRange), "{:?}", h);
    }
}

#[test]
fn start_above_end_rejected() {
    assert_eq!(span(b"bytes=3-2", 100), Err(DownloadError::MalformedRange));
}

#[test]
fn inner_range_exact() {
    let r = span(b"bytes=2-4", 10).unwrap();
    assert_eq!((r.start, r.count), (2, 3));
}

#[test]
fn huge_start_saturates_to_rejection() {
    assert_eq!(
        span(b"bytes=99999999999999999999999999-", 100),
        Err(DownloadError::MalformedRange)
    );
}

#[test]
fn huge_end_clamped() {
    let r = span(b"bytes=1-99999999999999999999999999", 100).unwrap();
    assert_eq!((r.start, r.count), (1, 99));
}

#[test]
fn whole_object_without_header() {
    let r = resolve_range(None, 5).unwrap();
    assert_eq!((r.start, r.count), (0, 5));
    let r = resolve_range(None, 0).unwrap();
    assert_eq!((r.start, r.count), (0, 0));
}

#[test]
fn missing_object_is_not_found() {
    assert_eq!(plan_download(false, 0, None), Err(DownloadError::NotFound));
    assert_eq!(
        plan_download(false, 100, Some(b"bytes=0-0")),
        Err(DownloadError::NotFound)
    );
    assert_eq!(
        plan_download(false, 7, Some(b"garbage")),
        Err(DownloadError::NotFound)
    );
    let r = plan_download(true, 100, Some(b"bytes=0-0")).unwrap();
    assert_eq!((r.start, r.count), (0, 1));
}

#[test]
fn short_read_is_inconsistent() {
    let r = span(b"bytes=0-9", 100).unwrap();
    assert!(matches!(
        check_read(vec![1, 2, 3], r, 100),
        Err(DownloadError::Inconsistent)
    ));
    assert!(matches!(
        check_read(vec![], r, 100),
        Err(DownloadError::Inconsistent)
    ));
}

#[test]
fn disjoint_ranges_tile_the_object() {
    let object: Vec<u8> = (0..10u8).collect();
    let len = object.len() as u64;
    let mut rebuilt: Vec<u8> = Vec::new();
    for h in [&b"bytes=0-2"[..], b"bytes=3-6", b"bytes=7-9"] {
        let r = span(h, len).unwrap();
        let lo = r.start as usize;
        let hi = lo + r.count as usize;
        let piece = object[lo..hi].to_vec();
        let pc = check_read(piece, r, len).unwrap();
        assert_eq!(pc.data.len() as u64, r.count);
        rebuilt.extend_from_slice(&pc.data);
    }
    assert_eq!(rebuilt, object);
}

#[test]
fn upload_accumulates_in_order() {
    let mut s = UploadSession::begin(1024);
    s.start_field(true);
    assert_eq!(s.decide_chunk(3), ChunkDecision::Persist);
    s.record_written(&[1, 2, 3]);
    assert_eq!(s.decide_chunk(2), ChunkDecision::Persist);
    s.record_written(&[4, 5]);
    assert_eq!(s.finish(), 5);
}

#[test]
fn upload_then_whole_download_round_trip() {
    let mut s = UploadSession::begin(100);
    s.start_field(true);
    let chunks: [&[u8]; 3] = [b"abc", b"de", b"fgh"];
    let mut stored: Vec<u8> = Vec::new();
    for c in chunks {
        assert_eq!(s.decide_chunk(c.len() as u64), ChunkDecision::Persist);
        stored.extend_from_slice(c);
        s.record_written(c);
    }
    let total = s.finish();
    assert_eq!(total, stored.len() as u64);
    let r = resolve_range(None, total).unwrap();
    assert_eq!((r.start, r.count), (0, total));
    let pc = check_read(stored, r, total).unwrap();
    assert_eq!(pc.data, b"abcdefgh".to_vec());
}

#[test]
fn non_data_fields_discarded() {
    let mut s = UploadSession::begin(1024);
    s.start_field(false);
    assert_eq!(s.decide_chunk(100), ChunkDecision::Discard);
    s.start_field(true);
    assert_eq!(s.decide_chunk(100), ChunkDecision::Persist);
}

#[test]
fn over_limit_chunk_aborts() {
    let mut s = UploadSession::begin(10);
    s.start_field(true);
    assert_eq!(s.decide_chunk(8), ChunkDecision::Persist);
    s.record_written(&[0, 1, 2, 3, 4, 5, 6, 7]);
    assert_eq!(s.decide_chunk(3), ChunkDecision::Abort);
    assert_eq!(s.decide_chunk(2), ChunkDecision::Persist);
}

#[test]
fn failed_upload_outcomes_distinct() {
    let s = UploadSession::begin(10);
    assert_eq!(s.abort(true), UploadError::UploadInterrupted);
    let s = UploadSession::begin(10);
    assert_eq!(s.abort(false), UploadError::CleanupFailed);
}

#[test]
fn error_status_classes() {
    assert_eq!(
        UploadError::StorageUnavailable.status_class(),
        StatusClass::ServerError
    );
    assert_eq!(
        UploadError::UploadInterrupted.status_class(),
        StatusClass::TransferFailed
    );
    assert_eq!(
        UploadError::CleanupFailed.status_class(),
        StatusClass::ServerError
    );
    assert_eq!(DownloadError::NotFound.status_class(), StatusClass::NotFound);
    assert_eq!(
        DownloadError::MalformedRange.status_class(),
        StatusClass::NotSatisfiable
    );
    assert_eq!(
        DownloadError::Inconsistent.status_class(),
        StatusClass::ServerError
    );
}

#[test]
fn error_messages_stable() {
    assert_eq!(UploadError::CleanupFailed.message(), "upload interrupted and cleanup failed, storage unclean");
    assert_eq!(DownloadError::NotFound.message(), "file not found");
}

#[test]
fn decimal_formatting_exact() {
    assert_eq!(format_u64(0), b"0".to_vec());
    assert_eq!(format_u64(7), b"7".to_vec());
    assert_eq!(format_u64(1234567890), b"1234567890".to_vec());
    assert_eq!(format_u64(u64::MAX), b"18446744073709551615".to_vec());
}

#[test]
fn canonical_form_of_known_bytes() {
    let bytes: Vec<u8> = (0..16u8).collect();
    let id = ObjectId::from_bytes(bytes).unwrap();
    assert_eq!(
        id.canonical(),
        b"00010203-0405-0607-0809-0a0b0c0d0e0f".to_vec()
    );
}

#[test]
fn parse_roundtrips_canonical_form() {
    let bytes: Vec<u8> = vec![
        0xa1, 0xa2, 0xa3, 0xa4, 0xb1, 0xb2, 0xc1, 0xc2, 0xd1, 0xd2, 0xd3, 0xd4, 0xd5, 0xd6, 0xd7,
        0xd8,
    ];
    let id = ObjectId::from_bytes(bytes.clone()).unwrap();
    let text = id.canonical();
    assert_eq!(text, b"a1a2a3a4-b1b2-c1c2-d1d2-d3d4d5d6d7d8".to_vec());
    let back = ObjectId::parse(&text).unwrap();
    assert_eq!(back.raw_bytes(), &bytes[..]);
}

#[test]
fn parse_rejects_non_canonical() {
    for s in [
        &b""[..],
        b"not-an-id",
        b"00010203-0405-0607-0809-0a0b0c0d0e0", // 35 bytes
        b"00010203-0405-0607-0809-0a0b0c0d0e0ff", // 37 bytes
        b"00010203_0405-0607-0809-0a0b0c0d0e0f", // wrong separator
        b"00010203-0405-0607-0809-0A0B0C0D0E0F", // uppercase
        b"0001020g-0405-0607-0809-0a0b0c0d0e0f", // non-hex digit
        b"../../../../etc/passwd/elsewhere/000",
        b"00010203/0405-0607-0809-0a0b0c0d0e0f",
    ] {
        assert!(ObjectId::parse(s).is_none(), "{:?}", s);
    }
}

#[test]
fn from_bytes_needs_sixteen() {
    assert!(ObjectId::from_bytes(vec![0u8; 15]).is_none());
    assert!(ObjectId::from_bytes(vec![0u8; 17]).is_none());
    assert!(ObjectId::from_bytes(vec![0u8; 16]).is_some());
}

#[test]
fn generated_ids_are_well_formed() {
    let a = ObjectId::generate();
    let b = ObjectId::generate();
    let ta = a.canonical();
    let tb = b.canonical();
    assert_eq!(ta.len(), 36);
    assert!(ObjectId::parse(&ta).is_some());
    assert!(ObjectId::parse(&tb).is_some());
    assert_ne!(ta, tb);
}

#[test]
fn storage_path_convention() {
    let bytes: Vec<u8> = (0..16u8).collect();
    let id = ObjectId::from_bytes(bytes).unwrap();
    assert_eq!(
        storage_path(b"/var/objects", &id),
        b"/var/objects/00010203-0405-0607-0809-0a0b0c0d0e0f".to_vec()
    );
    assert_eq!(
        storage_temp_path(b"/var/objects", &id),
        b"/var/objects/00010203-0405-0607-0809-0a0b0c0d0e0f.part".to_vec()
    );
}

#[test]
fn temp_name_is_never_a_valid_identifier() {
    let bytes: Vec<u8> = (0..16u8).collect();
    let id = ObjectId::from_bytes(bytes).unwrap();
    let temp = storage_temp_path(b"", &id);
    assert!(ObjectId::parse(&temp[1..]).is_none());
}

#[test]
fn content_range_framing() {
    let r = span(b"bytes=40-", 100).unwrap();
    let data = vec![0u8; 60];
    let pc = check_read(data, r, 100).unwrap();
    assert_eq!(pc.content_range(), b"bytes 40-99/100".to_vec());
    assert_eq!(pc.content_length(), 60);
    assert_eq!(pc.end(), 99);
}
