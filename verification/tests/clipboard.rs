use cachybridge::clipboard::{
    content_size_limit, decode_chunk, decode_start, encode_chunk, encode_start,
    is_direct_file_offer, receive_record, record_body, record_kind, records_for_content,
    random_transfer_id, validate_content, validate_mime, ClipboardContent, ClipboardError,
    DIRECT_FILE_START_KIND, MAX_CHUNK_BYTES, MAX_CLIPBOARD_BYTES, MAX_FILE_TRANSFER_BYTES,
    RECORD_PREFIX_LEN,
};
use cachybridge::file_bundle::{decode_file_bundle, encode_file_bundle, FileEntry};
use cachybridge::file_paths::{
    file_uri_to_path, join_path, path_lies_under, paths_from_uri_list, percent_decode,
    percent_encode_path, safe_file_name, unique_destination_path, uri_list, validate_file_name,
};
use cachybridge::file_transfer::{
    decode_file_chunk, decode_file_decision, decode_file_start, encode_file_chunk,
    encode_file_decision, encode_file_finish, encode_file_start, encode_file_start_with_kind,
    file_selection_from_paths, is_received_file_selection, FileSelection, LocalFile, PathInfo,
};

const FILE_TRANSFER_MIME: &str = "application/x-cachybridge-file-list";

fn content(mime_type: &str, bytes: &[u8]) -> ClipboardContent {
    ClipboardContent {
        mime_type: mime_type.to_owned(),
        bytes: bytes.to_vec(),
    }
}

fn local_file(name: &str, size: u64, modified_nanos: u128) -> LocalFile {
    LocalFile {
        name: name.to_owned(),
        path: format!("/tmp/{name}"),
        size,
        modified_nanos,
    }
}

#[test]
fn text_record_round_trips() {
    let source = content("text/plain;charset=utf-8", b"copy me");
    let mut incoming = None;
    assert_eq!(
        receive_record(&encode_start(7, &source).unwrap(), &mut incoming).unwrap(),
        None
    );
    assert_eq!(
        receive_record(&encode_chunk(7, 0, &source.bytes).unwrap(), &mut incoming).unwrap(),
        Some(source)
    );
}

#[test]
fn png_transfer_reassembles_across_records() {
    let source = content("image/png", &vec![7_u8; MAX_CHUNK_BYTES + 11]);
    let mut incoming = None;
    assert_eq!(
        receive_record(&encode_start(4, &source).unwrap(), &mut incoming).unwrap(),
        None
    );
    assert_eq!(
        receive_record(
            &encode_chunk(4, 0, &source.bytes[..MAX_CHUNK_BYTES]).unwrap(),
            &mut incoming
        )
        .unwrap(),
        None
    );
    assert_eq!(
        receive_record(
            &encode_chunk(4, MAX_CHUNK_BYTES, &source.bytes[MAX_CHUNK_BYTES..]).unwrap(),
            &mut incoming
        )
        .unwrap(),
        Some(source)
    );
}

#[test]
fn unsafe_types_and_malformed_chunks_fail_closed() {
    assert!(matches!(
        encode_start(1, &content("text/uri-list", b"file:///private")),
        Err(ClipboardError::UnsupportedMime)
    ));
    assert!(matches!(
        encode_start(1, &content("text/plain", &[0xff])),
        Err(ClipboardError::NonText)
    ));
    assert!(matches!(
        decode_chunk(&[0_u8; 12]),
        Err(ClipboardError::InvalidRecord)
    ));
}

#[test]
fn file_bundle_round_trips_multiple_regular_files() {
    let files = vec![
        FileEntry {
            name: "notes.txt".to_owned(),
            bytes: b"hello".to_vec(),
        },
        FileEntry {
            name: "diagram.png".to_owned(),
            bytes: vec![1, 2, 3, 4],
        },
    ];
    let bundle = encode_file_bundle(&files).unwrap();
    assert_eq!(decode_file_bundle(&bundle).unwrap(), files);
}

#[test]
fn file_transfer_start_allows_the_separate_file_size_limit() {
    let source = ClipboardContent {
        mime_type: FILE_TRANSFER_MIME.to_owned(),
        bytes: vec![0_u8; MAX_CLIPBOARD_BYTES as usize + 1],
    };
    let start = encode_start(9, &source).unwrap();
    let transfer = decode_start(&start[RECORD_PREFIX_LEN + 1..]).unwrap();
    assert_eq!(transfer.total_bytes, MAX_CLIPBOARD_BYTES as usize + 1);
    assert_eq!(transfer.mime_type, FILE_TRANSFER_MIME);
}

#[test]
fn streaming_file_manifest_and_chunks_round_trip() {
    let selection = FileSelection {
        files: vec![local_file("movie.mkv", 32_768, 1)],
        total_bytes: 32_768,
    };
    let start = encode_file_start(42, &selection).unwrap();
    assert_eq!(
        decode_file_start(&start[RECORD_PREFIX_LEN + 1..]).unwrap(),
        (42, vec![("movie.mkv".to_owned(), 32_768)], 32_768)
    );
    let chunk = encode_file_chunk(42, 0, 16_384, &[7; 64]).unwrap();
    assert_eq!(
        decode_file_chunk(&chunk[RECORD_PREFIX_LEN + 1..]).unwrap(),
        (42, 0, 16_384, &[7; 64][..])
    );
}

#[test]
fn file_transfer_approval_is_bound_to_its_offer() {
    let accepted = encode_file_decision(42, true);
    let rejected = encode_file_decision(42, false);
    assert_eq!(decode_file_decision(&accepted, 42).unwrap(), Some(true));
    assert_eq!(decode_file_decision(&rejected, 42).unwrap(), Some(false));
    assert!(matches!(
        decode_file_decision(&accepted, 7),
        Err(ClipboardError::InvalidRecord)
    ));
}

#[test]
fn direct_file_offer_is_distinct_from_clipboard_sync() {
    let selection = FileSelection {
        files: vec![local_file("report.pdf", 1, 0)],
        total_bytes: 1,
    };
    let direct = encode_file_start_with_kind(9, &selection, DIRECT_FILE_START_KIND).unwrap();
    let regular = encode_file_start(9, &selection).unwrap();
    assert!(is_direct_file_offer(&direct));
    assert!(!is_direct_file_offer(&regular));
}

#[test]
fn file_bundle_rejects_path_traversal_and_duplicate_names() {
    assert!(matches!(
        encode_file_bundle(&[FileEntry {
            name: "../escape".to_owned(),
            bytes: vec![1],
        }]),
        Err(ClipboardError::InvalidFileBundle)
    ));
    let mut malformed = b"CBFL1".to_vec();
    malformed.extend_from_slice(&2_u16.to_be_bytes());
    for bytes in [b"first".as_slice(), b"second".as_slice()] {
        malformed.extend_from_slice(&8_u16.to_be_bytes());
        malformed.extend_from_slice(&(bytes.len() as u64).to_be_bytes());
        malformed.extend_from_slice(b"same.txt");
        malformed.extend_from_slice(bytes);
    }
    assert!(matches!(
        decode_file_bundle(&malformed),
        Err(ClipboardError::InvalidFileBundle)
    ));
}

#[test]
fn file_uris_decode_only_local_paths() {
    assert_eq!(
        file_uri_to_path("file:///tmp/a%20file.txt").unwrap(),
        "/tmp/a file.txt"
    );
    assert!(matches!(
        file_uri_to_path("https://example.com/file.txt"),
        Err(ClipboardError::NoRegularFiles)
    ));
}

#[test]
fn records_have_their_exact_bytes() {
    let source = content("text/plain", b"hi");
    assert_eq!(
        encode_start(1, &source).unwrap(),
        b"CBCL2\x01\0\0\0\0\0\0\0\x01\x0a\0\0\0\x02text/plain".to_vec()
    );
    assert_eq!(
        encode_chunk(1, 2, b"hi").unwrap(),
        b"CBCL2\x02\0\0\0\0\0\0\0\x01\0\0\0\x02hi".to_vec()
    );
    assert_eq!(encode_file_finish(258), b"CBCL2\x05\0\0\0\0\0\0\x01\x02".to_vec());
    assert_eq!(encode_file_decision(1, true), b"CBCL2\x06\0\0\0\0\0\0\0\x01".to_vec());
    assert_eq!(encode_file_decision(1, false), b"CBCL2\x07\0\0\0\0\0\0\0\x01".to_vec());
    assert_eq!(record_kind(b"CBCL2\x04rest"), Some(4));
    assert_eq!(record_kind(b"CBCL2"), None);
    assert_eq!(record_kind(b"CBCL1\x04"), None);
    assert_eq!(record_body(b"CBCL2\x04rest"), b"rest");
}

#[test]
fn content_crosses_whole_or_not_at_all() {
    let source = content("image/png", &(0..40_000_u32).map(|n| n as u8).collect::<Vec<u8>>());
    let records = records_for_content(3, &source).unwrap();
    assert_eq!(records.len(), 4);
    let mut incoming = None;
    let mut seen = Vec::new();
    for record in &records {
        if let Some(done) = receive_record(record, &mut incoming).unwrap() {
            seen.push(done);
        }
    }
    assert_eq!(seen, vec![source]);
    assert_eq!(incoming, None);
    let mut broken = None;
    receive_record(&records[0], &mut broken).unwrap();
    assert_eq!(receive_record(&records[2], &mut broken), Err(ClipboardError::InvalidRecord));
    assert_eq!(receive_record(&records[1], &mut None), Err(ClipboardError::InvalidRecord));
    assert_eq!(receive_record(b"junk", &mut None), Err(ClipboardError::InvalidRecord));
}

#[test]
fn content_is_bounded_by_its_type() {
    assert_eq!(content_size_limit("text/plain"), MAX_CLIPBOARD_BYTES);
    assert_eq!(content_size_limit(FILE_TRANSFER_MIME), MAX_FILE_TRANSFER_BYTES);
    assert_eq!(validate_mime("image/png"), Ok(()));
    assert_eq!(validate_mime("image/gif"), Err(ClipboardError::UnsupportedMime));
    assert_eq!(
        validate_content(&content("text/plain", &vec![b'a'; MAX_CLIPBOARD_BYTES as usize + 1])),
        Err(ClipboardError::TooLarge)
    );
    assert_eq!(validate_content(&content("text/plain", b"")), Ok(()));
    assert_eq!(
        encode_chunk(1, 0, &vec![0; MAX_CHUNK_BYTES + 1]),
        Err(ClipboardError::InvalidRecord)
    );
    assert_ne!(random_transfer_id(), random_transfer_id());
}

#[test]
fn a_bundle_has_its_exact_bytes() {
    let files = [FileEntry { name: "a.b".to_owned(), bytes: vec![9] }];
    let bundle = encode_file_bundle(&files).unwrap();
    assert_eq!(bundle, b"CBFL1\0\x01\0\x03\0\0\0\0\0\0\0\x01a.b\x09".to_vec());
    for cut in 0..bundle.len() {
        assert_eq!(decode_file_bundle(&bundle[..cut]), Err(ClipboardError::InvalidFileBundle));
    }
    let mut longer = bundle.clone();
    longer.push(0);
    assert_eq!(decode_file_bundle(&longer), Err(ClipboardError::InvalidFileBundle));
    assert_eq!(encode_file_bundle(&decode_file_bundle(&bundle).unwrap()).unwrap(), bundle);
}

#[test]
fn content_may_be_cut_anywhere() {
    let source = content("text/plain;charset=utf-8", b"abcdefg");
    for sizes in [vec![7], vec![1, 6], vec![3, 3, 1], vec![1; 7]] {
        let mut incoming = None;
        receive_record(&encode_start(3, &source).unwrap(), &mut incoming).unwrap();
        let mut offset = 0;
        let mut found = None;
        for size in sizes {
            let record = encode_chunk(3, offset, &source.bytes[offset..offset + size]).unwrap();
            assert_eq!(found, None);
            found = receive_record(&record, &mut incoming).unwrap();
            offset += size;
        }
        assert_eq!(found, Some(source.clone()));
        assert_eq!(incoming, None);
    }
}

#[test]
fn file_names_must_be_plain() {
    assert_eq!(validate_file_name("notes.txt"), Ok(()));
    for name in ["", ".", "..", "a/b", "a\0b"] {
        assert_eq!(validate_file_name(name), Err(ClipboardError::InvalidFileBundle));
    }
    assert_eq!(safe_file_name("/tmp/notes.txt"), Ok("notes.txt".to_owned()));
    assert!(safe_file_name("/").is_err());
    assert_eq!(join_path("/tmp", "x"), "/tmp/x");
    assert!(path_lies_under("/home/u/in/x", "/home/u/in"));
    assert!(!path_lies_under("/home/u/inn/x", "/home/u/in"));
}

#[test]
fn a_taken_name_gets_a_number() {
    assert_eq!(unique_destination_path("a.txt", &[]), Ok("a.txt".to_owned()));
    assert_eq!(
        unique_destination_path("a.txt", &["a.txt".to_owned()]),
        Ok("a (2).txt".to_owned())
    );
    assert_eq!(
        unique_destination_path("a.txt", &["a.txt".to_owned(), "a (2).txt".to_owned()]),
        Ok("a (3).txt".to_owned())
    );
    assert_eq!(
        unique_destination_path("README", &["README".to_owned()]),
        Ok("README (2)".to_owned())
    );
}

#[test]
fn paths_survive_percent_encoding() {
    for path in ["/tmp/a file.txt", "/tmp/100%", "/tmp/caf\u{e9}", "/a;b?c#d"] {
        let encoded = percent_encode_path(path);
        assert!(encoded.is_ascii());
        assert_eq!(percent_decode(&encoded), Ok(path.to_owned()));
        assert_eq!(file_uri_to_path(&format!("file://{encoded}")), Ok(path.to_owned()));
    }
    assert_eq!(percent_encode_path("/tmp/a file.txt"), "/tmp/a%20file.txt");
    assert!(percent_decode("%zz").is_err());
    assert!(percent_decode("%2").is_err());
    assert!(percent_decode("%ff").is_err());
    let paths = vec!["/tmp/a b".to_owned(), "/tmp/c".to_owned()];
    let listing = uri_list(&paths);
    assert_eq!(paths_from_uri_list(listing.as_bytes()), Ok(paths));
    assert_eq!(
        paths_from_uri_list(b"# comment\r\nfile:///tmp/x\r\n"),
        Ok(vec!["/tmp/x".to_owned()])
    );
}

#[test]
fn selections_hold_regular_files_only() {
    let selection = file_selection_from_paths(&vec![
        PathInfo { path: "/tmp/a".to_owned(), regular: Some((3, 10)) },
        PathInfo { path: "/tmp/b".to_owned(), regular: Some((4, 11)) },
    ])
    .unwrap();
    assert_eq!(selection.total_bytes, 7);
    assert_eq!(selection.files, vec![local_file("a", 3, 10), local_file("b", 4, 11)]);
    assert!(is_received_file_selection(&selection, "/tmp"));
    assert!(!is_received_file_selection(&selection, "/var"));
    assert_eq!(
        file_selection_from_paths(&Vec::new()),
        Err(ClipboardError::NoRegularFiles)
    );
}

#[test]
fn offers_with_the_same_content_keep_their_identity() {
    let selection = FileSelection {
        files: vec![local_file("a", 3, 0), local_file("b", 4, 0)],
        total_bytes: 7,
    };
    let start = encode_file_start(1, &selection).unwrap();
    assert_eq!(
        decode_file_start(&start[RECORD_PREFIX_LEN + 1..]).unwrap(),
        (1, vec![("a".to_owned(), 3), ("b".to_owned(), 4)], 7)
    );
    assert_ne!(start, encode_file_start(2, &selection).unwrap());
    assert_eq!(decode_file_decision(&start, 1), Ok(None));
    assert_eq!(
        decode_file_start(&start[RECORD_PREFIX_LEN + 1..start.len() - 1]),
        Err(ClipboardError::InvalidRecord)
    );
}
