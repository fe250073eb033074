use cachybridge::clipboard::{
    ClipboardContent, ClipboardError, DIRECT_FILE_START_KIND, FILE_START_KIND, MAX_CHUNK_BYTES,
};
use cachybridge::clipboard_sync::{
    approval_message, bundle_name, bundled_files_directory, classify_record, command_start_error, content_type,
    file_poll_of, human_size, offers_files, read_content, received_files_directory, staging_name,
    transfer_outcome, transfer_status, update_received_baseline, write_content, ClipboardSync,
    ContentPoll, FilePoll, FileTransferOutcome, ReceivedClipboard, RecordClass, SyncStep,
    TransferStatus, WritePlan,
};
use cachybridge::file_bundle::{encode_file_bundle, FileEntry};
use cachybridge::file_session::{
    accept_offer, decline_offer, receive_file_record, wait_for_file_approval, ApprovalStep,
    FileAction, FileSender, SenderStep, FILE_APPROVAL_TIMEOUT_MS,
};
use cachybridge::file_transfer::{
    decode_file_decision, encode_file_decision, encode_file_finish, FileSelection, LocalFile,
};

fn selection(sizes: &[(&str, u64)]) -> FileSelection {
    FileSelection {
        files: sizes
            .iter()
            .map(|(name, size)| LocalFile {
                name: name.to_string(),
                path: format!("/tmp/{name}"),
                size: *size,
                modified_nanos: 1,
            })
            .collect(),
        total_bytes: sizes.iter().map(|(_, size)| size).sum(),
    }
}

fn text(words: &str) -> ClipboardContent {
    ClipboardContent {
        mime_type: "text/plain".to_owned(),
        bytes: words.as_bytes().to_vec(),
    }
}

#[test]
fn files_arrive_whole_and_are_published_once() {
    let contents: [Vec<u8>; 2] = [vec![1; MAX_CHUNK_BYTES + 5], vec![2; 3]];
    let selection = selection(&[("a", MAX_CHUNK_BYTES as u64 + 5), ("b", 3)]);
    let (mut sender, start) = FileSender::begin(&selection, 77, FILE_START_KIND).unwrap();
    let mut incoming = None;
    let offer = match receive_file_record(&start, &mut incoming).unwrap() {
        FileAction::Ask(offer) => offer,
        other => panic!("{other:?}"),
    };
    assert_eq!(offer.id, 77);
    let (decision, transfer) = accept_offer(offer);
    assert_eq!(decode_file_decision(&decision, 77), Ok(Some(true)));
    incoming = Some(transfer);
    assert_eq!(sender.answered(None, 0), Ok(ApprovalStep::Wait));
    assert_eq!(sender.answered(Some(&decision), 1), Ok(ApprovalStep::Approved));
    let mut written: [Vec<u8>; 2] = [Vec::new(), Vec::new()];
    for (at, content) in contents.iter().enumerate() {
        for piece in content.chunks(MAX_CHUNK_BYTES) {
            let record = sender.chunk(piece).unwrap();
            match receive_file_record(&record, &mut incoming).unwrap() {
                FileAction::Write { index, bytes, completes } => {
                    assert_eq!(index, at);
                    written[index].extend_from_slice(&bytes);
                    assert_eq!(completes, written[index].len() == content.len());
                }
                other => panic!("{other:?}"),
            }
        }
        match sender.end_of_file().unwrap() {
            SenderStep::Open(index) => assert_eq!((at, index), (0, 1)),
            SenderStep::Finish(record) => {
                assert_eq!(at, 1);
                assert_eq!(record, encode_file_finish(77));
                match receive_file_record(&record, &mut incoming).unwrap() {
                    FileAction::Publish(done) => assert_eq!(done.received_bytes, done.total_bytes),
                    other => panic!("{other:?}"),
                }
            }
        }
    }
    assert_eq!(sender.transferred(), MAX_CHUNK_BYTES as u64 + 8);
    assert_eq!(written, contents);
    assert_eq!(incoming, None);
}

#[test]
fn a_transfer_out_of_step_is_refused() {
    let (mut sender, start) =
        FileSender::begin(&selection(&[("a", 4)]), 1, DIRECT_FILE_START_KIND).unwrap();
    let mut incoming = None;
    let offer = match receive_file_record(&start, &mut incoming).unwrap() {
        FileAction::Ask(offer) => offer,
        other => panic!("{other:?}"),
    };
    assert_eq!(decline_offer(&offer), encode_file_decision(1, false));
    incoming = Some(accept_offer(offer).1);
    assert_eq!(
        receive_file_record(&encode_file_finish(1), &mut incoming),
        Err(ClipboardError::InvalidRecord)
    );
    let offered = || FileSender::begin(&selection(&[("a", 4)]), 1, DIRECT_FILE_START_KIND).unwrap().0;
    assert_eq!(
        offered().answered(Some(&encode_file_decision(2, true)), 0),
        Err(ClipboardError::InvalidRecord)
    );
    assert_eq!(
        offered().answered(Some(&encode_file_decision(1, false)), 0),
        Ok(ApprovalStep::Declined)
    );
    assert_eq!(
        sender.answered(Some(&encode_file_decision(1, true)), 0),
        Ok(ApprovalStep::Approved)
    );
    assert!(sender.end_of_file().is_err());
    assert!(sender.chunk(&[]).is_err());
    let first = sender.chunk(&[9; 2]).unwrap();
    assert_eq!(receive_file_record(&first, &mut None), Err(ClipboardError::InvalidRecord));
    sender.chunk(&[9; 3]).unwrap();
    assert_eq!(
        sender.end_of_file(),
        Err(ClipboardError::Command("a changed while it was being transferred".to_owned()))
    );
}

#[test]
fn approval_is_awaited_until_it_comes_or_time_runs_out() {
    assert_eq!(
        wait_for_file_approval(5, Some(&encode_file_decision(5, true)), 0),
        Ok(ApprovalStep::Approved)
    );
    assert_eq!(
        wait_for_file_approval(5, Some(&encode_file_decision(5, false)), 0),
        Ok(ApprovalStep::Declined)
    );
    assert_eq!(
        wait_for_file_approval(5, Some(&encode_file_decision(6, true)), 0),
        Err(ClipboardError::InvalidRecord)
    );
    assert_eq!(wait_for_file_approval(5, None, 0), Ok(ApprovalStep::Wait));
    assert!(wait_for_file_approval(5, None, FILE_APPROVAL_TIMEOUT_MS).is_err());
    assert_eq!(transfer_outcome(true), FileTransferOutcome::Completed);
    assert_eq!(transfer_outcome(false), FileTransferOutcome::Declined);
}

#[test]
fn records_are_sorted_by_what_they_carry() {
    assert_eq!(classify_record(b"CBCL2\x01"), RecordClass::Content);
    assert_eq!(classify_record(b"CBCL2\x02"), RecordClass::Content);
    assert_eq!(classify_record(b"CBCL2\x03"), RecordClass::Files);
    assert_eq!(classify_record(b"CBCL2\x04"), RecordClass::Files);
    assert_eq!(classify_record(b"CBCL2\x05"), RecordClass::Files);
    assert_eq!(classify_record(b"CBCL2\x06"), RecordClass::Decision);
    assert_eq!(classify_record(b"CBCL2\x07"), RecordClass::Decision);
    assert_eq!(classify_record(b"CBCL2\x08"), RecordClass::Content);
}

#[test]
fn a_received_value_is_not_sent_back() {
    let mut sync = ClipboardSync::new();
    sync.received(ReceivedClipboard::Content(text("hello")));
    assert!(matches!(sync.content_poll(ContentPoll::Content(text("hello"))), SyncStep::Nothing));
    match sync.content_poll(ContentPoll::Content(text("new"))) {
        SyncStep::Send(content) => assert_eq!(content, text("new")),
        _ => panic!("a new value was not sent"),
    }
    assert!(matches!(sync.content_poll(ContentPoll::Content(text("new"))), SyncStep::Nothing));
    assert!(matches!(sync.content_poll(ContentPoll::TooLarge), SyncStep::ReportTooLarge));
    assert!(matches!(sync.content_poll(ContentPoll::TooLarge), SyncStep::Nothing));
    assert!(matches!(sync.file_poll(FilePoll::Nothing), SyncStep::LookForContent));
    let mut value = None;
    let mut files = Some(selection(&[("a", 1)]));
    update_received_baseline(ReceivedClipboard::Content(text("x")), &mut value, &mut files);
    assert_eq!(value, Some(text("x")));
    assert_eq!(files, None);
}

#[test]
fn offered_types_choose_what_is_read() {
    assert_eq!(
        content_type(b"TEXT\ntext/plain;charset=utf-8\nimage/png\n".to_vec()),
        content_type(b"image/png\ntext/plain;charset=utf-8\n".to_vec())
    );
    assert_eq!(content_type(b"image/png\n".to_vec()), Ok(Some("image/png")));
    assert_eq!(content_type(b"application/x-other\n".to_vec()), Ok(None));
    assert!(offers_files(b"text/uri-list\ntext/plain\n"));
    assert!(!offers_files(b"text/plain\n"));
    assert_eq!(read_content("text/plain", b"hi".to_vec()), Ok(text("hi")));
    assert_eq!(read_content("text/plain", vec![0xff]), Err(ClipboardError::NonText));
    match file_poll_of(Err(ClipboardError::TooLarge)) {
        FilePoll::TooLarge => {}
        _ => panic!("an oversized selection was not reported"),
    }
    match file_poll_of(Err(ClipboardError::NoRegularFiles)) {
        FilePoll::Nothing => {}
        _ => panic!("an empty selection was not ignored"),
    }
}

#[test]
fn written_content_is_bytes_or_files() {
    match write_content(text("hi")).unwrap() {
        WritePlan::Bytes { mime_type, bytes } => {
            assert_eq!((mime_type.as_str(), bytes), ("text/plain", b"hi".to_vec()));
        }
        WritePlan::Files(_) => panic!("text was taken for files"),
    }
    let files = vec![FileEntry { name: "a".to_owned(), bytes: vec![1] }];
    let bundle = ClipboardContent {
        mime_type: "application/x-cachybridge-file-list".to_owned(),
        bytes: encode_file_bundle(&files).unwrap(),
    };
    match write_content(bundle).unwrap() {
        WritePlan::Files(found) => assert_eq!(found, files),
        WritePlan::Bytes { .. } => panic!("files were taken for text"),
    }
}

#[test]
fn sizes_are_written_as_binary_floating_point_would() {
    let mib = 1_048_576_u64;
    let gib = 1_073_741_824_u64;
    let mut sizes = vec![0, 1, 999, 1_023, 1_024, mib - 1, mib, gib - 1, gib, 1 << 53, u64::MAX];
    for step in 0..2_000_u64 {
        sizes.push(u64::MAX - step * 1_023);
        sizes.push((1 << 53) + step);
        sizes.push((1 << 62) + step * (gib / 20 + 257));
        sizes.push(mib + step * 7_919);
        sizes.push(gib + step * 7_919_777);
        sizes.push(mib + step * (mib / 20));
        sizes.push(gib + step * (gib / 20));
        sizes.push(mib / 20 * (2 * step + 1));
        sizes.push(gib / 20 * (2 * step + 1));
    }
    for bytes in sizes {
        let expected = if bytes >= gib {
            format!("{:.1} GiB", bytes as f64 / gib as f64)
        } else if bytes >= mib {
            format!("{:.1} MiB", bytes as f64 / mib as f64)
        } else {
            format!("{bytes} bytes")
        };
        assert_eq!(human_size(bytes), expected, "{bytes}");
    }
}

#[test]
fn transfers_are_described_to_the_user() {
    let message = approval_message(&vec![("a.txt".to_owned(), 1_572_864)], 1_572_864);
    assert!(message.contains("a.txt"));
    assert!(message.contains("1.5 MiB"));
    let status = transfer_status(&TransferStatus {
        direction: "send".to_owned(),
        state: "active".to_owned(),
        name: "a\nb".to_owned(),
        completed: 1,
        total: 2,
        speed: 3,
        destination: None,
    });
    assert!(status.lines().all(|line| line.contains('=')));
    assert_ne!(staging_name(), staging_name());
    assert_eq!(bundle_name().len(), 24);
}

#[test]
fn directories_come_from_the_desktop_or_the_home() {
    assert_eq!(
        received_files_directory(Some(b"/home/u/Downloads\n".to_vec()), None).unwrap(),
        "/home/u/Downloads/CachyBridge"
    );
    assert!(received_files_directory(None, Some("/home/u".to_owned()))
        .unwrap()
        .starts_with("/home/u/"));
    assert!(received_files_directory(None, None).is_err());
    assert!(bundled_files_directory(Some("/data".to_owned()), None)
        .unwrap()
        .starts_with("/data/"));
    assert!(bundled_files_directory(None, None).is_err());
    assert_eq!(command_start_error(true, "x".to_owned()), ClipboardError::MissingTool);
    assert!(matches!(
        command_start_error(false, "x".to_owned()),
        ClipboardError::Command(_) | ClipboardError::Io(_)
    ));
}
