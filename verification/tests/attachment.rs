use base64::Engine as _;
use herdr::attachment::{
    decode_payload, file_attachments_capability, plan_create, respond, sniff_image_extension,
    AttachmentError, CreatePlan, ATTACHMENT_TTL_SECS, FREE_SPACE_MARGIN_BYTES,
    MAX_ATTACHMENT_BYTES, MAX_UPLOAD_BYTES, MAX_UPLOAD_ID_CHARS, SNIFFED_BYTES,
};
use herdr::attachment_name::{
    sanitize_name, FinalName, MAX_SAFE_NAME_BYTES, MAX_SAFE_NAME_CHARS,
};
use herdr::connection::MAX_INITIAL_REQUEST_BYTES;
use herdr::schema::{
    AttachmentAppendParams, AttachmentBeginParams, AttachmentCommitParams,
    AttachmentCreateParams, Response, ResponseResult,
};
use herdr::scratch::{
    expires_at, partial_name, record_name, scratch_dir_under, sweeps, sweeps_dir,
    check_scratch_dir, FileOutcome, FileTime, PlaceAction, Placement, Reservation,
    ReserveAction, ScratchFacts, SweepTarget, SweptEntry,
};
use herdr::upload::{
    check_append, check_begin, check_commit, plan_append, plan_begin, plan_commit,
    validated_upload_id, PartialRead, RecordRead, UploadRecord,
};
use std::collections::BTreeMap;

fn encode(bytes: &[u8]) -> String {
    base64::engine::general_purpose::STANDARD.encode(bytes)
}

fn photo(bytes_b64: &str) -> AttachmentCreateParams {
    AttachmentCreateParams {
        bytes_b64: bytes_b64.to_string(),
        name: None,
    }
}

fn named(bytes_b64: &str, name: &str) -> AttachmentCreateParams {
    AttachmentCreateParams {
        bytes_b64: bytes_b64.to_string(),
        name: Some(name.to_string()),
    }
}

fn png_bytes() -> Vec<u8> {
    let mut bytes = vec![0x89, b'P', b'N', b'G', 0x0D, 0x0A, 0x1A, 0x0A];
    bytes.extend_from_slice(b"herdr-test-image-payload");
    bytes
}

fn jpeg_bytes() -> Vec<u8> {
    let mut bytes = vec![0xFF, 0xD8, 0xFF, 0xE0];
    bytes.extend_from_slice(b"herdr-test-image-payload");
    bytes
}

fn webp_bytes() -> Vec<u8> {
    let mut bytes = b"RIFF".to_vec();
    bytes.extend_from_slice(&[0x24, 0x00, 0x00, 0x00]);
    bytes.extend_from_slice(b"WEBP");
    bytes.extend_from_slice(b"herdr-test-image-payload");
    bytes
}

/// A scratch directory in memory, with the records of its uploads.
#[derive(Default)]
struct Scratch {
    files: BTreeMap<String, Vec<u8>>,
    records: BTreeMap<String, UploadRecord>,
    seed: u128,
}

impl Scratch {
    fn reserve(&mut self, name: &str) -> FileOutcome {
        if self.files.contains_key(name) {
            return FileOutcome::Taken("exists".to_string());
        }
        self.files.insert(name.to_string(), Vec::new());
        FileOutcome::Done
    }

    /// Place bytes, or a partial that is already there, under a final name.
    fn place(&mut self, name: FinalName, bytes: &[u8], partial: Option<&str>) -> Option<String> {
        let mut placement = Placement::begin(name);
        let mut outcome = self.reserve(&placement.basename());
        loop {
            let (basename, staged) = (placement.basename(), placement.staged_name());
            let step = placement.step(outcome);
            if step.remove_staged {
                self.files.remove(&staged);
            }
            if step.remove_reservation {
                self.files.remove(&basename);
            }
            outcome = match step.action {
                PlaceAction::Reserve => {
                    let next = placement.basename();
                    self.reserve(&next)
                }
                PlaceAction::Stage => match partial {
                    Some(partial) => {
                        let content = self.files.remove(partial).unwrap();
                        self.files.insert(staged, content);
                        FileOutcome::Done
                    }
                    None => {
                        self.files.insert(staged, bytes.to_vec());
                        FileOutcome::Done
                    }
                },
                PlaceAction::Rename => {
                    let content = self.files.remove(&staged).unwrap();
                    self.files.insert(basename, content);
                    FileOutcome::Done
                }
                PlaceAction::Placed => return Some(basename),
                PlaceAction::Fail(_) => return None,
            };
        }
    }

    fn next_seed(&mut self) -> u128 {
        self.seed += 1;
        self.seed
    }

    fn create(&mut self, params: &AttachmentCreateParams) -> Result<String, AttachmentError> {
        let CreatePlan {
            bytes,
            safe,
            sniffed,
        } = plan_create(params)?;
        let name = FinalName::new(self.next_seed(), safe.as_deref(), sniffed);
        Ok(self.place(name, &bytes, None).unwrap())
    }

    fn begin_with(
        &mut self,
        name: &str,
        size: u64,
        available: Result<u64, String>,
    ) -> Result<String, AttachmentError> {
        let params = AttachmentBeginParams {
            name: name.to_string(),
            size,
        };
        check_begin(&params)?;
        let record = plan_begin(&params, available)?;
        let mut reservation = Reservation::begin(self.next_seed());
        let mut outcome = self.reserve(&partial_name(&reservation.upload_id()));
        loop {
            let upload_id = reservation.upload_id();
            let step = reservation.step(outcome);
            if step.remove_both {
                self.files.remove(&partial_name(&upload_id));
                self.files.remove(&record_name(&upload_id));
            }
            outcome = match step.action {
                ReserveAction::MakePartial => {
                    let next = partial_name(&reservation.upload_id());
                    self.reserve(&next)
                }
                ReserveAction::WriteRecord => {
                    self.records.insert(upload_id.clone(), record.clone());
                    self.reserve(&record_name(&upload_id))
                }
                ReserveAction::Reserved(upload_id) => return Ok(upload_id),
                ReserveAction::Fail(error) => return Err(AttachmentError::Storage(error)),
            };
        }
    }

    fn begin(&mut self, name: &str, size: u64) -> Result<String, AttachmentError> {
        self.begin_with(name, size, Ok(u64::MAX))
    }

    fn on_disk(&self, upload_id: &str) -> (RecordRead, PartialRead) {
        let record = match self.records.get(upload_id) {
            Some(record) if self.files.contains_key(&record_name(upload_id)) => {
                RecordRead::Found(record.clone())
            }
            _ => RecordRead::Missing,
        };
        let partial = match self.files.get(&partial_name(upload_id)) {
            Some(content) => PartialRead::Size(content.len() as u64),
            None => PartialRead::Missing,
        };
        (record, partial)
    }

    fn append(
        &mut self,
        upload_id: &str,
        offset: u64,
        bytes: &[u8],
    ) -> Result<u64, AttachmentError> {
        let chunk = check_append(&AttachmentAppendParams {
            upload_id: upload_id.to_string(),
            offset,
            bytes_b64: encode(bytes),
        })?;
        let (record, partial) = self.on_disk(upload_id);
        let at = plan_append(record, partial, offset, chunk.len())? as usize;
        let content = self.files.get_mut(&partial_name(upload_id)).unwrap();
        content.truncate(at);
        content.extend_from_slice(&chunk);
        Ok(content.len() as u64)
    }

    fn commit(&mut self, upload_id: &str, size: u64) -> Result<String, AttachmentError> {
        check_commit(&AttachmentCommitParams {
            upload_id: upload_id.to_string(),
            size,
        })?;
        let (record, partial) = self.on_disk(upload_id);
        let safe = plan_commit(record, partial, size)?;
        let partial = partial_name(upload_id);
        let content = self.files.get(&partial).unwrap();
        let head = &content[..content.len().min(SNIFFED_BYTES)];
        let sniffed = sniff_image_extension(head);
        let name = FinalName::new(self.next_seed(), Some(&safe), sniffed);
        let placed = self.place(name, &[], Some(&partial)).unwrap();
        self.files.remove(&record_name(upload_id));
        Ok(placed)
    }

    fn names(&self) -> Vec<String> {
        self.files.keys().cloned().collect()
    }
}

#[test]
fn sniffs_only_the_supported_image_formats() {
    assert_eq!(sniff_image_extension(&jpeg_bytes()), Some("jpg"));
    assert_eq!(sniff_image_extension(&png_bytes()), Some("png"));
    assert_eq!(sniff_image_extension(&webp_bytes()), Some("webp"));

    assert_eq!(sniff_image_extension(b"GIF89a...."), None);
    assert_eq!(sniff_image_extension(b"plain text"), None);
    assert_eq!(sniff_image_extension(b""), None);
    assert_eq!(sniff_image_extension(b"RIFF\x24\x00\x00\x00WAVEdata"), None);
    assert_eq!(sniff_image_extension(b"RIFF\x24\x00"), None);
}

#[test]
fn extension_follows_magic_bytes_for_every_supported_format() {
    let mut dir = Scratch::default();
    for (bytes, extension) in [
        (jpeg_bytes(), "jpg"),
        (png_bytes(), "png"),
        (webp_bytes(), "webp"),
    ] {
        let created = dir.create(&photo(&encode(&bytes))).unwrap();
        assert!(created.ends_with(&format!(".{extension}")), "{created}");
        assert_eq!(dir.files[&created], bytes);
    }
}

#[test]
fn rejections_leave_no_file_or_temp_artifact() {
    let mut dir = Scratch::default();

    let malformed = dir.create(&photo("not base64!!"));
    assert!(matches!(malformed, Err(AttachmentError::InvalidBase64(_))));

    let mut oversize = png_bytes();
    oversize.resize(MAX_ATTACHMENT_BYTES + 1, 0);
    match dir.create(&photo(&encode(&oversize))) {
        Err(AttachmentError::TooLarge { size, limit }) => {
            assert_eq!(size, MAX_ATTACHMENT_BYTES as u64 + 1);
            assert_eq!(limit, MAX_ATTACHMENT_BYTES as u64);
        }
        _ => panic!("oversize payload must be rejected as too large"),
    }

    let unsupported = dir.create(&photo(&encode(b"GIF89a not an image we accept")));
    assert!(matches!(
        unsupported,
        Err(AttachmentError::UnsupportedFormat)
    ));

    assert!(dir.names().is_empty());
}

#[test]
fn max_size_requests_fit_the_transport_and_an_in_band_oversize_band_exists() {
    let envelope =
        r#"{"id":"req_attach_max","method":"attachment.create","params":{"bytes_b64":""}}"#.len();
    let encoded_len = |decoded: usize| decoded.div_ceil(3) * 4;

    assert!(
        encoded_len(MAX_ATTACHMENT_BYTES) + envelope <= MAX_INITIAL_REQUEST_BYTES,
        "a max-size attachment request must fit the transport cap"
    );
    assert!(
        encoded_len(MAX_ATTACHMENT_BYTES + 1) + envelope <= MAX_INITIAL_REQUEST_BYTES,
        "an over-cap payload must be deliverable to earn the distinct error"
    );
}

#[test]
fn creates_sharing_a_timestamp_stem_get_distinct_paths_and_never_clobber() {
    let mut dir = Scratch::default();

    let name = FinalName::new(42, None, Some("png"));
    let first = dir.place(name.clone(), b"first", None).unwrap();
    let second = dir.place(name, b"second", None).unwrap();

    assert_ne!(
        first, second,
        "two creates must never receive the same path"
    );
    assert_eq!(dir.files[&first], b"first");
    assert_eq!(dir.files[&second], b"second");
    assert_eq!(dir.names().len(), 2);
}

#[test]
fn size_cap_admits_exactly_the_limit() {
    let mut at_limit = png_bytes();
    at_limit.resize(MAX_ATTACHMENT_BYTES, 0);
    assert!(plan_create(&photo(&encode(&at_limit))).is_ok());
}

#[test]
fn error_codes_are_distinct_per_failure() {
    assert_eq!(
        AttachmentError::InvalidBase64("bad".into()).code(),
        "invalid_params"
    );
    assert_eq!(
        AttachmentError::TooLarge { size: 1, limit: 0 }.code(),
        "attachment_too_large"
    );
    assert_eq!(
        AttachmentError::UnknownUpload.code(),
        "attachment_unknown_upload"
    );
    assert_eq!(
        AttachmentError::OffsetMismatch { received: 0 }.code(),
        "attachment_offset_mismatch"
    );
    assert_eq!(
        AttachmentError::SizeMismatch {
            received: 0,
            declared: 1,
        }
        .code(),
        "attachment_size_mismatch"
    );
    assert_eq!(
        AttachmentError::UnsupportedFormat.code(),
        "attachment_unsupported_format"
    );
    assert_eq!(
        AttachmentError::Storage("disk full".into()).code(),
        "attachment_storage_failed"
    );
}

#[test]
fn every_failure_is_explained() {
    for (error, message) in [
        (
            AttachmentError::InvalidBase64("bad".into()),
            "bytes_b64 is not valid base64: bad",
        ),
        (
            AttachmentError::TooLarge { size: 9, limit: 8 },
            "attachment is 9 bytes; the limit is 8 bytes",
        ),
        (
            AttachmentError::UnsupportedFormat,
            "attachment bytes are not a recognized image format (JPEG, PNG, or WebP)",
        ),
        (
            AttachmentError::UnknownUpload,
            "no upload is in progress under that upload_id",
        ),
        (
            AttachmentError::OffsetMismatch { received: 5 },
            "offset must equal the bytes already stored; received 5 bytes",
        ),
        (
            AttachmentError::SizeMismatch {
                received: 4,
                declared: 16,
            },
            "upload holds 4 bytes; commit declared 16 bytes",
        ),
        (
            AttachmentError::Storage("disk full".into()),
            "failed to store attachment: disk full",
        ),
    ] {
        assert_eq!(error.message(), message);
        match respond("req".to_string(), Err(error)) {
            Response::Error(answer) => {
                assert_eq!(answer.id, "req");
                assert_eq!(answer.error.message, message);
            }
            other => panic!("expected an error, got {other:?}"),
        }
    }
    match respond(
        "req".to_string(),
        Ok(ResponseResult::AttachmentAppended { received: 7 }),
    ) {
        Response::Success(answer) => {
            assert_eq!(
                answer.result,
                ResponseResult::AttachmentAppended { received: 7 }
            )
        }
        other => panic!("expected success, got {other:?}"),
    }
}

#[test]
fn a_payload_is_decoded_without_the_white_space_around_it() {
    assert_eq!(decode_payload(" aGVsbG8= \n").unwrap(), b"hello");
    assert_eq!(decode_payload("").unwrap(), b"");
    assert!(decode_payload("aGVsbG8").is_err());
}

#[test]
fn sanitizes_a_client_name_down_to_what_a_stored_file_may_wear() {
    assert_eq!(sanitize_name("/var/log/system/crash.log"), "crash.log");
    assert_eq!(
        sanitize_name(r"C:\Users\pat\Desktop\crash.log"),
        "crash.log"
    );
    assert_eq!(sanitize_name("../../etc/passwd"), "passwd");

    assert_eq!(
        sanitize_name("my report (final), v2.txt"),
        "my_report_final_v2.txt"
    );
    assert_eq!(sanitize_name("a___b"), "a_b");

    assert_eq!(sanitize_name("崩溃日志.log"), "崩溃日志.log");
    assert_eq!(sanitize_name("отчёт.txt"), "отчёт.txt");

    assert_eq!(sanitize_name(".bashrc"), "bashrc");
    assert_eq!(sanitize_name("...hidden.txt"), "hidden.txt");

    assert_eq!(sanitize_name(""), "file");
    assert_eq!(sanitize_name("/"), "file");
    assert_eq!(sanitize_name("."), "file");
    assert_eq!(sanitize_name(".."), "file");
}

#[test]
fn a_decomposed_accent_survives_sanitizing_as_one_letter() {
    let decomposed = "re\u{0301}sume\u{0301}.txt";
    assert!(decomposed.chars().count() > "résumé.txt".chars().count());
    assert_eq!(sanitize_name(decomposed), "résumé.txt");
}

#[test]
fn an_over_long_name_is_shortened_from_the_stem_and_keeps_its_extension() {
    let long = format!("{}.tar.gz", "n".repeat(200));

    let safe = sanitize_name(&long);

    assert_eq!(safe.chars().count(), 80);
    assert!(safe.ends_with(".gz"), "the extension must survive: {safe}");
    assert!(safe.starts_with("nnn"));
}

#[test]
fn a_long_name_of_wide_letters_still_names_a_file_a_filesystem_can_hold() {
    let mut dir = Scratch::default();
    let long = format!("{}.log", "崩".repeat(100));

    let safe = sanitize_name(&long);
    assert!(safe.chars().count() <= MAX_SAFE_NAME_CHARS);
    assert!(safe.len() <= MAX_SAFE_NAME_BYTES, "{} bytes", safe.len());
    assert!(
        safe.starts_with("崩崩崩"),
        "the letters must survive: {safe}"
    );
    assert!(safe.ends_with(".log"), "the extension must survive: {safe}");

    let created = dir.create(&named(&encode(b"wide"), &long)).unwrap();
    assert!(
        created.len() <= 255,
        "a stored name must fit what a filesystem takes: {} bytes",
        created.len()
    );
    assert_eq!(dir.files[&created], b"wide");
}

#[test]
fn an_extension_without_end_is_cut_like_any_name() {
    let long = format!("a.{}", "x".repeat(300));
    let safe = sanitize_name(&long);
    assert_eq!(safe, format!("a.{}", "x".repeat(78)));
}

#[test]
fn a_named_attachment_stores_any_bytes_verbatim_under_its_own_name() {
    let mut dir = Scratch::default();
    let bytes = b"herdr crash log\nline two\n".to_vec();

    let name = dir
        .create(&named(&encode(&bytes), "my crash log.txt"))
        .unwrap();
    assert!(
        name.starts_with("attachment-") && name.ends_with("-my_crash_log.txt"),
        "unexpected name: {name}"
    );
    assert!(!name.contains(' '), "name must be space-free: {name}");
    assert_eq!(dir.files[&name], bytes);
    assert_eq!(dir.names(), vec![name]);
}

#[test]
fn a_named_attachment_with_no_extension_keeps_having_none() {
    let mut dir = Scratch::default();
    let name = dir.create(&named(&encode(b"just text"), "NOTES")).unwrap();
    assert!(name.ends_with("-NOTES"), "unexpected name: {name}");
}

#[test]
fn sniffed_image_bytes_overrule_a_misleading_client_extension() {
    let mut dir = Scratch::default();
    let name = dir
        .create(&named(&encode(&png_bytes()), "screenshot.txt"))
        .unwrap();
    assert!(
        name.ends_with("-screenshot.png"),
        "the magic bytes must dictate the extension: {name}"
    );
}

#[test]
fn a_name_never_makes_an_unnamed_upload_skip_the_sniff() {
    let mut dir = Scratch::default();
    let text = encode(b"plain text, not an image");
    assert!(matches!(
        dir.create(&photo(&text)),
        Err(AttachmentError::UnsupportedFormat)
    ));
    assert!(dir.create(&named(&text, "notes.txt")).is_ok());
}

#[test]
fn a_chunked_upload_lands_the_whole_file_under_its_own_name() {
    let mut dir = Scratch::default();
    let chunks: Vec<Vec<u8>> = (0..5u8)
        .map(|index| vec![index; 4096 + usize::from(index)])
        .collect();
    let whole: Vec<u8> = chunks.concat();

    let upload_id = dir
        .begin("logs/session output.log", whole.len() as u64)
        .unwrap();
    assert!(
        upload_id.starts_with("upload-"),
        "unexpected upload id: {upload_id}"
    );

    let mut offset = 0u64;
    for chunk in &chunks {
        let received = dir.append(&upload_id, offset, chunk).unwrap();
        offset += chunk.len() as u64;
        assert_eq!(received, offset, "received must be the bytes on disk");
    }

    let name = dir.commit(&upload_id, whole.len() as u64).unwrap();
    assert_eq!(dir.files[&name], whole);
    assert!(
        name.ends_with("-session_output.log"),
        "unexpected name: {name}"
    );
    assert!(!name.contains(' '), "name must be space-free: {name}");
    assert_eq!(dir.names(), vec![name]);
}

#[test]
fn a_committed_upload_sniffs_its_own_bytes_for_the_extension() {
    let mut dir = Scratch::default();
    let bytes = png_bytes();
    let upload_id = dir.begin("not-really.txt", bytes.len() as u64).unwrap();
    dir.append(&upload_id, 0, &bytes).unwrap();
    let name = dir.commit(&upload_id, bytes.len() as u64).unwrap();
    assert!(
        name.ends_with("-not-really.png"),
        "the stored bytes must dictate the extension: {name}"
    );
}

#[test]
fn begin_refuses_a_size_over_the_ceiling_and_leaves_no_file() {
    let mut dir = Scratch::default();
    match dir.begin("huge.bin", MAX_UPLOAD_BYTES + 1) {
        Err(AttachmentError::TooLarge { size, limit }) => {
            assert_eq!(size, MAX_UPLOAD_BYTES + 1);
            assert_eq!(limit, MAX_UPLOAD_BYTES);
        }
        _ => panic!("an over-ceiling size must be refused as too large"),
    }
    assert!(dir.names().is_empty());
    assert!(dir.begin("huge.bin", MAX_UPLOAD_BYTES).is_ok());
}

#[test]
fn begin_refuses_a_volume_without_room_and_leaves_no_file() {
    let mut dir = Scratch::default();
    let size = 8 * 1024 * 1024;

    let refused = dir
        .begin_with("big.log", size, Ok(size + FREE_SPACE_MARGIN_BYTES - 1))
        .unwrap_err();
    assert_eq!(refused.code(), "attachment_storage_failed");
    assert_eq!(
        refused.message(),
        "failed to store attachment: the attachment scratch volume has 75497471 bytes free; this upload needs 75497472 bytes including its margin"
    );
    assert!(dir.names().is_empty());

    let refused = dir
        .begin_with("big.log", size, Err("no such volume".to_string()))
        .unwrap_err();
    assert_eq!(refused.code(), "attachment_storage_failed");
    assert!(dir.names().is_empty());

    assert!(dir
        .begin_with("big.log", size, Ok(size + FREE_SPACE_MARGIN_BYTES))
        .is_ok());
}

#[test]
fn an_upload_id_the_server_never_minted_is_refused_without_touching_the_disk() {
    let mut dir = Scratch::default();
    dir.files.insert("victim.txt".to_string(), b"precious".to_vec());

    for id in [
        "upload-../victim",
        "upload-/etc/passwd",
        r"upload-..\victim",
        "..",
        ".",
        "victim.txt",
        "attachment-1-0.png",
        "upload-has spaces",
        "upload-nonexistent-9",
        "",
        &format!("upload-{}", "9".repeat(MAX_UPLOAD_ID_CHARS)),
    ] {
        assert_eq!(
            dir.append(id, 0, b"x").unwrap_err().code(),
            "attachment_unknown_upload",
            "append must refuse {id:?}"
        );
        assert_eq!(
            dir.commit(id, 0).unwrap_err().code(),
            "attachment_unknown_upload",
            "commit must refuse {id:?}"
        );
    }

    assert_eq!(dir.files["victim.txt"], b"precious");
    assert_eq!(dir.names(), vec!["victim.txt"]);
}

#[test]
fn a_minted_upload_id_matches_the_contracts_charset() {
    let mut dir = Scratch::default();
    dir.seed = u128::MAX - 1;
    let upload_id = dir.begin("崩溃 日志.log", 4).unwrap();

    assert!(upload_id.len() <= MAX_UPLOAD_ID_CHARS, "{upload_id}");
    assert!(
        upload_id
            .bytes()
            .all(|byte| byte.is_ascii_alphanumeric() || matches!(byte, b'.' | b'_' | b'-')),
        "an upload id must stay inside its charset: {upload_id}"
    );
    assert!(validated_upload_id(&upload_id));
    dir.seed = 0;
    dir.append(&upload_id, 0, b"logs").unwrap();
    let name = dir.commit(&upload_id, 4).unwrap();
    assert!(name.ends_with("-崩溃_日志.log"), "unexpected name: {name}");
}

#[test]
fn an_out_of_order_or_duplicated_append_is_refused_and_changes_nothing() {
    let mut dir = Scratch::default();
    let upload_id = dir.begin("log.txt", 32).unwrap();
    dir.append(&upload_id, 0, b"first").unwrap();
    let partial = partial_name(&upload_id);

    for offset in [0, 4, 6, 31] {
        match dir.append(&upload_id, offset, b"again") {
            Err(AttachmentError::OffsetMismatch { received }) => assert_eq!(received, 5),
            Err(err) => panic!("expected an offset mismatch, got {}", err.message()),
            Ok(_) => panic!("offset {offset} must not be accepted"),
        }
        assert_eq!(dir.files[&partial], b"first");
    }

    assert_eq!(dir.append(&upload_id, 5, b"-second").unwrap(), 12);
}

#[test]
fn an_append_past_the_declared_size_is_refused() {
    let mut dir = Scratch::default();
    let upload_id = dir.begin("log.txt", 8).unwrap();
    dir.append(&upload_id, 0, b"1234").unwrap();

    match dir.append(&upload_id, 4, b"56789") {
        Err(AttachmentError::TooLarge { size, limit }) => {
            assert_eq!(size, 9);
            assert_eq!(limit, 8);
        }
        _ => panic!("an append past the declared size must be refused as too large"),
    }
    assert_eq!(dir.files[&partial_name(&upload_id)], b"1234");
}

#[test]
fn an_append_over_the_chunk_cap_is_refused() {
    let mut dir = Scratch::default();
    let upload_id = dir.begin("log.bin", MAX_UPLOAD_BYTES).unwrap();

    match dir.append(&upload_id, 0, &vec![0u8; MAX_ATTACHMENT_BYTES + 1]) {
        Err(AttachmentError::TooLarge { size, limit }) => {
            assert_eq!(size, MAX_ATTACHMENT_BYTES as u64 + 1);
            assert_eq!(limit, MAX_ATTACHMENT_BYTES as u64);
        }
        _ => panic!("an over-cap chunk must be refused as too large"),
    }
    assert!(dir.files[&partial_name(&upload_id)].is_empty());
}

#[test]
fn a_commit_whose_size_disagrees_leaves_the_partial_alone() {
    let mut dir = Scratch::default();
    let upload_id = dir.begin("log.txt", 16).unwrap();
    dir.append(&upload_id, 0, b"half").unwrap();

    match dir.commit(&upload_id, 16) {
        Err(AttachmentError::SizeMismatch { received, declared }) => {
            assert_eq!(received, 4);
            assert_eq!(declared, 16);
        }
        _ => panic!("a size that disagrees must be refused"),
    }

    assert_eq!(dir.append(&upload_id, 4, b" rest").unwrap(), 9);
    let name = dir.commit(&upload_id, 9).unwrap();
    assert_eq!(dir.files[&name], b"half rest");
}

#[test]
fn an_upload_is_only_committed_once() {
    let mut dir = Scratch::default();
    let upload_id = dir.begin("log.txt", 2).unwrap();
    dir.append(&upload_id, 0, b"ok").unwrap();
    dir.commit(&upload_id, 2).unwrap();

    assert_eq!(
        dir.commit(&upload_id, 2).unwrap_err().code(),
        "attachment_unknown_upload"
    );
    assert_eq!(
        dir.append(&upload_id, 2, b"more").unwrap_err().code(),
        "attachment_unknown_upload"
    );
}

#[test]
fn an_empty_upload_is_a_file_like_any_other() {
    let mut dir = Scratch::default();
    let upload_id = dir.begin("empty.txt", 0).unwrap();
    let name = dir.commit(&upload_id, 0).unwrap();
    assert!(dir.files[&name].is_empty());
    assert_eq!(dir.names(), vec![name]);
}

#[test]
fn two_uploads_in_flight_never_share_a_partial_or_a_final_path() {
    let mut dir = Scratch::default();

    let first = dir.begin("log.txt", 5).unwrap();
    dir.seed -= 1;
    let second = dir.begin("log.txt", 6).unwrap();
    assert_ne!(first, second);

    dir.append(&first, 0, b"aaaaa").unwrap();
    dir.append(&second, 0, b"bbbbbb").unwrap();

    let first_path = dir.commit(&first, 5).unwrap();
    dir.seed -= 1;
    let second_path = dir.commit(&second, 6).unwrap();

    assert_ne!(first_path, second_path);
    assert_eq!(dir.files[&first_path], b"aaaaa");
    assert_eq!(dir.files[&second_path], b"bbbbbb");
}

#[test]
fn an_upload_in_flight_survives_a_server_that_forgets_everything() {
    let mut dir = Scratch::default();
    let upload_id = dir.begin("log.txt", 8).unwrap();
    dir.append(&upload_id, 0, b"1234").unwrap();

    assert_eq!(
        dir.names(),
        vec![
            format!("{upload_id}.partial"),
            format!("{upload_id}.upload"),
        ]
    );

    dir.append(&upload_id, 4, b"5678").unwrap();
    let name = dir.commit(&upload_id, 8).unwrap();
    assert_eq!(dir.files[&name], b"12345678");
}

#[test]
fn an_unreadable_upload_is_an_unknown_one() {
    let record = || {
        RecordRead::Found(UploadRecord {
            name: "a".to_string(),
            size: 4,
        })
    };
    for (record, partial, code) in [
        (RecordRead::Unreadable, PartialRead::Size(0), "attachment_unknown_upload"),
        (record(), PartialRead::NotAFile, "attachment_unknown_upload"),
        (record(), PartialRead::Missing, "attachment_unknown_upload"),
        (
            RecordRead::Failed("io".to_string()),
            PartialRead::Size(0),
            "attachment_storage_failed",
        ),
        (
            record(),
            PartialRead::Failed("io".to_string()),
            "attachment_storage_failed",
        ),
    ] {
        assert_eq!(
            plan_append(record.clone(), partial.clone(), 0, 1)
                .unwrap_err()
                .code(),
            code
        );
        assert_eq!(plan_commit(record, partial, 0).unwrap_err().code(), code);
    }
}

#[test]
fn the_declared_capability_carries_the_ceiling_and_the_message_caps_own_limit() {
    let capability = file_attachments_capability();

    assert_eq!(capability.max_bytes, 67_108_864);
    assert_eq!(capability.chunk_bytes, MAX_ATTACHMENT_BYTES as u64);
    assert_eq!(capability.chunk_bytes, 783_360);
    assert!(
        capability.chunk_bytes < capability.max_bytes,
        "a chunked upload must be able to carry more than one message"
    );
}

#[test]
fn a_max_size_append_request_fits_the_unchanged_transport_cap() {
    let envelope = format!(
        r#"{{"id":"req_attach_append","method":"attachment.append","params":{{"upload_id":"{}","offset":18446744073709551615,"bytes_b64":""}}}}"#,
        "u".repeat(MAX_UPLOAD_ID_CHARS)
    )
    .len();
    let encoded_len = MAX_ATTACHMENT_BYTES.div_ceil(3) * 4;

    assert!(
        encoded_len + envelope <= MAX_INITIAL_REQUEST_BYTES,
        "a full chunk plus the widest append envelope must fit the message cap"
    );
}

#[test]
fn scratch_dir_under_a_relative_temp_root_is_absolute() {
    assert_eq!(
        scratch_dir_under("target/tmp", Ok("/work/target/tmp".to_string()), 501).unwrap(),
        "/work/target/tmp/herdr-attachments-501"
    );
    assert_eq!(
        scratch_dir_under("gone", Err("not found".to_string()), 501).unwrap_err(),
        "cannot resolve temp dir gone: not found"
    );
}

#[test]
fn scratch_dir_under_a_whitespace_temp_root_is_refused() {
    let err = scratch_dir_under("with space", Ok("/tmp/with space".to_string()), 501)
        .expect_err("a whitespace root breaks paste-safety");
    assert!(err.contains("whitespace"), "unexpected error: {err}");
}

#[test]
fn a_scratch_dir_behind_a_pre_planted_symlink_is_refused() {
    let link = ScratchFacts {
        is_dir: false,
        owner: 501,
    };
    assert_eq!(
        check_scratch_dir("/tmp/s", link, 501).as_deref(),
        Some("attachment scratch path is not a directory: /tmp/s")
    );
    let other = ScratchFacts {
        is_dir: true,
        owner: 0,
    };
    assert_eq!(
        check_scratch_dir("/tmp/s", other, 501).as_deref(),
        Some("attachment scratch dir at /tmp/s is owned by uid 0, not 501; refusing to use it")
    );
    let own = ScratchFacts {
        is_dir: true,
        owner: 501,
    };
    assert_eq!(check_scratch_dir("/tmp/s", own, 501), None);
    assert!(sweeps_dir("/tmp/s", SweepTarget::Found(own), 501));
    assert!(!sweeps_dir("/tmp/s", SweepTarget::Found(link), 501));
}

#[test]
fn sweep_tolerates_a_missing_scratch_dir() {
    assert!(!sweeps_dir("/tmp/s", SweepTarget::Missing, 501));
    assert!(!sweeps_dir("/tmp/s", SweepTarget::Unknown, 501));
}

#[test]
fn sweep_removes_expired_files_and_spares_fresh_ones() {
    let written = FileTime {
        secs: 1_000,
        nanos: 5,
    };
    let file = SweptEntry {
        is_file: true,
        modified: Some(written),
    };
    let expiry = expires_at(written);
    assert_eq!(expiry, 1_000 + ATTACHMENT_TTL_SECS);
    let at = |secs: u64, nanos: u32| FileTime {
        secs: secs as i64,
        nanos,
    };
    assert!(!sweeps(file, at(expiry, 5)));
    assert!(sweeps(file, at(expiry, 6)));
    assert!(!sweeps(file, at(1, 0)));
    assert!(!sweeps(
        SweptEntry {
            is_file: false,
            ..file
        },
        at(expiry + 9, 0)
    ));
    assert!(!sweeps(
        SweptEntry {
            modified: None,
            ..file
        },
        at(expiry + 9, 0)
    ));
    let before_the_epoch = FileTime {
        secs: -5,
        nanos: 1,
    };
    assert_eq!(expires_at(before_the_epoch), ATTACHMENT_TTL_SECS);
    let old = SweptEntry {
        is_file: true,
        modified: Some(before_the_epoch),
    };
    assert!(!sweeps(old, at(ATTACHMENT_TTL_SECS - 5, 1)));
    assert!(sweeps(old, at(ATTACHMENT_TTL_SECS - 5, 2)));
    assert!(sweeps(
        SweptEntry {
            is_file: true,
            modified: Some(FileTime {
                secs: i64::MIN,
                nanos: 0,
            }),
        },
        FileTime {
            secs: i64::MAX,
            nanos: 0,
        }
    ));
}

#[test]
fn a_failed_placement_takes_everything_away() {
    let mut placement = Placement::begin(FinalName::new(7, Some("log.txt"), None));
    assert_eq!(placement.basename(), "attachment-7-0-log.txt");
    assert_eq!(placement.staged_name(), "attachment-7-0-log.txt.partial");
    assert_eq!(placement.step(FileOutcome::Done).action, PlaceAction::Stage);
    let failed = placement.step(FileOutcome::Failed("disk full".to_string()));
    assert!(failed.remove_reservation && failed.remove_staged);
    assert_eq!(failed.action, PlaceAction::Fail("disk full".to_string()));

    // A name that is taken is somebody else's, and the next one is tried.
    let mut placement = Placement::begin(FinalName::new(7, None, Some("png")));
    let taken = || FileOutcome::Taken("exists".to_string());
    let next = placement.step(taken());
    assert!(!next.remove_reservation && !next.remove_staged);
    assert_eq!(placement.basename(), "attachment-7-1.png");
    for _ in 0..98 {
        assert_eq!(placement.step(taken()).action, PlaceAction::Reserve);
    }
    assert_eq!(
        placement.step(taken()).action,
        PlaceAction::Fail("failed to allocate a unique attachment path".to_string())
    );
}

#[test]
fn an_upload_that_finds_no_id_gives_up() {
    let mut reservation = Reservation::begin(7);
    for _ in 0..99 {
        assert_eq!(
            reservation
                .step(FileOutcome::Taken("exists".to_string()))
                .action,
            ReserveAction::MakePartial
        );
    }
    assert_eq!(
        reservation
            .step(FileOutcome::Taken("exists".to_string()))
            .action,
        ReserveAction::Fail("failed to allocate a unique upload id".to_string())
    );
}

#[test]
fn creates_the_file_with_matching_bytes_and_owner_only_permissions() {
    let mut scratch = Scratch::default();
    let bytes = png_bytes();
    let name = scratch.create(&photo(&encode(&bytes))).unwrap();
    assert!(!name.contains(char::is_whitespace), "{name}");
    assert!(name.ends_with(".png"), "{name}");
    assert_eq!(scratch.files[&name], bytes);
    let written = FileTime {
        secs: 60,
        nanos: 0,
    };
    assert_eq!(expires_at(written), 60 + ATTACHMENT_TTL_SECS);
}

#[test]
fn sweep_refuses_a_scratch_path_behind_a_pre_planted_symlink() {
    let link = ScratchFacts {
        is_dir: false,
        owner: 501,
    };
    assert!(
        !sweeps_dir("/tmp/scratch", SweepTarget::Found(link), 501),
        "the sweep must never follow a symlinked scratch path"
    );
}

#[test]
fn the_sweep_removes_an_abandoned_upload_and_spares_a_fresh_one() {
    let mut scratch = Scratch::default();
    let abandoned = scratch.begin("abandoned.log", 64).unwrap();
    scratch.append(&abandoned, 0, b"half written").unwrap();
    let fresh = scratch.begin("fresh.log", 64).unwrap();

    let now = FileTime {
        secs: 10_000_000,
        nanos: 0,
    };
    let written_before = |secs: u64| SweptEntry {
        is_file: true,
        modified: Some(FileTime {
            secs: now.secs - secs as i64,
            nanos: 0,
        }),
    };
    let names = scratch.names();
    for name in names {
        let age = if name.starts_with(&format!("{abandoned}.")) {
            ATTACHMENT_TTL_SECS + 60
        } else {
            60
        };
        if sweeps(written_before(age), now) {
            scratch.files.remove(&name);
        }
    }

    assert_eq!(
        scratch.names(),
        vec![partial_name(&fresh), record_name(&fresh)],
        "only the abandoned upload is swept"
    );
    assert_eq!(
        scratch.append(&abandoned, 12, b"more").unwrap_err().code(),
        "attachment_unknown_upload"
    );
}
