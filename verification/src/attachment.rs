//! Attachment storage: what is accepted, what it is answered, and what is
//! done to the scratch directory.
//!
//! Bytes arrive base64-encoded. A small file comes in one message; a larger
//! one is begun, appended to chunk by chunk and committed. The whole state of
//! an upload is its record and its partial file on disk, so nothing here
//! remembers an upload between two requests.

use crate::attachment_name::{sanitize_name, sanitized};
use crate::connection::MAX_INITIAL_REQUEST_BYTES;
use crate::schema::{
    error_response, is_error, success, AttachmentCreateParams, FileAttachmentsCapability, Response,
    ResponseResult,
};
use crate::text::{
    borrowed, decimal, decimal_text, str_view, to_chars, to_text, trim, trimmed, view_of,
};
use base64::Engine;
use vstd::prelude::*;

verus! {

pub const ATTACHMENT_TTL_SECS: u64 = 24 * 60 * 60;

pub const SWEEP_INTERVAL_SECS: u64 = 60 * 60;

/// Room reserved out of the message cap for the request around the payload.
pub const REQUEST_ENVELOPE_HEADROOM_BYTES: usize = 4096;

/// Decoded size cap, derived so that an attachment of this size still fits
/// the message cap after base64's expansion and with its envelope.
pub const MAX_ATTACHMENT_BYTES: usize = (MAX_INITIAL_REQUEST_BYTES
    - REQUEST_ENVELOPE_HEADROOM_BYTES) / 4 * 3;

/// Ceiling on a chunked upload's declared size.
pub const MAX_UPLOAD_BYTES: u64 = 64 * 1024 * 1024;

/// Free space that an upload demands beyond its declared size.
pub const FREE_SPACE_MARGIN_BYTES: u64 = 64 * 1024 * 1024;

/// Longest upload id that is accepted back.
pub const MAX_UPLOAD_ID_CHARS: usize = 128;

/// Every minted upload id starts here.
pub const UPLOAD_ID_PREFIX: &'static str = "upload-";

/// Suffix of the file that holds bytes on their way to their final name.
pub const PARTIAL_SUFFIX: &'static str = ".partial";

/// Suffix of the file that holds what an upload was begun with.
pub const RECORD_SUFFIX: &'static str = ".upload";

/// How many names are tried before giving up.
pub const MAX_ATTEMPTS: usize = 100;

/// What this server accepts as a file attachment.
pub fn file_attachments_capability() -> (capability: FileAttachmentsCapability)
    ensures
        capability.max_bytes == MAX_UPLOAD_BYTES,
        capability.chunk_bytes == MAX_ATTACHMENT_BYTES,
{
    FileAttachmentsCapability {
        max_bytes: MAX_UPLOAD_BYTES,
        chunk_bytes: MAX_ATTACHMENT_BYTES as u64,
    }
}

/// How many characters padded base64 takes for some bytes.
pub open spec fn encoded_len(count: nat) -> nat {
    (count + 2) / 3 * 4
}

/// Every payload within the cap fits the message cap together with the room
/// for its envelope, and one just over the cap still fits with almost all of
/// that room, so that an oversize payload is answered in words.
pub proof fn law_accepted_payloads_fit_a_message(count: nat)
    ensures
        count <= MAX_ATTACHMENT_BYTES ==> encoded_len(count) + REQUEST_ENVELOPE_HEADROOM_BYTES
            <= MAX_INITIAL_REQUEST_BYTES,
        count == MAX_ATTACHMENT_BYTES + 1 ==> encoded_len(count) + REQUEST_ENVELOPE_HEADROOM_BYTES
            <= MAX_INITIAL_REQUEST_BYTES + 4,
{
}

// ---- Errors ----------------------------------------------------------------------------------

#[derive(Clone, Debug, PartialEq, Eq)]
pub enum AttachmentError {
    InvalidBase64(String),
    TooLarge { size: u64, limit: u64 },
    UnsupportedFormat,
    UnknownUpload,
    OffsetMismatch { received: u64 },
    SizeMismatch { received: u64, declared: u64 },
    Storage(String),
}

/// An error over its texts.
pub ghost enum ErrorView {
    InvalidBase64(Seq<char>),
    TooLarge { size: u64, limit: u64 },
    UnsupportedFormat,
    UnknownUpload,
    OffsetMismatch { received: u64 },
    SizeMismatch { received: u64, declared: u64 },
    Storage(Seq<char>),
}

impl View for AttachmentError {
    type V = ErrorView;

    open spec fn view(&self) -> ErrorView {
        match *self {
            AttachmentError::InvalidBase64(error) => ErrorView::InvalidBase64(error@),
            AttachmentError::TooLarge { size, limit } => ErrorView::TooLarge { size, limit },
            AttachmentError::UnsupportedFormat => ErrorView::UnsupportedFormat,
            AttachmentError::UnknownUpload => ErrorView::UnknownUpload,
            AttachmentError::OffsetMismatch { received } => ErrorView::OffsetMismatch { received },
            AttachmentError::SizeMismatch { received, declared } => ErrorView::SizeMismatch {
                received,
                declared,
            },
            AttachmentError::Storage(error) => ErrorView::Storage(error@),
        }
    }
}

pub open spec fn error_code(error: ErrorView) -> Seq<char> {
    match error {
        ErrorView::InvalidBase64(_) => "invalid_params"@,
        ErrorView::TooLarge { .. } => "attachment_too_large"@,
        ErrorView::UnsupportedFormat => "attachment_unsupported_format"@,
        ErrorView::UnknownUpload => "attachment_unknown_upload"@,
        ErrorView::OffsetMismatch { .. } => "attachment_offset_mismatch"@,
        ErrorView::SizeMismatch { .. } => "attachment_size_mismatch"@,
        ErrorView::Storage(_) => "attachment_storage_failed"@,
    }
}

pub open spec fn error_message(error: ErrorView) -> Seq<char> {
    match error {
        ErrorView::InvalidBase64(error) => "bytes_b64 is not valid base64: "@ + error,
        ErrorView::TooLarge { size, limit } => "attachment is "@ + decimal_text(size as nat)
            + " bytes; the limit is "@ + decimal_text(limit as nat) + " bytes"@,
        ErrorView::UnsupportedFormat =>
            "attachment bytes are not a recognized image format (JPEG, PNG, or WebP)"@,
        ErrorView::UnknownUpload => "no upload is in progress under that upload_id"@,
        ErrorView::OffsetMismatch { received } =>
            "offset must equal the bytes already stored; received "@ + decimal_text(
            received as nat,
        ) + " bytes"@,
        ErrorView::SizeMismatch { received, declared } => "upload holds "@ + decimal_text(
            received as nat,
        ) + " bytes; commit declared "@ + decimal_text(declared as nat) + " bytes"@,
        ErrorView::Storage(error) => "failed to store attachment: "@ + error,
    }
}

impl AttachmentError {
    pub fn code(&self) -> (code: &'static str)
        ensures
            code@ == error_code(self@),
    {
        match self {
            AttachmentError::InvalidBase64(_) => "invalid_params",
            AttachmentError::TooLarge { .. } => "attachment_too_large",
            AttachmentError::UnsupportedFormat => "attachment_unsupported_format",
            AttachmentError::UnknownUpload => "attachment_unknown_upload",
            AttachmentError::OffsetMismatch { .. } => "attachment_offset_mismatch",
            AttachmentError::SizeMismatch { .. } => "attachment_size_mismatch",
            AttachmentError::Storage(_) => "attachment_storage_failed",
        }
    }

    pub fn message(&self) -> (message: String)
        ensures
            message@ == error_message(self@),
    {
        match self {
            AttachmentError::InvalidBase64(error) => {
                let mut text = "bytes_b64 is not valid base64: ".to_string();
                text.push_str(error);
                text
            },
            AttachmentError::TooLarge { size, limit } => {
                let mut text = "attachment is ".to_string();
                text.push_str(&decimal(*size));
                text.push_str(" bytes; the limit is ");
                text.push_str(&decimal(*limit));
                text.push_str(" bytes");
                text
            },
            AttachmentError::UnsupportedFormat =>
                "attachment bytes are not a recognized image format (JPEG, PNG, or WebP)".to_string(),
            AttachmentError::UnknownUpload =>
                "no upload is in progress under that upload_id".to_string(),
            AttachmentError::OffsetMismatch { received } => {
                let mut text = "offset must equal the bytes already stored; received ".to_string();
                text.push_str(&decimal(*received));
                text.push_str(" bytes");
                text
            },
            AttachmentError::SizeMismatch { received, declared } => {
                let mut text = "upload holds ".to_string();
                text.push_str(&decimal(*received));
                text.push_str(" bytes; commit declared ");
                text.push_str(&decimal(*declared));
                text.push_str(" bytes");
                text
            },
            AttachmentError::Storage(error) => {
                let mut text = "failed to store attachment: ".to_string();
                text.push_str(error);
                text
            },
        }
    }
}

/// The answer to an attachment request.
pub fn respond(id: String, result: Result<ResponseResult, AttachmentError>) -> (response: Response)
    ensures
        match result {
            Ok(result) => response matches Response::Success(answer) && answer.id == id
                && answer.result == result,
            Err(error) => is_error(response, id@, error_code(error@), error_message(error@)),
        },
{
    match result {
        Ok(result) => success(id, result),
        Err(error) => error_response(&id, error.code(), error.message()),
    }
}

// ---- Payloads --------------------------------------------------------------------------------

/// The bytes that a text of standard base64 stands for, or why it stands for
/// none.
pub uninterp spec fn base64_decoded(text: Seq<char>) -> Result<Seq<u8>, Seq<char>>;

/// `base64`'s `STANDARD.decode`, and the `Display` text of its error: both are
/// functions of the text, named and not described here.
#[verifier::external_body]
fn decode_base64(text: &str) -> (bytes: Result<Vec<u8>, String>)
    ensures
        match bytes {
            Ok(bytes) => base64_decoded(text@) == Ok::<Seq<u8>, Seq<char>>(bytes@),
            Err(error) => base64_decoded(text@) == Err::<Seq<u8>, Seq<char>>(error@),
        },
{
    let decoded = base64::engine::general_purpose::STANDARD.decode(text);
    decoded.map_err(|error| error.to_string())
}

/// The bytes of a payload, which may have white space around it.
pub fn decode_payload(bytes_b64: &str) -> (bytes: Result<Vec<u8>, String>)
    ensures
        match bytes {
            Ok(bytes) => base64_decoded(trimmed(bytes_b64@)) == Ok::<Seq<u8>, Seq<char>>(bytes@),
            Err(error) => base64_decoded(trimmed(bytes_b64@)) == Err::<Seq<u8>, Seq<char>>(error@),
        },
{
    let chars = to_chars(bytes_b64);
    let text = to_text(trim(&chars));
    decode_base64(&text)
}

/// Why a decoded payload is refused, where it is: it has to decode, and to be
/// within the cap.
pub open spec fn payload_refusal(decoded: Result<Seq<u8>, Seq<char>>) -> Option<ErrorView> {
    match decoded {
        Err(error) => Some(ErrorView::InvalidBase64(error)),
        Ok(bytes) => if bytes.len() > MAX_ATTACHMENT_BYTES {
            Some(
                ErrorView::TooLarge {
                    size: bytes.len() as u64,
                    limit: MAX_ATTACHMENT_BYTES as u64,
                },
            )
        } else {
            None
        },
    }
}

/// A decoding over its texts.
pub open spec fn decoding_view(decoded: Result<Vec<u8>, String>) -> Result<Seq<u8>, Seq<char>> {
    match decoded {
        Ok(bytes) => Ok(bytes@),
        Err(error) => Err(error@),
    }
}

/// The bytes of a decoded payload, unless it is refused.
pub fn accept_payload(decoded: Result<Vec<u8>, String>) -> (bytes: Result<Vec<u8>, AttachmentError>)
    ensures
        match bytes {
            Ok(bytes) => payload_refusal(decoding_view(decoded)) is None && decoded == Ok::<
                Vec<u8>,
                String,
            >(bytes),
            Err(error) => payload_refusal(decoding_view(decoded)) == Some(error@),
        },
{
    match decoded {
        Err(error) => Err(AttachmentError::InvalidBase64(error)),
        Ok(bytes) => if bytes.len() > MAX_ATTACHMENT_BYTES {
            Err(
                AttachmentError::TooLarge {
                    size: bytes.len() as u64,
                    limit: MAX_ATTACHMENT_BYTES as u64,
                },
            )
        } else {
            Ok(bytes)
        },
    }
}

// ---- Image formats ---------------------------------------------------------------------------

/// Whether bytes begin with other bytes.
pub open spec fn begins_with(bytes: Seq<u8>, head: Seq<u8>) -> bool {
    head.len() <= bytes.len() && bytes.take(head.len() as int) == head
}

pub open spec fn is_jpeg(bytes: Seq<u8>) -> bool {
    begins_with(bytes, seq![0xFFu8, 0xD8u8, 0xFFu8])
}

pub open spec fn is_png(bytes: Seq<u8>) -> bool {
    begins_with(
        bytes,
        seq![0x89u8, 0x50u8, 0x4Eu8, 0x47u8, 0x0Du8, 0x0Au8, 0x1Au8, 0x0Au8],
    )
}

/// `RIFF`, any four bytes, then `WEBP`.
pub open spec fn is_webp(bytes: Seq<u8>) -> bool {
    &&& begins_with(bytes, seq![0x52u8, 0x49u8, 0x46u8, 0x46u8])
    &&& bytes.len() >= 12
    &&& begins_with(bytes.skip(8), seq![0x57u8, 0x45u8, 0x42u8, 0x50u8])
}

/// The extension that the magic bytes dictate.
pub open spec fn image_extension(bytes: Seq<u8>) -> Option<Seq<char>> {
    if is_jpeg(bytes) {
        Some("jpg"@)
    } else if is_png(bytes) {
        Some("png"@)
    } else if is_webp(bytes) {
        Some("webp"@)
    } else {
        None
    }
}

fn holds_at(bytes: &[u8], from: usize, head: &[u8]) -> (yes: bool)
    requires
        from <= 64,
    ensures
        yes == (from <= bytes@.len() && begins_with(bytes@.skip(from as int), head@)),
{
    let end: usize = bytes.len();
    if from > end || head.len() > end - from {
        return false;
    }
    let mut i: usize = 0;
    while i < head.len()
        invariant
            i <= head@.len(),
            from + head@.len() <= bytes@.len(),
            end == bytes@.len(),
            forall|j: int| 0 <= j < i ==> bytes@[from + j] == head@[j],
        decreases head@.len() - i,
    {
        if bytes[from + i] != head[i] {
            assert(bytes@.skip(from as int).take(head@.len() as int)[i as int] != head@[i as int]);
            return false;
        }
        i += 1;
    }
    assert(bytes@.skip(from as int).take(head@.len() as int) =~= head@);
    true
}

/// The extension that the magic bytes dictate, never one that a client
/// declared.
pub fn sniff_image_extension(bytes: &[u8]) -> (extension: Option<&'static str>)
    ensures
        str_view(extension) == image_extension(bytes@),
        str_view(extension) == Some("jpg"@) <==> bytes@.len() >= 3 && bytes@[0] == 0xFF && bytes@[1]
            == 0xD8 && bytes@[2] == 0xFF,
        str_view(extension) == Some("png"@) <==> bytes@.len() >= 8 && bytes@[0] == 0x89 && bytes@[1]
            == 0x50 && bytes@[2] == 0x4E && bytes@[3] == 0x47 && bytes@[4] == 0x0D && bytes@[5]
            == 0x0A && bytes@[6] == 0x1A && bytes@[7] == 0x0A,
        str_view(extension) == Some("webp"@) <==> bytes@.len() >= 12 && bytes@[0] == 0x52
            && bytes@[1] == 0x49 && bytes@[2] == 0x46 && bytes@[3] == 0x46 && bytes@[8] == 0x57
            && bytes@[9] == 0x45 && bytes@[10] == 0x42 && bytes@[11] == 0x50,
        extension is Some ==> str_view(extension) == Some("jpg"@) || str_view(extension) == Some(
            "png"@,
        ) || str_view(extension) == Some("webp"@),
{
    proof {
        law_what_each_format_begins_with(bytes@);
    }
    assert(bytes@.skip(0) =~= bytes@);
    let jpeg: [u8; 3] = [0xFF, 0xD8, 0xFF];
    assert(jpeg@ =~= seq![0xFFu8, 0xD8u8, 0xFFu8]);
    if holds_at(bytes, 0, &jpeg) {
        return Some("jpg");
    }
    let png: [u8; 8] = [0x89, 0x50, 0x4E, 0x47, 0x0D, 0x0A, 0x1A, 0x0A];
    assert(png@ =~= seq![0x89u8, 0x50u8, 0x4Eu8, 0x47u8, 0x0Du8, 0x0Au8, 0x1Au8, 0x0Au8]);
    if holds_at(bytes, 0, &png) {
        return Some("png");
    }
    let riff: [u8; 4] = [0x52, 0x49, 0x46, 0x46];
    let webp: [u8; 4] = [0x57, 0x45, 0x42, 0x50];
    assert(riff@ =~= seq![0x52u8, 0x49u8, 0x46u8, 0x46u8]);
    assert(webp@ =~= seq![0x57u8, 0x45u8, 0x42u8, 0x50u8]);
    if bytes.len() >= 12 && holds_at(bytes, 0, &riff) && holds_at(bytes, 8, &webp) {
        return Some("webp");
    }
    None
}

/// Bytes are a jpeg exactly where they begin with FF D8 FF, whatever follows; a
/// png exactly where they begin with the eight bytes of its signature; a webp
/// exactly where they begin with `RIFF`, and `WEBP` stands behind the next four
/// bytes; and no other bytes are an image.
pub proof fn law_what_each_format_begins_with(bytes: Seq<u8>)
    ensures
        image_extension(bytes) == Some("jpg"@) <==> bytes.len() >= 3 && bytes[0] == 0xFF && bytes[1]
            == 0xD8 && bytes[2] == 0xFF,
        image_extension(bytes) == Some("png"@) <==> bytes.len() >= 8 && bytes[0] == 0x89 && bytes[1]
            == 0x50 && bytes[2] == 0x4E && bytes[3] == 0x47 && bytes[4] == 0x0D && bytes[5] == 0x0A
            && bytes[6] == 0x1A && bytes[7] == 0x0A,
        image_extension(bytes) == Some("webp"@) <==> bytes.len() >= 12 && bytes[0] == 0x52
            && bytes[1] == 0x49 && bytes[2] == 0x46 && bytes[3] == 0x46 && bytes[8] == 0x57
            && bytes[9] == 0x45 && bytes[10] == 0x42 && bytes[11] == 0x50,
        image_extension(bytes) is None || image_extension(bytes) == Some("jpg"@) || image_extension(
            bytes,
        ) == Some("png"@) || image_extension(bytes) == Some("webp"@),
{
    reveal_strlit("jpg");
    reveal_strlit("png");
    reveal_strlit("webp");
    assert("jpg"@[0] == 'j' && "png"@[0] == 'p' && "webp"@[0] == 'w');
    let jpeg = seq![0xFFu8, 0xD8u8, 0xFFu8];
    let png = seq![0x89u8, 0x50u8, 0x4Eu8, 0x47u8, 0x0Du8, 0x0Au8, 0x1Au8, 0x0Au8];
    let riff = seq![0x52u8, 0x49u8, 0x46u8, 0x46u8];
    let webp = seq![0x57u8, 0x45u8, 0x42u8, 0x50u8];
    if bytes.len() >= 3 {
        let head = bytes.take(3);
        assert(head[0] == bytes[0] && head[1] == bytes[1] && head[2] == bytes[2]);
        if bytes[0] == 0xFF && bytes[1] == 0xD8 && bytes[2] == 0xFF {
            assert(head =~= jpeg);
        }
    }
    if bytes.len() >= 8 {
        let head = bytes.take(8);
        assert(forall|i: int| 0 <= i < 8 ==> head[i] == bytes[i]);
        if bytes[0] == 0x89 && bytes[1] == 0x50 && bytes[2] == 0x4E && bytes[3] == 0x47 && bytes[4]
            == 0x0D && bytes[5] == 0x0A && bytes[6] == 0x1A && bytes[7] == 0x0A {
            assert(head =~= png);
        }
        if head == png {
            assert(png[0] == 0x89 && png[1] == 0x50 && png[2] == 0x4E && png[3] == 0x47 && png[4]
                == 0x0D && png[5] == 0x0A && png[6] == 0x1A && png[7] == 0x0A);
        }
    }
    if bytes.len() >= 12 {
        let head = bytes.take(4);
        let tail = bytes.skip(8).take(4);
        assert(forall|i: int| 0 <= i < 4 ==> head[i] == bytes[i]);
        assert(forall|i: int| 0 <= i < 4 ==> tail[i] == bytes[8 + i]);
        assert(tail[0] == bytes[8] && tail[1] == bytes[9] && tail[2] == bytes[10] && tail[3]
            == bytes[11]);
        if head == riff {
            assert(riff[0] == 0x52 && riff[1] == 0x49 && riff[2] == 0x46 && riff[3] == 0x46);
        }
        if tail == webp {
            assert(webp[0] == 0x57 && webp[1] == 0x45 && webp[2] == 0x42 && webp[3] == 0x50);
        }
        if bytes[0] == 0x52 && bytes[1] == 0x49 && bytes[2] == 0x46 && bytes[3] == 0x46 {
            assert(head =~= riff);
        }
        if bytes[8] == 0x57 && bytes[9] == 0x45 && bytes[10] == 0x42 && bytes[11] == 0x50 {
            assert(tail =~= webp);
        }
    }
}

/// A payload that decodes is accepted exactly where it has at most 783,360
/// bytes, which is three quarters of a mebibyte without three kibibytes; a
/// larger one is told both sizes.
pub proof fn law_how_much_one_message_carries(bytes: Seq<u8>)
    requires
        bytes.len() <= u64::MAX,
    ensures
        payload_refusal(Ok(bytes)) is None <==> bytes.len() <= 783_360,
        bytes.len() > 783_360 ==> payload_refusal(Ok(bytes)) == Some(
            ErrorView::TooLarge { size: bytes.len() as u64, limit: 783_360 },
        ),
{
}

/// A file with a name is stored whatever its bytes are; one without a name only
/// where its bytes are an image's. Nothing else is looked at but the size.
pub proof fn law_what_one_message_may_store(bytes: Seq<u8>, named: bool)
    requires
        bytes.len() <= 783_360,
    ensures
        create_refusal(Ok(bytes), true) is None,
        create_refusal(Ok(bytes), false) is None <==> image_extension(bytes) is Some,
        create_refusal(Ok(bytes), false) is Some ==> create_refusal(Ok(bytes), false) == Some(
            ErrorView::UnsupportedFormat,
        ),
{
}

/// How many bytes of a stored file decide its format.
pub const SNIFFED_BYTES: usize = 12;

/// The first bytes decide the format: a stored file need not be read whole.
pub proof fn law_the_head_decides_the_format(bytes: Seq<u8>, head: Seq<u8>)
    requires
        head.len() == (if bytes.len() < SNIFFED_BYTES {
            bytes.len()
        } else {
            SNIFFED_BYTES as nat
        }),
        head == bytes.take(head.len() as int),
    ensures
        image_extension(head) == image_extension(bytes),
{
    assert forall|n: int| 0 <= n <= head.len() implies #[trigger] head.take(n) == bytes.take(n) by {
        assert(head.take(n) =~= bytes.take(n));
    }
    if bytes.len() >= 12 {
        assert(head.skip(8).take(4) =~= bytes.skip(8).take(4));
    } else {
        assert(head =~= bytes);
    }
}

// ---- One message -----------------------------------------------------------------------------

/// An attachment that is ready to be stored.
#[derive(Clone, Debug, PartialEq, Eq)]
pub struct CreatePlan {
    pub bytes: Vec<u8>,
    /// The client's name, sanitized; absent where it gave none.
    pub safe: Option<String>,
    /// The extension that the bytes dictate, where they do.
    pub sniffed: Option<&'static str>,
}

/// Why a decoded attachment is refused, where it is. The format has to be an
/// image's exactly where the client names no file.
pub open spec fn create_refusal(
    decoded: Result<Seq<u8>, Seq<char>>,
    named: bool,
) -> Option<ErrorView> {
    match payload_refusal(decoded) {
        Some(refusal) => Some(refusal),
        None => if !named && image_extension(decoded->Ok_0) is None {
            Some(ErrorView::UnsupportedFormat)
        } else {
            None
        },
    }
}

/// Whether a plan stores some bytes under a client's name.
pub open spec fn plans(plan: CreatePlan, bytes: Seq<u8>, name: Option<Seq<char>>) -> bool {
    &&& plan.bytes@ == bytes
    &&& view_of(plan.safe) == (match name {
        Some(name) => Some(sanitized(name)),
        None => None,
    })
    &&& str_view(plan.sniffed) == image_extension(bytes)
}

/// The plan for a decoded attachment. The order is the contract's: decode,
/// size, format.
pub fn plan_decoded_create(decoded: Result<Vec<u8>, String>, name: Option<&str>) -> (plan: Result<
    CreatePlan,
    AttachmentError,
>)
    ensures
        match plan {
            Ok(plan) => create_refusal(decoding_view(decoded), name is Some) is None && plans(
                plan,
                decoded->Ok_0@,
                str_view(name),
            ),
            Err(error) => create_refusal(decoding_view(decoded), name is Some) == Some(error@),
        },
{
    let bytes = match accept_payload(decoded) {
        Ok(bytes) => bytes,
        Err(error) => {
            return Err(error);
        },
    };
    let sniffed = sniff_image_extension(&bytes);
    let safe = match name {
        None => {
            if sniffed.is_none() {
                return Err(AttachmentError::UnsupportedFormat);
            }
            None
        },
        Some(name) => Some(sanitize_name(name)),
    };
    Ok(CreatePlan { bytes, safe, sniffed })
}

/// The plan for an attachment that came in one message.
pub fn plan_create(params: &AttachmentCreateParams) -> (plan: Result<CreatePlan, AttachmentError>)
    ensures
        ({
            let decoded = base64_decoded(trimmed(params.bytes_b64@));
            match plan {
                Ok(plan) => create_refusal(decoded, params.name is Some) is None && plans(
                    plan,
                    decoded->Ok_0,
                    view_of(params.name),
                ),
                Err(error) => create_refusal(decoded, params.name is Some) == Some(error@),
            }
        }),
{
    let decoded = decode_payload(&params.bytes_b64);
    plan_decoded_create(decoded, borrowed(&params.name))
}

/// Every error is told by a code of its own, and a payload that does not decode
/// by that of any wrong parameter.
pub proof fn law_which_code_an_error_is_told_by(
    id: String,
    error: AttachmentError,
    response: Response,
)
    requires
        call_ensures(respond, (id, Err::<ResponseResult, AttachmentError>(error)), response),
    ensures
        response matches Response::Error(failed) && failed.id@ == id@ && failed.error.code@ == (
        match error {
            AttachmentError::InvalidBase64(_) => "invalid_params"@,
            AttachmentError::TooLarge { .. } => "attachment_too_large"@,
            AttachmentError::UnsupportedFormat => "attachment_unsupported_format"@,
            AttachmentError::UnknownUpload => "attachment_unknown_upload"@,
            AttachmentError::OffsetMismatch { .. } => "attachment_offset_mismatch"@,
            AttachmentError::SizeMismatch { .. } => "attachment_size_mismatch"@,
            AttachmentError::Storage(_) => "attachment_storage_failed"@,
        }),
{
}

/// Expired files are swept every hour, and a format shows in twelve bytes.
pub proof fn law_how_often_files_are_swept()
    ensures
        SWEEP_INTERVAL_SECS * 24 == ATTACHMENT_TTL_SECS,
        ATTACHMENT_TTL_SECS == 86_400,
        SNIFFED_BYTES == 12,
{
}

/// What was sniffed goes by the first bytes alone: whatever follows the three of
/// a jpeg, the eight of a png or the head of a webp changes nothing.
pub proof fn law_what_follows_the_head_changes_nothing(
    bytes: &[u8],
    length: Seq<u8>,
    rest: Seq<u8>,
    extension: Option<&'static str>,
)
    requires
        call_ensures(sniff_image_extension, (bytes,), extension),
        length.len() == 4,
    ensures
        bytes@ == seq![0xFFu8, 0xD8, 0xFF] + rest ==> str_view(extension) == Some("jpg"@),
        bytes@ == seq![0x89u8, 0x50, 0x4E, 0x47, 0x0D, 0x0A, 0x1A, 0x0A] + rest ==> str_view(
            extension,
        ) == Some("png"@),
        bytes@ == seq![0x52u8, 0x49, 0x46, 0x46] + length + seq![0x57u8, 0x45, 0x42, 0x50] + rest
            ==> str_view(extension) == Some("webp"@),
        bytes@.len() < 3 ==> extension is None,
{
    if bytes@ == seq![0x52u8, 0x49, 0x46, 0x46] + length + seq![0x57u8, 0x45, 0x42, 0x50] + rest {
        let head = seq![0x52u8, 0x49, 0x46, 0x46] + length;
        assert(head.len() == 8);
        assert(bytes@[0] == 0x52 && bytes@[1] == 0x49 && bytes@[2] == 0x46 && bytes@[3] == 0x46);
        assert(bytes@[8] == 0x57 && bytes@[9] == 0x45 && bytes@[10] == 0x42 && bytes@[11] == 0x50);
    }
}

} // verus!
