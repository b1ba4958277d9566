//! Chunked uploads: beginning one, appending to it and committing it.
//!
//! The partial file's own size is the upload's state. An append whose offset
//! does not match it is refused, never reconciled, so a repeated or reordered
//! append can never corrupt a file.

use crate::attachment::{
    accept_payload, base64_decoded, decode_payload, payload_refusal, AttachmentError, ErrorView,
    FREE_SPACE_MARGIN_BYTES, MAX_UPLOAD_BYTES, MAX_UPLOAD_ID_CHARS, UPLOAD_ID_PREFIX,
};
use crate::attachment_name::{sanitize_name, sanitized};
use crate::schema::{AttachmentAppendParams, AttachmentBeginParams, AttachmentCommitParams};
use crate::text::{
    ascii_alphanumeric, decimal, decimal_text, decimal_wide, exceeds, has_prefix,
    is_ascii_alphanumeric, is_ascii_digit, lemma_decimal_text, starts_with, to_chars, trimmed,
    utf8_len,
};
use vstd::prelude::*;

verus! {

// ---- Upload ids ------------------------------------------------------------------------------

/// A character that an upload id may hold.
pub open spec fn is_id_char(c: char) -> bool {
    is_ascii_alphanumeric(c) || c == '.' || c == '_' || c == '-'
}

/// Whether this server could have minted an upload id. The characters exclude
/// both separators, and the prefix rules out the names of the directory and
/// its parent, so such an id names nothing outside the scratch directory.
pub open spec fn is_upload_id(id: Seq<char>) -> bool {
    &&& utf8_len(id) <= MAX_UPLOAD_ID_CHARS
    &&& has_prefix(id, UPLOAD_ID_PREFIX@)
    &&& forall|i: int| 0 <= i < id.len() ==> is_id_char(#[trigger] id[i])
}

/// Whether an upload id could be this server's own. Pure text work: an id
/// that fails here never reaches the filesystem.
pub fn validated_upload_id(upload_id: &str) -> (valid: bool)
    ensures
        valid == is_upload_id(upload_id@),
{
    let chars = to_chars(upload_id);
    if exceeds(&chars, MAX_UPLOAD_ID_CHARS) || !starts_with(&chars, UPLOAD_ID_PREFIX) {
        return false;
    }
    let mut i: usize = 0;
    while i < chars.len()
        invariant
            i <= chars@.len(),
            chars@ == upload_id@,
            forall|j: int| 0 <= j < i ==> is_id_char(#[trigger] chars@[j]),
        decreases chars@.len() - i,
    {
        let c: char = chars[i];
        if !(ascii_alphanumeric(c) || c == '.' || c == '_' || c == '-') {
            assert(!is_id_char(upload_id@[i as int]));
            return false;
        }
        i += 1;
    }
    true
}

/// The upload id of one attempt.
pub open spec fn minted_id(unique: nat, attempt: nat) -> Seq<char> {
    UPLOAD_ID_PREFIX@ + decimal_text(unique) + "-"@ + decimal_text(attempt)
}

/// Mint the upload id of one attempt.
pub fn mint_upload_id(unique: u128, attempt: usize) -> (id: String)
    ensures
        id@ == minted_id(unique as nat, attempt as nat),
{
    let mut id = UPLOAD_ID_PREFIX.to_string();
    id.push_str(&decimal_wide(unique));
    id.push_str("-");
    id.push_str(&decimal(attempt as u64));
    id
}

spec fn power_of_ten(digits: nat) -> nat
    decreases digits,
{
    if digits == 0 {
        1
    } else {
        10 * power_of_ten((digits - 1) as nat)
    }
}

proof fn lemma_decimal_len(value: nat, digits: nat)
    requires
        digits > 0,
        value < power_of_ten(digits),
    ensures
        decimal_text(value).len() <= digits,
    decreases digits,
{
    reveal_with_fuel(power_of_ten, 2);
    if value >= 10 {
        if digits == 1 {
            assert(power_of_ten(1) == 10);
        } else {
            lemma_decimal_len(value / 10, (digits - 1) as nat);
        }
    }
}

proof fn lemma_ascii_bytes(text: Seq<char>)
    requires
        forall|i: int| 0 <= i < text.len() ==> is_id_char(#[trigger] text[i]),
    ensures
        utf8_len(text) == text.len(),
    decreases text.len(),
{
    if text.len() > 0 {
        let front = text.drop_last();
        assert forall|i: int| 0 <= i < front.len() implies is_id_char(#[trigger] front[i]) by {
            assert(front[i] == text[i]);
        }
        lemma_ascii_bytes(front);
        assert(is_id_char(text[text.len() - 1]));
    }
}

/// Every minted id is accepted back.
pub proof fn law_a_minted_id_is_accepted_back(unique: u128, attempt: u64)
    ensures
        is_upload_id(minted_id(unique as nat, attempt as nat)),
{
    let first = decimal_text(unique as nat);
    let second = decimal_text(attempt as nat);
    lemma_decimal_text(unique as nat);
    lemma_decimal_text(attempt as nat);
    assert(power_of_ten(39) > u128::MAX && power_of_ten(20) > u64::MAX) by {
        reveal_with_fuel(power_of_ten, 40);
    }
    lemma_decimal_len(unique as nat, 39);
    lemma_decimal_len(attempt as nat, 20);
    reveal_strlit("upload-");
    reveal_strlit("-");
    let prefix = UPLOAD_ID_PREFIX@;
    let id = minted_id(unique as nat, attempt as nat);
    assert(id.take(prefix.len() as int) =~= prefix);
    assert forall|i: int| 0 <= i < id.len() implies is_id_char(#[trigger] id[i]) by {
        let a = prefix.len() as int;
        let b = a + first.len() as int;
        if i < a {
            assert(id[i] == prefix[i]);
        } else if i < b {
            assert(id[i] == first[i - a]);
            assert(is_ascii_digit(first[i - a]));
        } else if i == b {
            assert(id[i] == '-');
        } else {
            assert(id[i] == second[i - b - 1]);
            assert(is_ascii_digit(second[i - b - 1]));
        }
    }
    lemma_ascii_bytes(id);
}

/// An accepted id holds no separator.
pub proof fn law_an_accepted_id_names_a_file_in_place(id: Seq<char>)
    requires
        is_upload_id(id),
    ensures
        !id.contains('/'),
        !id.contains('\\'),
        id.len() > 2,
{
    reveal_strlit("upload-");
    if id.contains('/') {
        let k = choose|k: int| 0 <= k < id.len() && id[k] == '/';
        assert(is_id_char(id[k]));
    }
    if id.contains('\\') {
        let k = choose|k: int| 0 <= k < id.len() && id[k] == '\\';
        assert(is_id_char(id[k]));
    }
}

// ---- Beginning -------------------------------------------------------------------------------

/// What an upload was begun with.
#[derive(Clone, Debug, PartialEq, Eq)]
pub struct UploadRecord {
    /// The sanitized name that the finished file will wear.
    pub name: String,
    pub size: u64,
}

/// Refuse an upload over the ceiling, before anything touches the disk.
pub fn check_begin(params: &AttachmentBeginParams) -> (verdict: Result<(), AttachmentError>)
    ensures
        match verdict {
            Ok(_) => params.size <= MAX_UPLOAD_BYTES,
            Err(error) => params.size > MAX_UPLOAD_BYTES && error@ == (ErrorView::TooLarge {
                size: params.size,
                limit: MAX_UPLOAD_BYTES,
            }),
        },
{
    if params.size > MAX_UPLOAD_BYTES {
        return Err(AttachmentError::TooLarge { size: params.size, limit: MAX_UPLOAD_BYTES });
    }
    Ok(())
}

/// The free space that an upload demands.
pub open spec fn required_space(size: u64) -> nat {
    if size + FREE_SPACE_MARGIN_BYTES > u64::MAX {
        u64::MAX as nat
    } else {
        (size + FREE_SPACE_MARGIN_BYTES) as nat
    }
}

pub open spec fn no_space_text(available: nat, required: nat) -> Seq<char> {
    "the attachment scratch volume has "@ + decimal_text(available)
        + " bytes free; this upload needs "@ + decimal_text(required)
        + " bytes including its margin"@
}

/// What an upload is begun with, given how much room the volume has or why
/// that is not known.
pub fn plan_begin(params: &AttachmentBeginParams, available: Result<u64, String>) -> (record: Result<
    UploadRecord,
    AttachmentError,
>)
    ensures
        match (record, available) {
            (Ok(record), Ok(available)) => available >= required_space(params.size)
                && record.name@ == sanitized(params.name@) && record.size == params.size,
            (Ok(_), Err(_)) => false,
            (Err(error), Ok(available)) => available < required_space(params.size) && error@
                == ErrorView::Storage(
                no_space_text(available as nat, required_space(params.size)),
            ),
            (Err(error), Err(reason)) => error@ == ErrorView::Storage(reason@),
        },
{
    let required: u64 = params.size.saturating_add(FREE_SPACE_MARGIN_BYTES);
    match available {
        Err(reason) => Err(AttachmentError::Storage(reason)),
        Ok(available) => {
            if available < required {
                let mut text = "the attachment scratch volume has ".to_string();
                text.push_str(&decimal(available));
                text.push_str(" bytes free; this upload needs ");
                text.push_str(&decimal(required));
                text.push_str(" bytes including its margin");
                return Err(AttachmentError::Storage(text));
            }
            Ok(UploadRecord { name: sanitize_name(&params.name), size: params.size })
        },
    }
}

/// An upload that would leave the volume without its margin is refused.
pub proof fn law_an_upload_leaves_the_margin(size: u64, available: u64)
    requires
        available >= required_space(size),
        size <= MAX_UPLOAD_BYTES,
    ensures
        available - size >= FREE_SPACE_MARGIN_BYTES,
{
}

// ---- What is on disk -------------------------------------------------------------------------

/// What reading an upload's record brought.
#[derive(Clone, Debug, PartialEq, Eq)]
pub enum RecordRead {
    Found(UploadRecord),
    Missing,
    /// There is a file, and it is no record.
    Unreadable,
    Failed(String),
}

/// What looking at an upload's partial brought.
#[derive(Clone, Debug, PartialEq, Eq)]
pub enum PartialRead {
    /// A plain file of this size.
    Size(u64),
    Missing,
    /// Something that is no plain file, which is never followed.
    NotAFile,
    Failed(String),
}

/// The upload on disk: the size it was begun with and the bytes it holds, or
/// why there is none.
pub open spec fn upload_on_disk(record: RecordRead, partial: PartialRead) -> Result<
    (u64, u64),
    ErrorView,
> {
    match record {
        RecordRead::Missing => Err(ErrorView::UnknownUpload),
        RecordRead::Unreadable => Err(ErrorView::UnknownUpload),
        RecordRead::Failed(error) => Err(ErrorView::Storage(error@)),
        RecordRead::Found(record) => match partial {
            PartialRead::Size(size) => Ok((record.size, size)),
            PartialRead::Missing => Err(ErrorView::UnknownUpload),
            PartialRead::NotAFile => Err(ErrorView::UnknownUpload),
            PartialRead::Failed(error) => Err(ErrorView::Storage(error@)),
        },
    }
}

/// The record and the size of an upload, or why there is none.
fn find_upload(record: RecordRead, partial: PartialRead) -> (upload: Result<
    (UploadRecord, u64),
    AttachmentError,
>)
    ensures
        match upload {
            Ok(upload) => upload_on_disk(record, partial) == Ok::<(u64, u64), ErrorView>(
                (upload.0.size, upload.1),
            ) && record == RecordRead::Found(upload.0),
            Err(error) => upload_on_disk(record, partial) == Err::<(u64, u64), ErrorView>(error@),
        },
{
    match record {
        RecordRead::Missing => Err(AttachmentError::UnknownUpload),
        RecordRead::Unreadable => Err(AttachmentError::UnknownUpload),
        RecordRead::Failed(error) => Err(AttachmentError::Storage(error)),
        RecordRead::Found(record) => match partial {
            PartialRead::Size(size) => Ok((record, size)),
            PartialRead::Missing => Err(AttachmentError::UnknownUpload),
            PartialRead::NotAFile => Err(AttachmentError::UnknownUpload),
            PartialRead::Failed(error) => Err(AttachmentError::Storage(error)),
        },
    }
}

// ---- Appending -------------------------------------------------------------------------------

/// Why an append is refused before anything touches the disk, where it is.
pub open spec fn append_request_refusal(
    upload_id: Seq<char>,
    decoded: Result<Seq<u8>, Seq<char>>,
) -> Option<ErrorView> {
    if !is_upload_id(upload_id) {
        Some(ErrorView::UnknownUpload)
    } else {
        payload_refusal(decoded)
    }
}

/// The chunk of an append, unless it is refused: the id first, then the
/// payload.
pub fn check_append(params: &AttachmentAppendParams) -> (chunk: Result<Vec<u8>, AttachmentError>)
    ensures
        ({
            let decoded = base64_decoded(trimmed(params.bytes_b64@));
            let refusal = append_request_refusal(params.upload_id@, decoded);
            match chunk {
                Ok(chunk) => refusal is None && decoded == Ok::<Seq<u8>, Seq<char>>(chunk@),
                Err(error) => refusal == Some(error@),
            }
        }),
{
    if !validated_upload_id(&params.upload_id) {
        return Err(AttachmentError::UnknownUpload);
    }
    let decoded = decode_payload(&params.bytes_b64);
    accept_payload(decoded)
}

/// Where an upload stands after a chunk, unless the chunk is refused: it has
/// to start where the partial ends, and to stay within the declared size.
pub open spec fn appended_size(
    upload: Result<(u64, u64), ErrorView>,
    offset: u64,
    chunk: nat,
) -> Result<u64, ErrorView> {
    match upload {
        Err(error) => Err(error),
        Ok((declared, received)) => {
            let after = if received + chunk > u64::MAX {
                u64::MAX
            } else {
                (received + chunk) as u64
            };
            if offset != received {
                Err(ErrorView::OffsetMismatch { received })
            } else if after > declared {
                Err(ErrorView::TooLarge { size: after, limit: declared })
            } else {
                Ok(after)
            }
        },
    }
}

/// Where to write a chunk, unless it is refused.
pub fn plan_append(record: RecordRead, partial: PartialRead, offset: u64, chunk: usize) -> (at: Result<
    u64,
    AttachmentError,
>)
    ensures
        match at {
            Ok(at) => at == offset && appended_size(
                upload_on_disk(record, partial),
                offset,
                chunk as nat,
            ) is Ok,
            Err(error) => appended_size(upload_on_disk(record, partial), offset, chunk as nat)
                == Err::<u64, ErrorView>(error@),
        },
{
    let (record, received) = match find_upload(record, partial) {
        Ok(upload) => upload,
        Err(error) => {
            return Err(error);
        },
    };
    if offset != received {
        return Err(AttachmentError::OffsetMismatch { received });
    }
    let after: u64 = received.saturating_add(chunk as u64);
    if after > record.size {
        return Err(AttachmentError::TooLarge { size: after, limit: record.size });
    }
    Ok(received)
}

// ---- Committing ------------------------------------------------------------------------------

/// Refuse a commit whose id this server never minted.
pub fn check_commit(params: &AttachmentCommitParams) -> (verdict: Result<(), AttachmentError>)
    ensures
        match verdict {
            Ok(_) => is_upload_id(params.upload_id@),
            Err(error) => !is_upload_id(params.upload_id@) && error@ == ErrorView::UnknownUpload,
        },
{
    if !validated_upload_id(&params.upload_id) {
        return Err(AttachmentError::UnknownUpload);
    }
    Ok(())
}

/// Why a commit is refused, where it is: the size that it declares has to be
/// what the partial holds.
pub open spec fn commit_refusal(upload: Result<(u64, u64), ErrorView>, size: u64) -> Option<
    ErrorView,
> {
    match upload {
        Err(error) => Some(error),
        Ok((_, received)) => if received != size {
            Some(ErrorView::SizeMismatch { received, declared: size })
        } else {
            None
        },
    }
}

/// The name under which a finished upload is placed, unless its commit is
/// refused; a refused commit leaves the partial as it was.
pub fn plan_commit(record: RecordRead, partial: PartialRead, size: u64) -> (name: Result<
    String,
    AttachmentError,
>)
    ensures
        match name {
            Ok(name) => commit_refusal(upload_on_disk(record, partial), size) is None && (
            record matches RecordRead::Found(found) && found.name == name),
            Err(error) => commit_refusal(upload_on_disk(record, partial), size) == Some(error@),
        },
{
    let (record, received) = match find_upload(record, partial) {
        Ok(upload) => upload,
        Err(error) => {
            return Err(error);
        },
    };
    if received != size {
        return Err(AttachmentError::SizeMismatch { received, declared: size });
    }
    Ok(record.name)
}

// ---- Whole uploads ---------------------------------------------------------------------------

/// An upload as the disk holds it.
pub ghost struct UploadView {
    pub declared: u64,
    pub content: Seq<u8>,
}

/// What every upload keeps: its declared size is within the ceiling, and it
/// holds no more than that.
pub open spec fn is_upload(upload: UploadView) -> bool {
    upload.declared <= MAX_UPLOAD_BYTES && upload.content.len() <= upload.declared
}

/// An upload is on disk as a record and a partial of its size.
pub open spec fn stored(upload: UploadView) -> Result<(u64, u64), ErrorView> {
    Ok((upload.declared, upload.content.len() as u64))
}

/// An upload after an append, which writes its chunk at the end of the
/// partial or is refused and changes nothing.
pub open spec fn after_append(upload: UploadView, offset: u64, chunk: Seq<u8>) -> UploadView {
    match appended_size(stored(upload), offset, chunk.len()) {
        Ok(_) => UploadView { content: upload.content + chunk, ..upload },
        Err(_) => upload,
    }
}

/// An upload after chunks that were each appended where the one before ended.
pub open spec fn after_chunks(declared: u64, chunks: Seq<Seq<u8>>) -> UploadView
    decreases chunks.len(),
{
    if chunks.len() == 0 {
        UploadView { declared, content: Seq::empty() }
    } else {
        let before = after_chunks(declared, chunks.drop_last());
        after_append(before, before.content.len() as u64, chunks.last())
    }
}

/// The bytes of chunks, one after another.
pub open spec fn joined(chunks: Seq<Seq<u8>>) -> Seq<u8>
    decreases chunks.len(),
{
    if chunks.len() == 0 {
        Seq::empty()
    } else {
        joined(chunks.drop_last()) + chunks.last()
    }
}

/// Chunks that are appended in order land as the whole file, and a commit of
/// its size is then accepted.
pub proof fn law_appends_in_order_build_the_whole_file(declared: u64, chunks: Seq<Seq<u8>>)
    requires
        joined(chunks).len() <= declared,
    ensures
        after_chunks(declared, chunks) == (UploadView { declared, content: joined(chunks) }),
        commit_refusal(
            stored(after_chunks(declared, chunks)),
            joined(chunks).len() as u64,
        ) is None,
    decreases chunks.len(),
{
    if chunks.len() > 0 {
        law_appends_in_order_build_the_whole_file(declared, chunks.drop_last());
    }
}

/// An upload never grows past the size it was begun with, which no append
/// changes.
pub proof fn law_an_upload_stays_within_its_declared_size(
    upload: UploadView,
    offset: u64,
    chunk: Seq<u8>,
)
    requires
        is_upload(upload),
    ensures
        is_upload(after_append(upload, offset, chunk)),
        after_append(upload, offset, chunk).declared == upload.declared,
{
}

/// A chunk that arrives a second time, or too early, is refused, and the
/// upload stays as it was.
pub proof fn law_a_repeated_append_changes_nothing(
    upload: UploadView,
    offset: u64,
    chunk: Seq<u8>,
)
    requires
        is_upload(upload),
        chunk.len() > 0,
    ensures
        ({
            let once = after_append(upload, offset, chunk);
            after_append(once, offset, chunk) == once
        }),
        offset != upload.content.len() ==> after_append(upload, offset, chunk) == upload,
{
}

/// A commit whose size disagrees with what has arrived is refused, with both
/// sizes.
pub proof fn law_a_disagreeing_commit_is_refused(upload: UploadView, size: u64)
    requires
        is_upload(upload),
        size != upload.content.len(),
    ensures
        commit_refusal(stored(upload), size) == Some(
            ErrorView::SizeMismatch { received: upload.content.len() as u64, declared: size },
        ),
{
}

/// An upload id is accepted exactly where it is at most 128 characters, begins
/// with `upload-`, and holds only letters, digits, dots, underscores and
/// hyphens.
pub proof fn law_which_upload_ids_are_accepted(id: Seq<char>)
    ensures
        is_upload_id(id) <==> id.len() <= 128 && has_prefix(
            id,
            seq!['u', 'p', 'l', 'o', 'a', 'd', '-'],
        ) && forall|i: int|
            0 <= i < id.len() ==> {
                let c = #[trigger] id[i];
                'a' <= c <= 'z' || 'A' <= c <= 'Z' || '0' <= c <= '9' || c == '.' || c == '_' || c
                    == '-'
            },
{
    reveal_strlit("upload-");
    assert(UPLOAD_ID_PREFIX@ =~= seq!['u', 'p', 'l', 'o', 'a', 'd', '-']);
    if forall|i: int| 0 <= i < id.len() ==> is_id_char(#[trigger] id[i]) {
        lemma_ascii_bytes(id);
        assert forall|i: int| 0 <= i < id.len() implies {
            let c = #[trigger] id[i];
            'a' <= c <= 'z' || 'A' <= c <= 'Z' || '0' <= c <= '9' || c == '.' || c == '_' || c == '-'
        } by {
            assert(is_id_char(id[i]));
        }
    }
    if forall|i: int|
        0 <= i < id.len() ==> {
            let c = #[trigger] id[i];
            'a' <= c <= 'z' || 'A' <= c <= 'Z' || '0' <= c <= '9' || c == '.' || c == '_' || c == '-'
        } {
        assert forall|i: int| 0 <= i < id.len() implies is_id_char(#[trigger] id[i]) by {
            let c = id[i];
        }
        lemma_ascii_bytes(id);
    }
}

/// An upload may declare up to 64 mebibytes, and is begun exactly where the
/// volume has that much and 64 mebibytes more.
pub proof fn law_how_much_an_upload_may_hold(
    params: AttachmentBeginParams,
    available: u64,
    verdict: Result<(), AttachmentError>,
    record: Result<UploadRecord, AttachmentError>,
)
    ensures
        call_ensures(check_begin, (&params,), verdict) ==> (verdict is Ok <==> params.size
            <= 67_108_864),
        params.size <= 67_108_864 && call_ensures(
            plan_begin,
            (&params, Ok::<u64, String>(available)),
            record,
        ) ==> (record is Ok <==> available >= params.size + 67_108_864),
        call_ensures(plan_begin, (&params, Ok::<u64, String>(available)), record) && record is Ok
            ==> record->Ok_0.size == params.size,
{
}

/// A chunk is taken exactly where it starts where the partial ends and where
/// what it makes is within the declared size; the upload then stands at the
/// sum. Otherwise the client is told how much has arrived, or both sizes.
pub proof fn law_when_a_chunk_is_taken(declared: u64, received: u64, offset: u64, chunk: nat)
    requires
        received + chunk <= u64::MAX,
    ensures
        ({
            let after = appended_size(Ok((declared, received)), offset, chunk);
            &&& after is Ok <==> offset == received && received + chunk <= declared
            &&& after matches Ok(size) ==> size == received + chunk
            &&& offset != received ==> after == Err::<u64, ErrorView>(
                ErrorView::OffsetMismatch { received },
            )
            &&& offset == received && received + chunk > declared ==> after == Err::<
                u64,
                ErrorView,
            >(ErrorView::TooLarge { size: (received + chunk) as u64, limit: declared })
        }),
{
}

/// A commit is accepted exactly where the size that it declares is what has
/// arrived; otherwise it is told both.
pub proof fn law_when_a_commit_is_accepted(declared: u64, received: u64, size: u64)
    ensures
        commit_refusal(Ok((declared, received)), size) is None <==> size == received,
        size != received ==> commit_refusal(Ok((declared, received)), size) == Some(
            ErrorView::SizeMismatch { received, declared: size },
        ),
{
}

/// An upload without a record, or with one that does not read, or without a
/// plain partial, is unknown; trouble with the disk is told as trouble.
pub proof fn law_which_uploads_are_unknown(
    record: UploadRecord,
    size: u64,
    error: String,
)
    ensures
        upload_on_disk(RecordRead::Missing, PartialRead::Size(size)) == Err::<
            (u64, u64),
            ErrorView,
        >(ErrorView::UnknownUpload),
        upload_on_disk(RecordRead::Unreadable, PartialRead::Size(size)) == Err::<
            (u64, u64),
            ErrorView,
        >(ErrorView::UnknownUpload),
        upload_on_disk(RecordRead::Found(record), PartialRead::Missing) == Err::<
            (u64, u64),
            ErrorView,
        >(ErrorView::UnknownUpload),
        upload_on_disk(RecordRead::Found(record), PartialRead::NotAFile) == Err::<
            (u64, u64),
            ErrorView,
        >(ErrorView::UnknownUpload),
        upload_on_disk(RecordRead::Failed(error), PartialRead::Size(size)) == Err::<
            (u64, u64),
            ErrorView,
        >(ErrorView::Storage(error@)),
        upload_on_disk(RecordRead::Found(record), PartialRead::Failed(error)) == Err::<
            (u64, u64),
            ErrorView,
        >(ErrorView::Storage(error@)),
        upload_on_disk(RecordRead::Found(record), PartialRead::Size(size)) == Ok::<
            (u64, u64),
            ErrorView,
        >((record.size, size)),
{
}

/// A minted id tells the moment and the attempt, each in decimal digits.
pub proof fn law_what_a_minted_id_looks_like(unique: u128, attempt: usize, id: String)
    requires
        call_ensures(mint_upload_id, (unique, attempt), id),
    ensures
        id@ == "upload-"@ + decimal_text(unique as nat) + "-"@ + decimal_text(attempt as nat),
{
}

/// An upload id is validated by its text: up to 128 letters, digits, dots,
/// underscores and hyphens behind `upload-`, and nothing else.
pub proof fn law_what_validates_an_upload_id(upload_id: &str, rest: Seq<char>, valid: bool)
    requires
        call_ensures(validated_upload_id, (upload_id,), valid),
        upload_id@ == seq!['u', 'p', 'l', 'o', 'a', 'd', '-'] + rest,
    ensures
        valid <==> rest.len() <= 121 && forall|i: int|
            0 <= i < rest.len() ==> {
                let c = #[trigger] rest[i];
                'a' <= c <= 'z' || 'A' <= c <= 'Z' || '0' <= c <= '9' || c == '.' || c == '_' || c
                    == '-'
            },
{
    let head = seq!['u', 'p', 'l', 'o', 'a', 'd', '-'];
    let id = upload_id@;
    law_which_upload_ids_are_accepted(id);
    assert(id.take(7) =~= head);
    assert(has_prefix(id, head));
    if valid {
        assert forall|i: int| 0 <= i < rest.len() implies {
            let c = #[trigger] rest[i];
            'a' <= c <= 'z' || 'A' <= c <= 'Z' || '0' <= c <= '9' || c == '.' || c == '_' || c == '-'
        } by {
            assert(id[i + 7] == rest[i]);
        }
    }
    if forall|i: int|
        0 <= i < rest.len() ==> {
            let c = #[trigger] rest[i];
            'a' <= c <= 'z' || 'A' <= c <= 'Z' || '0' <= c <= '9' || c == '.' || c == '_' || c == '-'
        } {
        assert forall|i: int| 0 <= i < id.len() implies {
            let c = #[trigger] id[i];
            'a' <= c <= 'z' || 'A' <= c <= 'Z' || '0' <= c <= '9' || c == '.' || c == '_' || c == '-'
        } by {
            if i < 7 {
                assert(id[i] == head[i]);
            } else {
                assert(id[i] == rest[i - 7]);
            }
        }
    }
}

} // verus!
