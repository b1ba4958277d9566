//! What placing a file and carrying an upload leave in the scratch directory.
//!
//! The directory is modelled as what stands in it: each name with its bytes.
//! An operation of the filesystem changes that as its outcome says; what is to
//! be taken away is taken away.

use crate::attachment::{ErrorView, MAX_ATTEMPTS, PARTIAL_SUFFIX, RECORD_SUFFIX};
use crate::attachment_name::{attempt_name, FinalName};
use crate::paths::child;
use crate::scratch::{
    places, reserves, FileOutcome, PlaceAction, PlaceStep, Placement, Reservation, ReserveAction,
    ReserveStep,
};
use crate::upload::{
    appended_size, commit_refusal, is_upload_id, joined, law_a_minted_id_is_accepted_back,
    minted_id, upload_on_disk, PartialRead, RecordRead, UploadRecord,
};
use vstd::prelude::*;

verus! {

/// What stands in the directory: the bytes of each file, by its name.
pub type Files = Map<Seq<char>, Seq<u8>>;

/// Two directories hold the same file under a name, or neither holds one.
pub open spec fn agree_on(one: Files, other: Files, name: Seq<char>) -> bool {
    one.dom().contains(name) == other.dom().contains(name) && (one.dom().contains(name)
        ==> one[name] == other[name])
}

// ---- Operations ------------------------------------------------------------------------------

/// What making a file does that must not exist yet, with some bytes. One that
/// fails on the way may leave a file with other bytes behind.
pub open spec fn makes(
    before: Files,
    name: Seq<char>,
    bytes: Seq<u8>,
    outcome: FileOutcome,
    after: Files,
) -> bool {
    match outcome {
        FileOutcome::Done => !before.dom().contains(name) && after == before.insert(name, bytes),
        FileOutcome::Taken(_) => before.dom().contains(name) && after == before,
        FileOutcome::Failed(_) => {
            ||| after == before
            ||| !before.dom().contains(name) && after.dom().contains(name) && after
                == before.insert(name, after[name])
        },
    }
}

/// What renaming a file does: it replaces what stood under the new name, so
/// that no name is taken for it.
pub open spec fn renames(
    before: Files,
    from: Seq<char>,
    to: Seq<char>,
    outcome: FileOutcome,
    after: Files,
) -> bool {
    match outcome {
        FileOutcome::Done => before.dom().contains(from) && after == before.remove(from).insert(
            to,
            before[from],
        ),
        FileOutcome::Taken(_) => false,
        FileOutcome::Failed(_) => after == before,
    }
}

// ---- Placing a file --------------------------------------------------------------------------

/// How the bytes of a file get beside its final name.
pub ghost enum Source {
    /// They are written there.
    Bytes(Seq<u8>),
    /// The file under this name is moved there.
    File(Seq<char>),
}

/// A placement under way, and the directory it works on.
pub ghost struct Placing {
    pub placement: Placement,
    pub action: PlaceAction,
    pub files: Files,
}

pub open spec fn final_of(placement: Placement) -> Seq<char> {
    attempt_name(placement.name@, placement.attempt as nat)
}

pub open spec fn staged_of(placement: Placement) -> Seq<char> {
    final_of(placement) + PARTIAL_SUFFIX@
}

/// What the next operation of a placement does to the directory.
pub open spec fn operates(
    source: Source,
    state: Placing,
    outcome: FileOutcome,
    after: Files,
) -> bool {
    let place = final_of(state.placement);
    let staged = staged_of(state.placement);
    match state.action {
        PlaceAction::Reserve => makes(state.files, place, Seq::empty(), outcome, after) && (outcome
            is Failed ==> after == state.files),
        PlaceAction::Stage => match source {
            Source::Bytes(bytes) => makes(state.files, staged, bytes, outcome, after) && (
            state.files.dom().contains(staged) ==> outcome is Taken),
            Source::File(from) => renames(state.files, from, staged, outcome, after),
        },
        PlaceAction::Rename => renames(state.files, staged, place, outcome, after),
        _ => false,
    }
}

/// The directory once a step took away what it says of an attempt.
pub open spec fn cleared(files: Files, attempt: Placement, step: PlaceStep) -> Files {
    let first = if step.remove_staged {
        files.remove(staged_of(attempt))
    } else {
        files
    };
    if step.remove_reservation {
        first.remove(final_of(attempt))
    } else {
        first
    }
}

/// One operation of a placement and the step that follows it.
pub open spec fn goes_on(
    source: Source,
    state: Placing,
    outcome: FileOutcome,
    worked: Files,
    step: PlaceStep,
    next: Placing,
) -> bool {
    &&& operates(source, state, outcome, worked)
    &&& places(state.placement, outcome, next.placement, step)
    &&& next.placement.name == state.placement.name
    &&& next.placement.attempt < MAX_ATTEMPTS
    &&& next.action == step.action
    &&& next.files == cleared(worked, state.placement, step)
}

/// A placement from its beginning, through operations with these outcomes.
pub open spec fn placing(
    source: Source,
    name: FinalName,
    files: Files,
    outcomes: Seq<FileOutcome>,
    state: Placing,
) -> bool
    decreases outcomes.len(),
{
    if outcomes.len() == 0 {
        &&& state.placement.name == name
        &&& state.placement.attempt == 0
        &&& state.placement.phase is Reserving
        &&& state.action is Reserve
        &&& state.files == files
    } else {
        exists|before: Placing, worked: Files, step: PlaceStep|
            placing(source, name, files, outcomes.drop_last(), before) && #[trigger] goes_on(
                source,
                before,
                outcomes.last(),
                worked,
                step,
                state,
            )
    }
}

/// Whether a source is apart from every name that a placement works with.
pub open spec fn stands_apart(source: Source, name: FinalName) -> bool {
    source matches Source::File(from) ==> forall|attempt: nat|
        from != #[trigger] attempt_name(name@, attempt) && from != attempt_name(name@, attempt)
            + PARTIAL_SUFFIX@
}

/// The directory with the bytes beside the final name.
pub open spec fn staged_files(source: Source, files: Files, staged: Seq<char>) -> Files {
    match source {
        Source::Bytes(bytes) => files.insert(staged, bytes),
        Source::File(from) => files.remove(from).insert(staged, files[from]),
    }
}

/// The directory with the file in its place.
pub open spec fn placed_files(
    source: Source,
    files: Files,
    place: Seq<char>,
    staged: Seq<char>,
) -> Files {
    match source {
        Source::Bytes(bytes) => files.insert(place, bytes),
        Source::File(from) => files.remove(from).remove(staged).insert(place, files[from]),
    }
}

/// Whether an attempt finds its names taken.
pub open spec fn is_taken(source: Source, name: FinalName, files: Files, attempt: nat) -> bool {
    let place = attempt_name(name@, attempt);
    files.dom().contains(place) || (source is Bytes && files.dom().contains(
        place + PARTIAL_SUFFIX@,
    ))
}

spec fn holds(source: Source, name: FinalName, files: Files, state: Placing) -> bool {
    let place = final_of(state.placement);
    let staged = staged_of(state.placement);
    &&& state.placement.name == name
    &&& state.placement.attempt < MAX_ATTEMPTS
    &&& match state.action {
        PlaceAction::Reserve => state.placement.phase is Reserving && state.files == files,
        PlaceAction::Stage => state.placement.phase is Staging && !files.dom().contains(place)
            && state.files == files.insert(place, Seq::empty()),
        PlaceAction::Rename => {
            &&& state.placement.phase is Renaming
            &&& !files.dom().contains(place)
            &&& source matches Source::Bytes(_) ==> !files.dom().contains(staged)
            &&& source matches Source::File(from) ==> files.dom().contains(from)
            &&& state.files == staged_files(
                source,
                files.insert(place, Seq::empty()),
                staged,
            )
        },
        PlaceAction::Placed => {
            &&& !files.dom().contains(place)
            &&& source matches Source::File(from) ==> files.dom().contains(from)
            &&& state.files == placed_files(source, files, place, staged)
        },
        PlaceAction::Fail(_) => match source {
            Source::Bytes(_) => state.files == files,
            Source::File(_) => true,
        },
    }
}

proof fn lemma_names_apart(place: Seq<char>)
    ensures
        place != place + PARTIAL_SUFFIX@,
{
    reveal_strlit(".partial");
    assert((place + PARTIAL_SUFFIX@).len() == place.len() + 8);
}

proof fn lemma_step_holds(
    source: Source,
    name: FinalName,
    files: Files,
    before: Placing,
    outcome: FileOutcome,
    worked: Files,
    step: PlaceStep,
    next: Placing,
)
    requires
        stands_apart(source, name),
        holds(source, name, files, before),
        goes_on(source, before, outcome, worked, step, next),
    ensures
        holds(source, name, files, next),
{
    let place = final_of(before.placement);
    let staged = staged_of(before.placement);
    lemma_names_apart(place);
    if let Source::File(from) = source {
        assert(from != attempt_name(name@, before.placement.attempt as nat));
    }
    match before.action {
        PlaceAction::Reserve => {},
        PlaceAction::Stage => {
            let reserved = files.insert(place, Seq::empty());
            if outcome is Done {
                assert(next.files =~= staged_files(source, reserved, staged));
            } else {
                match source {
                    Source::Bytes(_) => {
                        assert(next.files =~= files);
                    },
                    Source::File(_) => {
                        assert(worked == before.files);
                    },
                }
            }
        },
        PlaceAction::Rename => {
            if outcome is Done {
                assert(next.files =~= placed_files(source, files, place, staged));
            } else if source is Bytes {
                assert(next.files =~= files);
            }
        },
        _ => {},
    }
}

proof fn lemma_placing_holds(
    source: Source,
    name: FinalName,
    files: Files,
    outcomes: Seq<FileOutcome>,
    state: Placing,
)
    requires
        stands_apart(source, name),
        placing(source, name, files, outcomes, state),
    ensures
        holds(source, name, files, state),
    decreases outcomes.len(),
{
    if outcomes.len() > 0 {
        let (before, worked, step) = choose|before: Placing, worked: Files, step: PlaceStep|
            placing(source, name, files, outcomes.drop_last(), before) && #[trigger] goes_on(
                source,
                before,
                outcomes.last(),
                worked,
                step,
                state,
            );
        lemma_placing_holds(source, name, files, outcomes.drop_last(), before);
        lemma_step_holds(
            source,
            name,
            files,
            before,
            outcomes.last(),
            worked,
            step,
            state,
        );
    }
}

/// A file that was written and placed is the only one that was added: it
/// holds exactly the bytes, under a name that nothing had, every earlier file
/// is as it was, and neither reservation nor staged file is left behind.
pub proof fn law_a_placed_file_is_all_that_is_added(
    name: FinalName,
    bytes: Seq<u8>,
    files: Files,
    outcomes: Seq<FileOutcome>,
    end: Placing,
)
    requires
        placing(Source::Bytes(bytes), name, files, outcomes, end),
        end.action is Placed,
    ensures
        !files.dom().contains(final_of(end.placement)),
        end.files == files.insert(final_of(end.placement), bytes),
        end.files[final_of(end.placement)] == bytes,
        forall|other: Seq<char>|
            files.dom().contains(other) ==> #[trigger] end.files.dom().contains(other)
                && end.files[other] == files[other],
{
    lemma_placing_holds(Source::Bytes(bytes), name, files, outcomes, end);
}

/// A file that was to be written and could not be placed leaves the directory
/// as it was.
pub proof fn law_a_failed_placement_leaves_the_directory_as_it_was(
    name: FinalName,
    bytes: Seq<u8>,
    files: Files,
    outcomes: Seq<FileOutcome>,
    end: Placing,
)
    requires
        placing(Source::Bytes(bytes), name, files, outcomes, end),
        end.action is Fail,
    ensures
        end.files == files,
{
    lemma_placing_holds(Source::Bytes(bytes), name, files, outcomes, end);
}

/// Two files that are written under one name get two paths: the second is
/// placed elsewhere, and the first still holds what was written to it, as does
/// every other file that was there.
pub proof fn law_a_second_file_of_a_name_never_clobbers_the_first(
    dir: Seq<char>,
    name: FinalName,
    first_bytes: Seq<u8>,
    second_bytes: Seq<u8>,
    files: Files,
    first_outcomes: Seq<FileOutcome>,
    first: Placing,
    second_outcomes: Seq<FileOutcome>,
    second: Placing,
)
    requires
        placing(Source::Bytes(first_bytes), name, files, first_outcomes, first),
        first.action is Placed,
        placing(Source::Bytes(second_bytes), name, first.files, second_outcomes, second),
        second.action is Placed,
    ensures
        child(dir, final_of(first.placement)) != child(dir, final_of(second.placement)),
        second.files == files.insert(final_of(first.placement), first_bytes).insert(
            final_of(second.placement),
            second_bytes,
        ),
        second.files[final_of(first.placement)] == first_bytes,
        second.files[final_of(second.placement)] == second_bytes,
        forall|other: Seq<char>|
            files.dom().contains(other) ==> #[trigger] second.files.dom().contains(other)
                && second.files[other] == files[other],
{
    law_a_placed_file_is_all_that_is_added(name, first_bytes, files, first_outcomes, first);
    law_a_placed_file_is_all_that_is_added(
        name,
        second_bytes,
        first.files,
        second_outcomes,
        second,
    );
    let one = final_of(first.placement);
    let two = final_of(second.placement);
    assert(first.files.dom().contains(one));
    if child(dir, one) == child(dir, two) {
        lemma_child_keeps_the_name(dir, one, two);
    }
}

proof fn lemma_child_keeps_the_name(dir: Seq<char>, one: Seq<char>, two: Seq<char>)
    requires
        child(dir, one) == child(dir, two),
    ensures
        one == two,
{
    let left = child(dir, one);
    assert(left.skip(left.len() - one.len()) =~= one);
    assert(left.skip(left.len() - two.len()) =~= two);
}

spec fn found_taken(source: Source, name: FinalName, files: Files, state: Placing) -> bool {
    if state.action is Fail {
        forall|attempt: nat|
            attempt < MAX_ATTEMPTS ==> #[trigger] is_taken(source, name, files, attempt)
    } else {
        forall|attempt: nat|
            attempt < state.placement.attempt ==> #[trigger] is_taken(source, name, files, attempt)
    }
}

proof fn lemma_placing_found_taken(
    source: Source,
    name: FinalName,
    files: Files,
    outcomes: Seq<FileOutcome>,
    state: Placing,
)
    requires
        stands_apart(source, name),
        placing(source, name, files, outcomes, state),
        forall|i: int| 0 <= i < outcomes.len() ==> !(#[trigger] outcomes[i] is Failed),
    ensures
        found_taken(source, name, files, state),
    decreases outcomes.len(),
{
    if outcomes.len() > 0 {
        let (before, worked, step) = choose|before: Placing, worked: Files, step: PlaceStep|
            placing(source, name, files, outcomes.drop_last(), before) && #[trigger] goes_on(
                source,
                before,
                outcomes.last(),
                worked,
                step,
                state,
            );
        assert forall|i: int| 0 <= i < outcomes.len() - 1 implies !(
        #[trigger] outcomes.drop_last()[i] is Failed) by {
            assert(outcomes.drop_last()[i] == outcomes[i]);
        }
        lemma_placing_found_taken(source, name, files, outcomes.drop_last(), before);
        lemma_placing_holds(source, name, files, outcomes.drop_last(), before);
        assert(!(outcomes[outcomes.len() - 1] is Failed));
        lemma_names_apart(final_of(before.placement));
        if outcomes.last() is Taken {
            assert(is_taken(source, name, files, before.placement.attempt as nat));
        }
    }
}

/// Where no operation fails, a placement gives up only once the names of every
/// attempt are taken.
pub proof fn law_a_free_name_is_found(
    source: Source,
    name: FinalName,
    files: Files,
    outcomes: Seq<FileOutcome>,
    end: Placing,
)
    requires
        stands_apart(source, name),
        placing(source, name, files, outcomes, end),
        forall|i: int| 0 <= i < outcomes.len() ==> !(#[trigger] outcomes[i] is Failed),
        end.action is Fail,
    ensures
        forall|attempt: nat|
            attempt < MAX_ATTEMPTS ==> #[trigger] is_taken(source, name, files, attempt),
{
    lemma_placing_found_taken(source, name, files, outcomes, end);
}

// ---- Uploads ---------------------------------------------------------------------------------

pub open spec fn partial_of(upload_id: Seq<char>) -> Seq<char> {
    upload_id + PARTIAL_SUFFIX@
}

pub open spec fn record_of(upload_id: Seq<char>) -> Seq<char> {
    upload_id + RECORD_SUFFIX@
}

/// What the bytes of a record file say, where they are a record.
pub type Decoder = spec_fn(Seq<u8>) -> Option<UploadRecord>;

/// What reading an upload's record brings.
pub open spec fn record_in(files: Files, upload_id: Seq<char>, decode: Decoder) -> RecordRead {
    if files.dom().contains(record_of(upload_id)) {
        match decode(files[record_of(upload_id)]) {
            Some(record) => RecordRead::Found(record),
            None => RecordRead::Unreadable,
        }
    } else {
        RecordRead::Missing
    }
}

/// What looking at an upload's partial brings.
pub open spec fn partial_in(files: Files, upload_id: Seq<char>) -> PartialRead {
    if files.dom().contains(partial_of(upload_id)) {
        PartialRead::Size(files[partial_of(upload_id)].len() as u64)
    } else {
        PartialRead::Missing
    }
}

/// The upload that the directory holds under an id, or why there is none.
pub open spec fn upload_in(files: Files, upload_id: Seq<char>, decode: Decoder) -> Result<
    (u64, u64),
    ErrorView,
> {
    upload_on_disk(record_in(files, upload_id, decode), partial_in(files, upload_id))
}

/// The directory after an append: the chunk stands at the end of the partial,
/// or the append was refused and nothing changed.
pub open spec fn after_append_in(
    files: Files,
    upload_id: Seq<char>,
    decode: Decoder,
    offset: u64,
    chunk: Seq<u8>,
) -> Files {
    match appended_size(upload_in(files, upload_id, decode), offset, chunk.len()) {
        Ok(_) => files.insert(partial_of(upload_id), files[partial_of(upload_id)] + chunk),
        Err(_) => files,
    }
}

/// The directory after a commit that was accepted and whose file was placed:
/// the record goes last.
pub open spec fn commits(
    files: Files,
    upload_id: Seq<char>,
    decode: Decoder,
    size: u64,
    name: FinalName,
    outcomes: Seq<FileOutcome>,
    end: Placing,
    after: Files,
) -> bool {
    &&& commit_refusal(upload_in(files, upload_id, decode), size) is None
    &&& placing(Source::File(partial_of(upload_id)), name, files, outcomes, end)
    &&& end.action is Placed
    &&& after == end.files.remove(record_of(upload_id))
}

proof fn lemma_upload_stands_apart(upload_id: Seq<char>, name: FinalName)
    requires
        is_upload_id(upload_id),
    ensures
        stands_apart(Source::File(partial_of(upload_id)), name),
        forall|attempt: nat|
            record_of(upload_id) != #[trigger] attempt_name(name@, attempt) && record_of(upload_id)
                != attempt_name(name@, attempt) + PARTIAL_SUFFIX@,
        partial_of(upload_id) != record_of(upload_id),
{
    reveal_strlit("upload-");
    reveal_strlit("attachment-");
    reveal_strlit(".partial");
    reveal_strlit(".upload");
    let prefix = "upload-"@;
    assert(upload_id[0] == upload_id.take(prefix.len() as int)[0]);
    assert(partial_of(upload_id)[0] == 'u');
    assert(record_of(upload_id)[0] == 'u');
    assert forall|attempt: nat| (#[trigger] attempt_name(name@, attempt))[0] == 'a' && (
    attempt_name(name@, attempt) + PARTIAL_SUFFIX@)[0] == 'a' && attempt_name(name@, attempt).len()
        > 0 by {
        assert(attempt_name(name@, attempt)[0] == "attachment-"@[0]);
    }
    assert(partial_of(upload_id).len() != record_of(upload_id).len());
}

/// A commit leaves exactly the upload's bytes at the path that is answered and
/// nothing of the upload: neither partial nor record is left, no other file is
/// touched but for a stale one under the name that the bytes are staged at, and
/// wherever the record has not been made anew, a later append or commit under
/// the id names no upload.
pub proof fn law_a_commit_leaves_the_bytes_and_nothing_of_the_upload(
    files: Files,
    upload_id: Seq<char>,
    decode: Decoder,
    size: u64,
    name: FinalName,
    outcomes: Seq<FileOutcome>,
    end: Placing,
    after: Files,
    later: Files,
    offset: u64,
    chunk: nat,
    declared: u64,
)
    requires
        is_upload_id(upload_id),
        commits(files, upload_id, decode, size, name, outcomes, end, after),
        !later.dom().contains(record_of(upload_id)),
    ensures
        ({
            let place = final_of(end.placement);
            let staged = staged_of(end.placement);
            &&& !files.dom().contains(place)
            &&& after.dom().contains(place)
            &&& after[place] == files[partial_of(upload_id)]
            &&& !after.dom().contains(partial_of(upload_id))
            &&& !after.dom().contains(record_of(upload_id))
            &&& !after.dom().contains(staged)
            &&& forall|other: Seq<char>|
                other != place && other != staged && other != partial_of(upload_id) && other
                    != record_of(upload_id) ==> #[trigger] agree_on(files, after, other)
        }),
        appended_size(upload_in(after, upload_id, decode), offset, chunk) == Err::<u64, ErrorView>(
            ErrorView::UnknownUpload,
        ),
        commit_refusal(upload_in(after, upload_id, decode), declared) == Some(
            ErrorView::UnknownUpload,
        ),
        appended_size(upload_in(later, upload_id, decode), offset, chunk) == Err::<u64, ErrorView>(
            ErrorView::UnknownUpload,
        ),
        commit_refusal(upload_in(later, upload_id, decode), declared) == Some(
            ErrorView::UnknownUpload,
        ),
{
    let source = Source::File(partial_of(upload_id));
    lemma_upload_stands_apart(upload_id, name);
    lemma_placing_holds(source, name, files, outcomes, end);
    lemma_names_apart(final_of(end.placement));
    let attempt = end.placement.attempt as nat;
    assert(partial_of(upload_id) != attempt_name(name@, attempt));
    assert(record_of(upload_id) != attempt_name(name@, attempt));
}

/// A commit whose size is not what has arrived is refused with both sizes, and
/// the upload can still be appended to where the partial ends.
pub proof fn law_a_refused_commit_leaves_the_upload_appendable(
    files: Files,
    upload_id: Seq<char>,
    decode: Decoder,
    record: UploadRecord,
    size: u64,
    chunk: Seq<u8>,
)
    requires
        record_in(files, upload_id, decode) == RecordRead::Found(record),
        files.dom().contains(partial_of(upload_id)),
        files[partial_of(upload_id)].len() + chunk.len() <= record.size,
        size != files[partial_of(upload_id)].len(),
    ensures
        ({
            let received = files[partial_of(upload_id)].len() as u64;
            let upload = upload_in(files, upload_id, decode);
            &&& commit_refusal(upload, size) == Some(
                ErrorView::SizeMismatch { received, declared: size },
            )
            &&& appended_size(upload, received, chunk.len()) == Ok::<u64, ErrorView>(
                (received + chunk.len()) as u64,
            )
            &&& after_append_in(files, upload_id, decode, received, chunk)[partial_of(upload_id)]
                == files[partial_of(upload_id)] + chunk
        }),
{
}

/// The directory after chunks that were each appended where the partial ended.
pub open spec fn after_chunks_in(
    files: Files,
    upload_id: Seq<char>,
    decode: Decoder,
    chunks: Seq<Seq<u8>>,
) -> Files
    decreases chunks.len(),
{
    if chunks.len() == 0 {
        files
    } else {
        let before = after_chunks_in(files, upload_id, decode, chunks.drop_last());
        after_append_in(
            before,
            upload_id,
            decode,
            before[partial_of(upload_id)].len() as u64,
            chunks.last(),
        )
    }
}

/// Chunks that are appended in order to an empty partial stand in it as the
/// whole file, and no other file is touched.
pub proof fn law_appends_build_the_file_and_touch_no_other(
    files: Files,
    upload_id: Seq<char>,
    decode: Decoder,
    record: UploadRecord,
    chunks: Seq<Seq<u8>>,
)
    requires
        record_in(files, upload_id, decode) == RecordRead::Found(record),
        files.dom().contains(partial_of(upload_id)),
        files[partial_of(upload_id)].len() == 0,
        joined(chunks).len() <= record.size,
    ensures
        after_chunks_in(files, upload_id, decode, chunks) == files.insert(
            partial_of(upload_id),
            joined(chunks),
        ),
    decreases chunks.len(),
{
    let partial = partial_of(upload_id);
    reveal_strlit(".partial");
    reveal_strlit(".upload");
    assert(partial.len() != record_of(upload_id).len());
    if chunks.len() == 0 {
        assert(files[partial] =~= Seq::<u8>::empty());
        assert(files.insert(partial, joined(chunks)) =~= files);
    } else {
        law_appends_build_the_file_and_touch_no_other(
            files,
            upload_id,
            decode,
            record,
            chunks.drop_last(),
        );
        let before = after_chunks_in(files, upload_id, decode, chunks.drop_last());
        assert(record_in(before, upload_id, decode) == RecordRead::Found(record));
        assert(after_chunks_in(files, upload_id, decode, chunks) =~= files.insert(
            partial,
            joined(chunks),
        ));
    }
}

// ---- Reserving an upload ---------------------------------------------------------------------

/// A reservation under way, and the directory it works on.
pub ghost struct Reserving {
    pub reservation: Reservation,
    pub action: ReserveAction,
    pub files: Files,
}

pub open spec fn id_of(reservation: Reservation) -> Seq<char> {
    minted_id(reservation.unique as nat, reservation.attempt as nat)
}

/// One operation of a reservation and the step that follows it. A record is
/// written as `encoded`.
pub open spec fn reserves_on(
    encoded: Seq<u8>,
    state: Reserving,
    outcome: FileOutcome,
    worked: Files,
    step: ReserveStep,
    next: Reserving,
) -> bool {
    let partial = partial_of(id_of(state.reservation));
    let record = record_of(id_of(state.reservation));
    &&& match state.action {
        ReserveAction::MakePartial => makes(state.files, partial, Seq::empty(), outcome, worked)
            && (outcome is Failed ==> worked == state.files),
        ReserveAction::WriteRecord => makes(state.files, record, encoded, outcome, worked) && (
        state.files.dom().contains(record) ==> outcome is Taken),
        _ => false,
    }
    &&& reserves(state.reservation, outcome, next.reservation, step)
    &&& next.reservation.unique == state.reservation.unique
    &&& next.action == step.action
    &&& next.files == (if step.remove_both {
        worked.remove(record).remove(partial)
    } else {
        worked
    })
}

/// A reservation from its beginning, through operations with these outcomes.
pub open spec fn reserving(
    encoded: Seq<u8>,
    unique: u128,
    files: Files,
    outcomes: Seq<FileOutcome>,
    state: Reserving,
) -> bool
    decreases outcomes.len(),
{
    if outcomes.len() == 0 {
        &&& state.reservation.unique == unique
        &&& state.reservation.attempt == 0
        &&& state.reservation.phase is Partial
        &&& state.action is MakePartial
        &&& state.files == files
    } else {
        exists|before: Reserving, worked: Files, step: ReserveStep|
            reserving(encoded, unique, files, outcomes.drop_last(), before)
                && #[trigger] reserves_on(encoded, before, outcomes.last(), worked, step, state)
    }
}

/// Whether a name is that of a record without a partial.
pub open spec fn is_stray_record(files: Files, name: Seq<char>) -> bool {
    exists|upload_id: Seq<char>|
        #[trigger] record_of(upload_id) == name && !files.dom().contains(partial_of(upload_id))
}

/// Whether a directory holds nothing that another did not, and all of it but
/// for records without a partial.
pub open spec fn keeps_uploads(files: Files, after: Files) -> bool {
    &&& forall|name: Seq<char>| #[trigger]
        after.dom().contains(name) ==> files.dom().contains(name) && after[name] == files[name]
    &&& forall|name: Seq<char>| #[trigger]
        files.dom().contains(name) && !after.dom().contains(name) ==> is_stray_record(files, name)
}

spec fn reservation_holds(
    encoded: Seq<u8>,
    unique: u128,
    files: Files,
    base: Files,
    state: Reserving,
) -> bool {
    let partial = partial_of(id_of(state.reservation));
    &&& state.reservation.unique == unique
    &&& keeps_uploads(files, base)
    &&& match state.action {
        ReserveAction::MakePartial => state.reservation.phase is Partial && state.files == base,
        ReserveAction::WriteRecord => state.reservation.phase is Record && !files.dom().contains(
            partial,
        ) && !base.dom().contains(partial) && state.files == base.insert(partial, Seq::empty()),
        ReserveAction::Reserved(id) => {
            &&& exists|attempt: usize| id@ == #[trigger] minted_id(unique as nat, attempt as nat)
            &&& !files.dom().contains(partial_of(id@))
            &&& !base.dom().contains(record_of(id@))
            &&& state.files == base.insert(partial_of(id@), Seq::empty()).insert(
                record_of(id@),
                encoded,
            )
        },
        ReserveAction::Fail(_) => state.files == base,
    }
}

proof fn lemma_partial_is_no_record(one: Seq<char>, other: Seq<char>)
    ensures
        partial_of(one) != record_of(other),
{
    reveal_strlit(".partial");
    reveal_strlit(".upload");
    assert(partial_of(one).last() == 'l');
    assert(record_of(other).last() == 'd');
}

proof fn lemma_reserving_holds(
    encoded: Seq<u8>,
    unique: u128,
    files: Files,
    outcomes: Seq<FileOutcome>,
    state: Reserving,
) -> (base: Files)
    requires
        reserving(encoded, unique, files, outcomes, state),
    ensures
        reservation_holds(encoded, unique, files, base, state),
    decreases outcomes.len(),
{
    if outcomes.len() == 0 {
        files
    } else {
        let (before, worked, step) = choose|before: Reserving, worked: Files, step: ReserveStep|
            reserving(encoded, unique, files, outcomes.drop_last(), before)
                && #[trigger] reserves_on(encoded, before, outcomes.last(), worked, step, state);
        let base = lemma_reserving_holds(encoded, unique, files, outcomes.drop_last(), before);
        let id = id_of(before.reservation);
        let partial = partial_of(id);
        let record = record_of(id);
        lemma_partial_is_no_record(id, id);
        match before.action {
            ReserveAction::MakePartial => {
                if files.dom().contains(partial) && !base.dom().contains(partial) {
                    let other = choose|other: Seq<char>|
                        #[trigger] record_of(other) == partial && !files.dom().contains(
                            partial_of(other),
                        );
                    lemma_partial_is_no_record(id, other);
                }
                base
            },
            ReserveAction::WriteRecord => {
                if outcomes.last() is Done {
                    base
                } else {
                    let left = base.remove(record);
                    assert(state.files =~= left);
                    if base.dom().contains(record) {
                        assert(is_stray_record(files, record));
                    }
                    assert(keeps_uploads(files, left));
                    left
                }
            },
            _ => base,
        }
    }
}

/// An upload that was begun is found under its id, which is accepted back: an empty partial that was
/// not there before, and the record it was begun with. Nothing else changes in
/// the directory but for records without a partial, which may go.
pub proof fn law_a_begun_upload_is_found(
    encoded: Seq<u8>,
    unique: u128,
    files: Files,
    outcomes: Seq<FileOutcome>,
    end: Reserving,
    decode: Decoder,
    record: UploadRecord,
)
    requires
        reserving(encoded, unique, files, outcomes, end),
        end.action is Reserved,
        decode(encoded) == Some(record),
    ensures
        ({
            let id = end.action->Reserved_0@;
            &&& is_upload_id(id)
            &&& !files.dom().contains(partial_of(id))
            &&& end.files.dom().contains(partial_of(id))
            &&& end.files[partial_of(id)].len() == 0
            &&& record_in(end.files, id, decode) == RecordRead::Found(record)
            &&& upload_in(end.files, id, decode) == Ok::<(u64, u64), ErrorView>((record.size, 0))
            &&& forall|name: Seq<char>|
                name != partial_of(id) && name != record_of(id) && #[trigger] files.dom().contains(
                    name,
                ) && !is_stray_record(files, name) ==> end.files.dom().contains(name)
                    && end.files[name] == files[name]
        }),
{
    let base = lemma_reserving_holds(encoded, unique, files, outcomes, end);
    let id = end.action->Reserved_0@;
    lemma_partial_is_no_record(id, id);
    let attempt = choose|attempt: usize| id == #[trigger] minted_id(unique as nat, attempt as nat);
    law_a_minted_id_is_accepted_back(unique, attempt as u64);
}

/// What was sent is what is stored: an upload that was begun, whose chunks were
/// appended in order and which was committed with their size leaves exactly
/// those bytes at the path that is answered, and nothing of itself.
pub proof fn law_an_upload_stores_what_was_sent(
    encoded: Seq<u8>,
    unique: u128,
    files: Files,
    begin_outcomes: Seq<FileOutcome>,
    begun: Reserving,
    decode: Decoder,
    record: UploadRecord,
    chunks: Seq<Seq<u8>>,
    name: FinalName,
    outcomes: Seq<FileOutcome>,
    end: Placing,
)
    requires
        reserving(encoded, unique, files, begin_outcomes, begun),
        begun.action is Reserved,
        decode(encoded) == Some(record),
        joined(chunks).len() <= record.size,
        placing(
            Source::File(partial_of(begun.action->Reserved_0@)),
            name,
            after_chunks_in(begun.files, begun.action->Reserved_0@, decode, chunks),
            outcomes,
            end,
        ),
        end.action is Placed,
    ensures
        ({
            let id = begun.action->Reserved_0@;
            let sent = after_chunks_in(begun.files, id, decode, chunks);
            let after = end.files.remove(record_of(id));
            &&& commit_refusal(upload_in(sent, id, decode), joined(chunks).len() as u64) is None
            &&& after.dom().contains(final_of(end.placement))
            &&& after[final_of(end.placement)] == joined(chunks)
            &&& !after.dom().contains(partial_of(id))
            &&& !after.dom().contains(record_of(id))
        }),
{
    let id = begun.action->Reserved_0@;
    let size = joined(chunks).len() as u64;
    law_a_begun_upload_is_found(
        encoded,
        unique,
        files,
        begin_outcomes,
        begun,
        decode,
        record,
    );
    law_appends_build_the_file_and_touch_no_other(begun.files, id, decode, record, chunks);
    lemma_partial_is_no_record(id, id);
    let sent = after_chunks_in(begun.files, id, decode, chunks);
    assert(record_in(sent, id, decode) == RecordRead::Found(record));
    let after = end.files.remove(record_of(id));
    law_a_commit_leaves_the_bytes_and_nothing_of_the_upload(
        sent,
        id,
        decode,
        size,
        name,
        outcomes,
        end,
        after,
        after,
        0,
        0,
        0,
    );
}

} // verus!
