//! The scratch directory: where it is, how files are placed in it, and when
//! they leave it.

use crate::attachment::{
    image_extension, ATTACHMENT_TTL_SECS, MAX_ATTEMPTS, PARTIAL_SUFFIX, RECORD_SUFFIX,
};
use crate::attachment_name::{
    attempt_name, basename, final_name, law_a_safe_name_is_safe, sanitized, FinalName,
};
use crate::paths::{child, child_of};
use crate::text::{
    composed, decimal, decimal_text, is_ascii_digit, is_white_space, lemma_decimal_text, lemma_find_last,
    to_chars, view_of,
};
use crate::upload::{mint_upload_id, minted_id};
use vstd::prelude::*;

verus! {

// ---- The directory ---------------------------------------------------------------------------

/// Whether a text holds white space.
pub open spec fn holds_white_space(text: Seq<char>) -> bool {
    exists|i: int| 0 <= i < text.len() && is_white_space(#[trigger] text[i])
}

fn white_space_in(text: &[char]) -> (yes: bool)
    ensures
        yes == holds_white_space(text@),
{
    let mut i: usize = 0;
    while i < text.len()
        invariant
            i <= text@.len(),
            forall|j: int| 0 <= j < i ==> !is_white_space(#[trigger] text@[j]),
        decreases text@.len() - i,
    {
        if text[i].is_whitespace() {
            assert(is_white_space(text@[i as int]));
            return true;
        }
        i += 1;
    }
    false
}

/// Where the scratch directory is under a temporary root: a directory of the
/// user's own.
pub open spec fn scratch_path(root: Seq<char>, euid: u32) -> Seq<char> {
    child(root, "herdr-attachments-"@ + decimal_text(euid as nat))
}

pub open spec fn white_space_text(dir: Seq<char>) -> Seq<char> {
    "attachment scratch dir "@ + dir
        + " contains whitespace, so returned paths would not be paste-safe; point the temp dir at a whitespace-free location"@
}

pub open spec fn unresolved_text(root: Seq<char>, error: Seq<char>) -> Seq<char> {
    "cannot resolve temp dir "@ + root + ": "@ + error
}

/// The scratch directory under a temporary root, given what the root resolves
/// to. A directory whose path holds white space is refused, so that every
/// path handed out can be pasted as it is.
pub fn scratch_dir_under(root: &str, resolved: Result<String, String>, euid: u32) -> (dir: Result<
    String,
    String,
>)
    ensures
        match (resolved, dir) {
            (Ok(resolved), Ok(dir)) => dir@ == scratch_path(resolved@, euid)
                && !holds_white_space(dir@),
            (Ok(resolved), Err(error)) => holds_white_space(scratch_path(resolved@, euid))
                && error@ == white_space_text(scratch_path(resolved@, euid)),
            (Err(reason), Err(error)) => error@ == unresolved_text(root@, reason@),
            (Err(_), Ok(_)) => false,
        },
{
    match resolved {
        Err(reason) => {
            let mut error = "cannot resolve temp dir ".to_string();
            error.push_str(root);
            error.push_str(": ");
            error.push_str(&reason);
            Err(error)
        },
        Ok(resolved) => {
            let mut name = "herdr-attachments-".to_string();
            name.push_str(&decimal(euid as u64));
            let dir = child_of(&resolved, &name);
            let chars = to_chars(&dir);
            if white_space_in(&chars) {
                let mut error = "attachment scratch dir ".to_string();
                error.push_str(&dir);
                error.push_str(
                    " contains whitespace, so returned paths would not be paste-safe; point the temp dir at a whitespace-free location",
                );
                return Err(error);
            }
            Ok(dir)
        },
    }
}

/// What is known of the scratch path itself, without following it.
#[derive(Clone, Copy, Debug, PartialEq, Eq, Structural)]
pub struct ScratchFacts {
    pub is_dir: bool,
    pub owner: u32,
}

/// Why a scratch path is not used, where it is not: it has to be a directory,
/// not a link to one, and the server's own.
pub open spec fn scratch_refusal(dir: Seq<char>, facts: ScratchFacts, euid: u32) -> Option<
    Seq<char>,
> {
    if !facts.is_dir {
        Some("attachment scratch path is not a directory: "@ + dir)
    } else if facts.owner != euid {
        Some(
            "attachment scratch dir at "@ + dir + " is owned by uid "@ + decimal_text(
                facts.owner as nat,
            ) + ", not "@ + decimal_text(euid as nat) + "; refusing to use it"@,
        )
    } else {
        None
    }
}

/// Check a scratch path before anything is read from it or written to it.
pub fn check_scratch_dir(dir: &str, facts: ScratchFacts, euid: u32) -> (refusal: Option<String>)
    ensures
        view_of(refusal) == scratch_refusal(dir@, facts, euid),
{
    if !facts.is_dir {
        let mut text = "attachment scratch path is not a directory: ".to_string();
        text.push_str(dir);
        return Some(text);
    }
    if facts.owner != euid {
        let mut text = "attachment scratch dir at ".to_string();
        text.push_str(dir);
        text.push_str(" is owned by uid ");
        text.push_str(&decimal(facts.owner as u64));
        text.push_str(", not ");
        text.push_str(&decimal(euid as u64));
        text.push_str("; refusing to use it");
        return Some(text);
    }
    None
}

/// The parts of a text without white space hold none together.
proof fn lemma_white_space_add(left: Seq<char>, right: Seq<char>)
    requires
        !holds_white_space(left),
        !holds_white_space(right),
    ensures
        !holds_white_space(left + right),
{
    let all = left + right;
    assert forall|i: int| 0 <= i < all.len() implies !is_white_space(#[trigger] all[i]) by {
        if i < left.len() {
            assert(all[i] == left[i]);
        } else {
            assert(all[i] == right[i - left.len()]);
        }
    }
}

proof fn lemma_digits_hold_no_white_space(value: nat)
    ensures
        !holds_white_space(decimal_text(value)),
{
    lemma_decimal_text(value);
    let text = decimal_text(value);
    assert forall|i: int| 0 <= i < text.len() implies !is_white_space(#[trigger] text[i]) by {
        assert(is_ascii_digit(text[i]));
    }
}

/// Whatever a client sends, and however it calls it, the path that is handed
/// back holds no white space: it can be pasted as it is.
pub proof fn law_a_stored_path_is_paste_safe(
    dir: Seq<char>,
    bytes: Seq<u8>,
    name: Option<Seq<char>>,
    unique: nat,
    attempt: nat,
)
    requires
        !holds_white_space(dir),
    ensures
        ({
            let safe = match name {
                Some(name) => Some(sanitized(name)),
                None => None,
            };
            let stored = final_name(unique, safe, image_extension(bytes));
            !holds_white_space(child(dir, attempt_name(stored, attempt)))
        }),
{
    let safe = match name {
        Some(name) => Some(sanitized(name)),
        None => None,
    };
    let sniffed = image_extension(bytes);
    let stored = final_name(unique, safe, sniffed);
    reveal_strlit("attachment-");
    reveal_strlit("-");
    reveal_strlit("jpg");
    reveal_strlit("png");
    reveal_strlit("webp");
    assert(!holds_white_space("attachment-"@));
    assert(!holds_white_space("-"@));
    assert(!holds_white_space(seq!['-']));
    assert(!holds_white_space(seq!['.']));
    lemma_digits_hold_no_white_space(unique);
    lemma_digits_hold_no_white_space(attempt);
    let head = "attachment-"@ + decimal_text(unique);
    lemma_white_space_add("attachment-"@, decimal_text(unique));
    lemma_white_space_add(head, "-"@);
    lemma_white_space_add(head + "-"@, decimal_text(attempt));
    let numbered = head + "-"@ + decimal_text(attempt);
    let named = match stored.safe {
        Some(part) => seq!['-'] + part,
        None => Seq::empty(),
    };
    if let Some(name) = name {
        let whole = sanitized(name);
        law_a_safe_name_is_safe(composed(basename(name)));
        lemma_find_last(whole, '.');
        let part = stored.safe->0;
        assert forall|i: int| 0 <= i < part.len() implies !is_white_space(#[trigger] part[i]) by {
            assert(part[i] == whole[i]);
        }
        lemma_white_space_add(seq!['-'], part);
    }
    let ending = match stored.extension {
        Some(extension) => seq!['.'] + extension,
        None => Seq::empty(),
    };
    if let Some(extension) = sniffed {
        assert(!holds_white_space(extension));
        lemma_white_space_add(seq!['.'], extension);
    }
    lemma_white_space_add(named, ending);
    lemma_white_space_add(numbered, named + ending);
    let file = attempt_name(stored, attempt);
    lemma_white_space_add(dir, file);
    reveal_strlit("/");
    assert(!holds_white_space("/"@));
    lemma_white_space_add(dir, "/"@);
    lemma_white_space_add(dir + "/"@, file);
}

// ---- Placing a file --------------------------------------------------------------------------

/// What one filesystem operation came to.
#[derive(Clone, Debug, PartialEq, Eq)]
pub enum FileOutcome {
    Done,
    /// The name is taken.
    Taken(String),
    Failed(String),
}

/// How far the placing of a file has come.
#[derive(Clone, Copy, Debug, PartialEq, Eq, Structural)]
pub enum PlacePhase {
    /// The final name is being reserved with an empty file that must not
    /// exist yet.
    Reserving,
    /// The bytes are being staged beside it.
    Staging,
    /// The staged file is being renamed onto the reservation.
    Renaming,
}

/// What is done next.
#[derive(Clone, Debug, PartialEq, Eq)]
pub enum PlaceAction {
    Reserve,
    Stage,
    Rename,
    /// The file stands under its final name.
    Placed,
    Fail(String),
}

/// One step of placing a file: what to take away of the attempt that ends,
/// and what to do then.
#[derive(Clone, Debug, PartialEq, Eq)]
pub struct PlaceStep {
    pub remove_reservation: bool,
    pub remove_staged: bool,
    pub action: PlaceAction,
}

/// The placing of a file.
#[derive(Clone, Debug)]
pub struct Placement {
    pub name: FinalName,
    pub attempt: usize,
    pub phase: PlacePhase,
}

pub const NO_ATTACHMENT_PATH: &'static str = "failed to allocate a unique attachment path";

pub const NO_UPLOAD_ID: &'static str = "failed to allocate a unique upload id";

/// The next attempt, or giving up.
pub open spec fn tries_again(attempt: int, next: Placement, action: PlaceAction) -> bool {
    if attempt + 1 < MAX_ATTEMPTS {
        action is Reserve && next.attempt == attempt + 1 && next.phase is Reserving
    } else {
        action matches PlaceAction::Fail(error) && error@ == NO_ATTACHMENT_PATH@
    }
}

/// What follows an operation. The final name is reserved before the bytes
/// are staged, so two files can never receive the same path, and the rename
/// only ever lands on this placement's own reservation. A failure takes away
/// what the attempt made; a staged name that was taken is somebody else's.
pub open spec fn places(
    before: Placement,
    outcome: FileOutcome,
    next: Placement,
    step: PlaceStep,
) -> bool {
    match (before.phase, outcome) {
        (PlacePhase::Reserving, FileOutcome::Done) => step == (PlaceStep {
            remove_reservation: false,
            remove_staged: false,
            action: PlaceAction::Stage,
        }) && next.phase is Staging && next.attempt == before.attempt,
        (PlacePhase::Reserving, FileOutcome::Taken(_)) => !step.remove_reservation
            && !step.remove_staged && tries_again(before.attempt as int, next, step.action),
        (PlacePhase::Reserving, FileOutcome::Failed(error)) => step == (PlaceStep {
            remove_reservation: false,
            remove_staged: false,
            action: PlaceAction::Fail(error),
        }),
        (PlacePhase::Staging, FileOutcome::Done) => step == (PlaceStep {
            remove_reservation: false,
            remove_staged: false,
            action: PlaceAction::Rename,
        }) && next.phase is Renaming && next.attempt == before.attempt,
        (PlacePhase::Staging, FileOutcome::Taken(_)) => step.remove_reservation
            && !step.remove_staged && tries_again(before.attempt as int, next, step.action),
        (PlacePhase::Staging, FileOutcome::Failed(error)) => step == (PlaceStep {
            remove_reservation: true,
            remove_staged: true,
            action: PlaceAction::Fail(error),
        }),
        (PlacePhase::Renaming, FileOutcome::Done) => step == (PlaceStep {
            remove_reservation: false,
            remove_staged: false,
            action: PlaceAction::Placed,
        }) && next.attempt == before.attempt,
        (PlacePhase::Renaming, FileOutcome::Taken(error)) => step == (PlaceStep {
            remove_reservation: true,
            remove_staged: true,
            action: PlaceAction::Fail(error),
        }),
        (PlacePhase::Renaming, FileOutcome::Failed(error)) => step == (PlaceStep {
            remove_reservation: true,
            remove_staged: true,
            action: PlaceAction::Fail(error),
        }),
    }
}

impl Placement {
    /// Begin to place a file: its first name is to be reserved.
    pub fn begin(name: FinalName) -> (placement: Placement)
        ensures
            placement.name == name,
            placement.attempt == 0,
            placement.phase is Reserving,
    {
        Placement { name, attempt: 0, phase: PlacePhase::Reserving }
    }

    /// The final name of the current attempt.
    pub fn basename(&self) -> (name: String)
        ensures
            name@ == attempt_name(self.name@, self.attempt as nat),
    {
        self.name.basename(self.attempt)
    }

    /// The name of the current attempt's staged file.
    pub fn staged_name(&self) -> (name: String)
        ensures
            name@ == attempt_name(self.name@, self.attempt as nat) + PARTIAL_SUFFIX@,
    {
        let mut name = self.name.basename(self.attempt);
        name.push_str(PARTIAL_SUFFIX);
        name
    }

    fn again(&mut self, remove_reservation: bool) -> (step: PlaceStep)
        requires
            old(self).attempt < MAX_ATTEMPTS,
        ensures
            final(self).name == old(self).name,
            final(self).attempt < MAX_ATTEMPTS,
            step.remove_reservation == remove_reservation,
            !step.remove_staged,
            tries_again(old(self).attempt as int, *final(self), step.action),
    {
        if self.attempt + 1 < MAX_ATTEMPTS {
            self.attempt = self.attempt + 1;
            self.phase = PlacePhase::Reserving;
            PlaceStep { remove_reservation, remove_staged: false, action: PlaceAction::Reserve }
        } else {
            PlaceStep {
                remove_reservation,
                remove_staged: false,
                action: PlaceAction::Fail(NO_ATTACHMENT_PATH.to_string()),
            }
        }
    }

    /// Take the next step. What is to be removed belongs to the attempt that
    /// was current before it.
    pub fn step(&mut self, outcome: FileOutcome) -> (step: PlaceStep)
        requires
            old(self).attempt < MAX_ATTEMPTS,
        ensures
            final(self).name == old(self).name,
            final(self).attempt < MAX_ATTEMPTS,
            places(*old(self), outcome, *final(self), step),
    {
        match (self.phase, outcome) {
            (PlacePhase::Reserving, FileOutcome::Done) => {
                self.phase = PlacePhase::Staging;
                PlaceStep {
                    remove_reservation: false,
                    remove_staged: false,
                    action: PlaceAction::Stage,
                }
            },
            (PlacePhase::Reserving, FileOutcome::Taken(_)) => self.again(false),
            (PlacePhase::Reserving, FileOutcome::Failed(error)) => PlaceStep {
                remove_reservation: false,
                remove_staged: false,
                action: PlaceAction::Fail(error),
            },
            (PlacePhase::Staging, FileOutcome::Done) => {
                self.phase = PlacePhase::Renaming;
                PlaceStep {
                    remove_reservation: false,
                    remove_staged: false,
                    action: PlaceAction::Rename,
                }
            },
            (PlacePhase::Staging, FileOutcome::Taken(_)) => self.again(true),
            (PlacePhase::Staging, FileOutcome::Failed(error)) => PlaceStep {
                remove_reservation: true,
                remove_staged: true,
                action: PlaceAction::Fail(error),
            },
            (PlacePhase::Renaming, FileOutcome::Done) => PlaceStep {
                remove_reservation: false,
                remove_staged: false,
                action: PlaceAction::Placed,
            },
            (PlacePhase::Renaming, FileOutcome::Taken(error)) => PlaceStep {
                remove_reservation: true,
                remove_staged: true,
                action: PlaceAction::Fail(error),
            },
            (PlacePhase::Renaming, FileOutcome::Failed(error)) => PlaceStep {
                remove_reservation: true,
                remove_staged: true,
                action: PlaceAction::Fail(error),
            },
        }
    }
}

/// An attempt that does not end in a placed file takes away everything that
/// it made: its reservation once it had one, and its staged file once there
/// may be one.
pub proof fn law_a_failed_attempt_leaves_no_file(
    before: Placement,
    outcome: FileOutcome,
    next: Placement,
    step: PlaceStep,
)
    requires
        places(before, outcome, next, step),
        step.action is Fail || step.action is Reserve,
    ensures
        before.phase !is Reserving ==> step.remove_reservation,
        before.phase is Renaming ==> step.remove_staged,
        before.phase is Staging && outcome is Failed ==> step.remove_staged,
        before.phase is Reserving ==> !step.remove_reservation && !step.remove_staged,
{
}

/// A file is placed only over a reservation that this placement made.
pub proof fn law_a_file_lands_only_on_its_own_reservation(
    before: Placement,
    outcome: FileOutcome,
    next: Placement,
    step: PlaceStep,
)
    requires
        places(before, outcome, next, step),
    ensures
        step.action is Placed ==> before.phase is Renaming && outcome is Done,
        step.action is Rename ==> before.phase is Staging && outcome is Done && next.attempt
            == before.attempt,
        step.action is Stage ==> before.phase is Reserving && outcome is Done && next.attempt
            == before.attempt,
{
}

// ---- Reserving an upload ---------------------------------------------------------------------

/// How far the reserving of an upload has come.
#[derive(Clone, Copy, Debug, PartialEq, Eq, Structural)]
pub enum ReservePhase {
    /// The empty partial is being made, which must not exist yet.
    Partial,
    /// The record is being written beside it.
    Record,
}

/// What is done next.
#[derive(Clone, Debug, PartialEq, Eq)]
pub enum ReserveAction {
    MakePartial,
    WriteRecord,
    /// The upload has this id.
    Reserved(String),
    Fail(String),
}

/// One step of reserving: whether to take partial and record of the attempt
/// that ends away, and what to do then.
#[derive(Clone, Debug, PartialEq, Eq)]
pub struct ReserveStep {
    pub remove_both: bool,
    pub action: ReserveAction,
}

/// The reserving of an upload: an id, its partial and its record together,
/// so that an id that was handed out always names an upload.
#[derive(Clone, Debug)]
pub struct Reservation {
    pub unique: u128,
    pub attempt: usize,
    pub phase: ReservePhase,
}

pub open spec fn reserves_again(attempt: int, next: Reservation, action: ReserveAction) -> bool {
    if attempt + 1 < MAX_ATTEMPTS {
        action is MakePartial && next.attempt == attempt + 1 && next.phase is Partial
    } else {
        action matches ReserveAction::Fail(error) && error@ == NO_UPLOAD_ID@
    }
}

/// What follows an operation.
pub open spec fn reserves(
    before: Reservation,
    outcome: FileOutcome,
    next: Reservation,
    step: ReserveStep,
) -> bool {
    match (before.phase, outcome) {
        (ReservePhase::Partial, FileOutcome::Done) => !step.remove_both
            && step.action is WriteRecord && next.phase is Record && next.attempt == before.attempt,
        (ReservePhase::Partial, FileOutcome::Taken(_)) => !step.remove_both && reserves_again(
            before.attempt as int,
            next,
            step.action,
        ),
        (ReservePhase::Partial, FileOutcome::Failed(error)) => !step.remove_both && step.action
            == ReserveAction::Fail(error),
        (ReservePhase::Record, FileOutcome::Done) => !step.remove_both && (
        step.action matches ReserveAction::Reserved(id) && id@ == minted_id(
            before.unique as nat,
            before.attempt as nat,
        )),
        (ReservePhase::Record, FileOutcome::Taken(_)) => step.remove_both && reserves_again(
            before.attempt as int,
            next,
            step.action,
        ),
        (ReservePhase::Record, FileOutcome::Failed(error)) => step.remove_both && step.action
            == ReserveAction::Fail(error),
    }
}

impl Reservation {
    /// Begin to reserve an upload: its first partial is to be made.
    pub fn begin(unique: u128) -> (reservation: Reservation)
        ensures
            reservation.unique == unique,
            reservation.attempt == 0,
            reservation.phase is Partial,
    {
        Reservation { unique, attempt: 0, phase: ReservePhase::Partial }
    }

    /// The id of the current attempt.
    pub fn upload_id(&self) -> (id: String)
        ensures
            id@ == minted_id(self.unique as nat, self.attempt as nat),
    {
        mint_upload_id(self.unique, self.attempt)
    }

    fn again(&mut self) -> (action: ReserveAction)
        requires
            old(self).attempt < MAX_ATTEMPTS,
        ensures
            final(self).unique == old(self).unique,
            final(self).attempt < MAX_ATTEMPTS,
            reserves_again(old(self).attempt as int, *final(self), action),
    {
        if self.attempt + 1 < MAX_ATTEMPTS {
            self.attempt = self.attempt + 1;
            self.phase = ReservePhase::Partial;
            ReserveAction::MakePartial
        } else {
            ReserveAction::Fail(NO_UPLOAD_ID.to_string())
        }
    }

    /// Take the next step. What is to be removed belongs to the attempt that
    /// was current before it.
    pub fn step(&mut self, outcome: FileOutcome) -> (step: ReserveStep)
        requires
            old(self).attempt < MAX_ATTEMPTS,
        ensures
            final(self).unique == old(self).unique,
            final(self).attempt < MAX_ATTEMPTS,
            reserves(*old(self), outcome, *final(self), step),
    {
        match (self.phase, outcome) {
            (ReservePhase::Partial, FileOutcome::Done) => {
                self.phase = ReservePhase::Record;
                ReserveStep { remove_both: false, action: ReserveAction::WriteRecord }
            },
            (ReservePhase::Partial, FileOutcome::Taken(_)) => {
                let action = self.again();
                ReserveStep { remove_both: false, action }
            },
            (ReservePhase::Partial, FileOutcome::Failed(error)) => ReserveStep {
                remove_both: false,
                action: ReserveAction::Fail(error),
            },
            (ReservePhase::Record, FileOutcome::Done) => ReserveStep {
                remove_both: false,
                action: ReserveAction::Reserved(self.upload_id()),
            },
            (ReservePhase::Record, FileOutcome::Taken(_)) => {
                let action = self.again();
                ReserveStep { remove_both: true, action }
            },
            (ReservePhase::Record, FileOutcome::Failed(error)) => ReserveStep {
                remove_both: true,
                action: ReserveAction::Fail(error),
            },
        }
    }
}

/// The name of an upload's partial file.
pub fn partial_name(upload_id: &str) -> (name: String)
    ensures
        name@ == upload_id@ + PARTIAL_SUFFIX@,
{
    let mut name = upload_id.to_string();
    name.push_str(PARTIAL_SUFFIX);
    name
}

/// The name of an upload's record.
pub fn record_name(upload_id: &str) -> (name: String)
    ensures
        name@ == upload_id@ + RECORD_SUFFIX@,
{
    let mut name = upload_id.to_string();
    name.push_str(RECORD_SUFFIX);
    name
}

// ---- Expiry ----------------------------------------------------------------------------------

/// A moment on the clock that file times are read from: whole seconds from the
/// epoch, back from it where they are negative, and nanoseconds on from there.
#[derive(Clone, Copy, Debug, PartialEq, Eq, Structural)]
pub struct FileTime {
    pub secs: i64,
    pub nanos: u32,
}

/// When a file that was last written at a moment expires, in unix seconds. A
/// moment before the epoch counts as the epoch.
pub open spec fn expiry(modified: FileTime) -> int {
    if modified.secs < 0 {
        ATTACHMENT_TTL_SECS as int
    } else {
        modified.secs + ATTACHMENT_TTL_SECS
    }
}

pub fn expires_at(modified: FileTime) -> (at: u64)
    ensures
        at == expiry(modified),
{
    if modified.secs < 0 {
        ATTACHMENT_TTL_SECS
    } else {
        modified.secs as u64 + ATTACHMENT_TTL_SECS
    }
}

pub open spec fn in_nanos(time: FileTime) -> int {
    time.secs * 1_000_000_000 + time.nanos
}

/// Whether a file is over its time: strictly older than the lifetime. A file
/// from the future is not old at all.
pub open spec fn is_expired(modified: FileTime, now: FileTime) -> bool {
    in_nanos(now) - in_nanos(modified) > ATTACHMENT_TTL_SECS * 1_000_000_000
}

/// What the sweep knows of a directory entry.
#[derive(Clone, Copy, Debug, PartialEq, Eq, Structural)]
pub struct SweptEntry {
    pub is_file: bool,
    /// When the entry was last written, where that is known.
    pub modified: Option<FileTime>,
}

/// Whether the sweep removes an entry: a plain file that is over its time.
pub fn sweeps(entry: SweptEntry, now: FileTime) -> (removes: bool)
    ensures
        removes == (entry.is_file && (entry.modified matches Some(modified) && is_expired(
            modified,
            now,
        ))),
{
    if !entry.is_file {
        return false;
    }
    match entry.modified {
        None => false,
        Some(modified) => {
            let then: i128 = modified.secs as i128 * 1_000_000_000 + modified.nanos as i128;
            let at: i128 = now.secs as i128 * 1_000_000_000 + now.nanos as i128;
            at - then > ATTACHMENT_TTL_SECS as i128 * 1_000_000_000
        },
    }
}

/// No file is swept before the expiry that its client was told, where it was
/// not written before the epoch.
pub proof fn law_no_file_is_swept_before_its_expiry(modified: FileTime, now: FileTime)
    requires
        is_expired(modified, now),
        now.nanos < 1_000_000_000,
        modified.secs >= 0,
    ensures
        now.secs >= expiry(modified),
{
}

/// What is known of the scratch directory when it is to be swept.
#[derive(Clone, Copy, Debug, PartialEq, Eq, Structural)]
pub enum SweepTarget {
    Missing,
    Unknown,
    Found(ScratchFacts),
}

/// Whether the directory is swept: it has to be there, and to be one that
/// would be written to.
pub fn sweeps_dir(dir: &str, target: SweepTarget, euid: u32) -> (sweeps: bool)
    ensures
        sweeps == (target matches SweepTarget::Found(facts) && scratch_refusal(
            dir@,
            facts,
            euid,
        ) is None),
{
    match target {
        SweepTarget::Found(facts) => check_scratch_dir(dir, facts, euid).is_none(),
        _ => false,
    }
}

/// A stored file expires a day after it was written, and is swept only once it
/// is older than that, by however little.
pub proof fn law_a_file_is_kept_for_a_day(modified: FileTime, now: FileTime)
    requires
        modified.nanos < 1_000_000_000 && now.nanos < 1_000_000_000,
    ensures
        modified.secs >= 0 ==> expiry(modified) == modified.secs + 86_400,
        modified.secs < 0 ==> expiry(modified) == 86_400,
        is_expired(modified, now) <==> now.secs - modified.secs > 86_400 || (now.secs
            - modified.secs == 86_400 && now.nanos > modified.nanos),
{
}

/// Only a plain file that is over its time is swept, never a directory, and
/// never a file whose age is not known.
pub proof fn law_what_is_swept(
    modified: FileTime,
    now: FileTime,
    removes: bool,
)
    ensures
        call_ensures(
            sweeps,
            (SweptEntry { is_file: true, modified: Some(modified) }, now),
            removes,
        ) ==> removes == is_expired(modified, now),
        call_ensures(
            sweeps,
            (SweptEntry { is_file: false, modified: Some(modified) }, now),
            removes,
        ) ==> !removes,
        call_ensures(sweeps, (SweptEntry { is_file: true, modified: None }, now), removes)
            ==> !removes,
{
}

/// The scratch directory is used exactly where it is a directory of the
/// server's own user.
pub proof fn law_which_scratch_directory_is_used(dir: Seq<char>, facts: ScratchFacts, euid: u32)
    ensures
        scratch_refusal(dir, facts, euid) is None <==> facts.is_dir && facts.owner == euid,
{
}

/// A hundred names are tried, and no more: with every name taken, the attempts
/// go from zero up to ninety-nine, and then it is given up.
pub proof fn law_a_hundred_names_are_tried(
    placement: Placement,
    error: String,
    next: Placement,
    step: PlaceStep,
)
    requires
        placement.phase is Reserving,
        places(placement, FileOutcome::Taken(error), next, step),
    ensures
        placement.attempt < 99 ==> step.action is Reserve && next.attempt == placement.attempt + 1,
        placement.attempt >= 99 ==> step.action is Fail,
{
}

/// Files are kept below the resolved temporary directory, in one of the user's
/// own by its number; a path with white space is refused, and so is a directory
/// that does not resolve.
pub proof fn law_where_files_are_kept(
    root: &str,
    resolved: String,
    reason: String,
    euid: u32,
    dir: Result<String, String>,
    unresolved: Result<String, String>,
)
    requires
        call_ensures(scratch_dir_under, (root, Ok::<String, String>(resolved), euid), dir),
        call_ensures(scratch_dir_under, (root, Err::<String, String>(reason), euid), unresolved),
        resolved@.len() > 0 && resolved@.last() != '/',
    ensures
        ({
            let path = resolved@ + "/"@ + "herdr-attachments-"@ + decimal_text(euid as nat);
            &&& holds_white_space(path) ==> dir is Err
            &&& !holds_white_space(path) ==> (dir matches Ok(dir) && dir@ == path)
            &&& unresolved is Err
        }),
{
    assert(scratch_path(resolved@, euid) =~= resolved@ + "/"@ + "herdr-attachments-"@
        + decimal_text(euid as nat));
}

/// The partial and the record of an upload are named by its id, with an ending
/// each.
pub proof fn law_how_the_files_of_an_upload_are_named(
    upload_id: &str,
    partial: String,
    record: String,
)
    requires
        call_ensures(partial_name, (upload_id,), partial),
        call_ensures(record_name, (upload_id,), record),
    ensures
        partial@ == upload_id@ + ".partial"@,
        record@ == upload_id@ + ".upload"@,
        partial@ != record@,
{
    reveal_strlit(".partial");
    reveal_strlit(".upload");
    assert(partial@.len() == upload_id@.len() + 8 && record@.len() == upload_id@.len() + 7);
}

/// A directory is swept where it was found to be one of the user's own, and not
/// where it is missing or not known.
pub proof fn law_which_directory_is_swept(
    dir: &str,
    target: SweepTarget,
    euid: u32,
    sweeps: bool,
)
    requires
        call_ensures(sweeps_dir, (dir, target, euid), sweeps),
    ensures
        target is Missing || target is Unknown ==> !sweeps,
        target matches SweepTarget::Found(facts) ==> (sweeps <==> facts.is_dir && facts.owner
            == euid),
{
}

/// A file is reserved, staged and renamed, in this order, and is placed then.
pub proof fn law_how_a_file_is_placed(
    reserving: Placement,
    staging: Placement,
    renaming: Placement,
    placed: Placement,
    first: PlaceStep,
    second: PlaceStep,
    third: PlaceStep,
)
    requires
        reserving.phase is Reserving,
        places(reserving, FileOutcome::Done, staging, first),
        places(staging, FileOutcome::Done, renaming, second),
        places(renaming, FileOutcome::Done, placed, third),
    ensures
        first.action is Stage && second.action is Rename && third.action is Placed,
        !first.remove_staged && !second.remove_staged && !third.remove_staged,
        !first.remove_reservation && !second.remove_reservation && !third.remove_reservation,
        placed.attempt == reserving.attempt,
{
}

/// An upload is reserved once its partial was made and its record written, under
/// the id of that attempt; where the record could not be written both go, and a
/// taken name is tried again under the next.
pub proof fn law_how_an_upload_is_reserved(
    making: Reservation,
    recording: Reservation,
    done: Reservation,
    again: Reservation,
    made: ReserveStep,
    written: ReserveStep,
    taken: ReserveStep,
    error: String,
)
    requires
        making.phase is Partial,
        making.attempt + 1 < 100,
        reserves(making, FileOutcome::Done, recording, made),
        recording.unique == making.unique,
        reserves(recording, FileOutcome::Done, done, written),
        reserves(recording, FileOutcome::Taken(error), again, taken),
    ensures
        made.action is WriteRecord && !made.remove_both,
        !written.remove_both && (written.action matches ReserveAction::Reserved(id) && id@
            == minted_id(making.unique as nat, making.attempt as nat)),
        taken.remove_both && taken.action is MakePartial && again.attempt == making.attempt + 1,
{
}

} // verus!
