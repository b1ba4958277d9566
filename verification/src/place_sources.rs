//! The sources that a place lookup remembers from: a frecency database, the
//! saved layout and the transcripts of agent sessions.

use crate::ordering::{
    Key, Relation, are_places, ascending, by_key, covers, in_order, is_strict,
    law_there_is_an_order, law_what_keys_are_ordered_by, names, sorted, the_order,
};
use crate::paths::{child, child_of};
use crate::snapshot::{PaneSnapshot, SessionSnapshot, TabSnapshot, WorkspaceSnapshot};
use crate::text::{
    ends_with, find_last, has_suffix, last_position, law_the_last_one_is_found, lemma_find_last,
    lemma_split, lemma_split_push, lemma_split_single, slices, split, split_at_each, strip_last,
    texts, to_chars, to_text, trim, trimmed, without_last,
};
use vstd::prelude::*;
use vstd::slice::slice_subrange;

verus! {

/// Newest session transcripts whose first line is read, per agent.
pub const SESSION_FILES_READ: usize = 40;

/// Transcripts that one walk examines before it stops descending.
pub const SESSION_FILES_SCANNED: usize = 400;

/// Largest source file that is read.
pub const MAX_SOURCE_BYTES: u64 = 16 * 1024 * 1024;

/// How long the terminal multiplexer gets to answer.
pub const TMUX_TIMEOUT_MILLIS: u64 = 2_000;

/// Whether a source file is read: a plain file that is not too large.
pub fn reads_source(is_file: bool, len: u64) -> (reads: bool)
    ensures
        reads == (is_file && len <= MAX_SOURCE_BYTES),
{
    is_file && len <= MAX_SOURCE_BYTES
}

// ---- Lines -----------------------------------------------------------------------------------

/// The lines of a text, without their line breaks. A carriage return belongs
/// to the line break that follows it; what follows the last line break is a
/// line unless it is empty.
pub open spec fn lines(text: Seq<char>) -> Seq<Seq<char>> {
    let parts = split(text, '\n');
    let ended = Seq::new(
        (parts.len() - 1) as nat,
        |i: int| without_last(parts[i], '\r'),
    );
    if parts.last().len() == 0 {
        ended
    } else {
        ended.push(parts.last())
    }
}

/// The lines of a text.
pub fn lines_of(text: &str) -> (found: Vec<String>)
    ensures
        texts(found@) == lines(text@),
{
    let chars = to_chars(text);
    let parts = split_at_each(&chars, '\n');
    let ghost all = slices(parts@);
    proof {
        lemma_split(text@, '\n');
    }
    let last: usize = parts.len() - 1;
    let mut found: Vec<String> = Vec::new();
    let mut i: usize = 0;
    while i < last
        invariant
            last == parts@.len() - 1,
            i <= last,
            all == slices(parts@),
            found@.len() == i,
            forall|j: int| 0 <= j < i ==> (#[trigger] found@[j])@ == without_last(all[j], '\r'),
        decreases last - i,
    {
        let part = parts[i];
        assert(all[i as int] == part@);
        found.push(to_text(strip_last(part, '\r')));
        i += 1;
    }
    let ghost ended = found@;
    let part = parts[last];
    assert(all.last() == part@);
    if part.len() > 0 {
        found.push(to_text(part));
    }
    assert(texts(found@) =~= lines(text@));
    found
}

// ---- The frecency database ---------------------------------------------------------------------

/// The path and the rank of a line of the database: `path|rank|time`, or
/// `path|rank`. The fields are read off the end, so that a separator in a
/// path survives.
pub open spec fn rank_fields(line: Seq<char>) -> Option<(Seq<char>, Seq<char>)> {
    let last = find_last(line, '|');
    if last < 0 {
        None
    } else {
        let head = line.take(last);
        let second = find_last(head, '|');
        if second < 0 {
            Some((head, trimmed(line.skip(last + 1))))
        } else {
            Some((head.take(second), trimmed(head.skip(second + 1))))
        }
    }
}

/// The path and the rank of a line of the database.
pub fn read_rank_line(line: &str) -> (fields: Option<(String, String)>)
    ensures
        match fields {
            Some((path, rank)) => rank_fields(line@) == Some((path@, rank@)),
            None => rank_fields(line@) is None,
        },
{
    let chars = to_chars(line);
    let end: usize = chars.len();
    let last = match last_position(&chars, '|') {
        None => {
            return None;
        },
        Some(last) => last,
    };
    let head = slice_subrange(chars.as_slice(), 0, last);
    assert(head@ =~= line@.take(last as int));
    match last_position(head, '|') {
        None => {
            let rank = slice_subrange(chars.as_slice(), last + 1, end);
            assert(rank@ =~= line@.skip(last + 1));
            Some((to_text(head), to_text(trim(rank))))
        },
        Some(second) => {
            let path = slice_subrange(head, 0, second);
            let rank = slice_subrange(head, second + 1, last);
            assert(path@ =~= head@.take(second as int));
            assert(rank@ =~= head@.skip(second + 1));
            Some((to_text(path), to_text(trim(rank))))
        },
    }
}

/// A line of the database whose rank was read: a number that grows with the
/// rank, and the path.
#[derive(Clone, Debug, PartialEq, Eq)]
pub struct RankedPath {
    pub rank: u64,
    pub path: String,
}

/// What ranked paths are ordered by: the highest rank goes first.
pub open spec fn rank_keys(entries: Seq<RankedPath>) -> Seq<Key> {
    Seq::new(entries.len(), |i: int| ((u64::MAX - entries[i].rank) as u64, 0u64, 0u64))
}

/// The paths of the database, highest rank first; equal ranks stay in the
/// order of the file.
pub fn by_rank(entries: &Vec<RankedPath>) -> (paths: Vec<String>)
    ensures
        texts(paths@) == ({
            let order = the_order(by_key(rank_keys(entries@)), entries@.len() as int);
            Seq::new(order.len(), |i: int| entries@[order[i] as int].path@)
        }),
{
    let mut keys: Vec<Key> = Vec::new();
    let mut i: usize = 0;
    while i < entries.len()
        invariant
            i <= entries@.len(),
            keys@ == rank_keys(entries@).take(i as int),
        decreases entries@.len() - i,
    {
        keys.push((u64::MAX - entries[i].rank, 0, 0));
        i += 1;
        assert(keys@ =~= rank_keys(entries@).take(i as int));
    }
    assert(keys@ =~= rank_keys(entries@));
    let order = ascending(&keys);
    let mut paths: Vec<String> = Vec::new();
    let mut k: usize = 0;
    while k < order.len()
        invariant
            k <= order@.len(),
            paths@.len() == k,
            covers(order@, entries@.len() as int),
            forall|j: int|
                0 <= j < k ==> (#[trigger] paths@[j])@ == entries@[order@[j] as int].path@,
        decreases order@.len() - k,
    {
        paths.push(entries[order[k]].path.as_str().to_owned());
        k += 1;
    }
    assert(texts(paths@) =~= Seq::new(
        order@.len(),
        |i: int| entries@[order@[i] as int].path@,
    ));
    paths
}

// ---- The saved layout ------------------------------------------------------------------------

pub open spec fn pane_keys(panes: Seq<(u32, PaneSnapshot)>) -> Seq<Key> {
    Seq::new(panes.len(), |i: int| (panes[i].0 as u64, 0u64, 0u64))
}

/// The directories of a tab's panes, in the order of their numbers.
pub open spec fn tab_dirs(tab: TabSnapshot) -> Seq<Seq<char>> {
    let panes = tab.panes@;
    let order = the_order(by_key(pane_keys(panes)), panes.len() as int);
    Seq::new(order.len(), |i: int| panes[order[i] as int].1.cwd@)
}

/// The directories of tabs, one tab after another.
pub open spec fn tabs_dirs(tabs: Seq<TabSnapshot>) -> Seq<Seq<char>>
    decreases tabs.len(),
{
    if tabs.len() == 0 {
        Seq::empty()
    } else {
        tabs_dirs(tabs.drop_last()) + tab_dirs(tabs.last())
    }
}

/// The directories of workspaces: each one's own, then its panes'.
pub open spec fn layout_dirs(workspaces: Seq<WorkspaceSnapshot>) -> Seq<Seq<char>>
    decreases workspaces.len(),
{
    if workspaces.len() == 0 {
        Seq::empty()
    } else {
        let last = workspaces.last();
        layout_dirs(workspaces.drop_last()).push(last.identity_cwd@) + tabs_dirs(last.tabs@)
    }
}

fn push_tab_dirs(dirs: &mut Vec<String>, tab: &TabSnapshot)
    ensures
        texts(final(dirs)@) == texts(old(dirs)@) + tab_dirs(*tab),
{
    let ghost before = texts(dirs@);
    let mut keys: Vec<Key> = Vec::new();
    let mut i: usize = 0;
    while i < tab.panes.len()
        invariant
            i <= tab.panes@.len(),
            keys@ == pane_keys(tab.panes@).take(i as int),
        decreases tab.panes@.len() - i,
    {
        keys.push((tab.panes[i].0 as u64, 0, 0));
        i += 1;
        assert(keys@ =~= pane_keys(tab.panes@).take(i as int));
    }
    assert(keys@ =~= pane_keys(tab.panes@));
    let order = ascending(&keys);
    let ghost all = tab_dirs(*tab);
    let mut k: usize = 0;
    assert(before + all.take(0) =~= before);
    while k < order.len()
        invariant
            k <= order@.len(),
            covers(order@, tab.panes@.len() as int),
            all == Seq::new(order@.len(), |i: int| tab.panes@[order@[i] as int].1.cwd@),
            texts(dirs@) == before + all.take(k as int),
        decreases order@.len() - k,
    {
        let ghost known = texts(dirs@);
        dirs.push(tab.panes[order[k]].1.cwd.as_str().to_owned());
        assert(texts(dirs@) =~= known.push(all[k as int]));
        assert(all.take(k + 1) =~= all.take(k as int).push(all[k as int]));
        assert(before + all.take(k + 1) =~= (before + all.take(k as int)).push(all[k as int]));
        k += 1;
    }
    assert(all.take(k as int) =~= all);
}

fn push_tabs_dirs(dirs: &mut Vec<String>, tabs: &Vec<TabSnapshot>)
    ensures
        texts(final(dirs)@) == texts(old(dirs)@) + tabs_dirs(tabs@),
{
    let ghost before = texts(dirs@);
    let mut i: usize = 0;
    assert(tabs@.take(0) =~= Seq::<TabSnapshot>::empty());
    assert(before + tabs_dirs(tabs@.take(0)) =~= before);
    while i < tabs.len()
        invariant
            i <= tabs@.len(),
            texts(dirs@) == before + tabs_dirs(tabs@.take(i as int)),
        decreases tabs@.len() - i,
    {
        push_tab_dirs(dirs, &tabs[i]);
        proof {
            assert(tabs@.take(i + 1).drop_last() =~= tabs@.take(i as int));
            assert(before + tabs_dirs(tabs@.take(i + 1)) =~= before + tabs_dirs(
                tabs@.take(i as int),
            ) + tab_dirs(tabs@[i as int]));
        }
        i += 1;
    }
    assert(tabs@.take(i as int) =~= tabs@);
}

/// The directories that a saved layout stands in: each workspace's own, then
/// its panes' in the order of their numbers, so that one layout always reads
/// the same way.
pub fn persisted_layout_dirs(snapshot: &SessionSnapshot) -> (dirs: Vec<String>)
    ensures
        texts(dirs@) == layout_dirs(snapshot.workspaces@),
{
    let mut dirs: Vec<String> = Vec::new();
    let ghost all = snapshot.workspaces@;
    let mut i: usize = 0;
    assert(all.take(0) =~= Seq::<WorkspaceSnapshot>::empty());
    assert(texts(dirs@) =~= Seq::<Seq<char>>::empty());
    while i < snapshot.workspaces.len()
        invariant
            i <= snapshot.workspaces@.len(),
            all == snapshot.workspaces@,
            texts(dirs@) == layout_dirs(all.take(i as int)),
        decreases snapshot.workspaces@.len() - i,
    {
        let ghost known = texts(dirs@);
        dirs.push(snapshot.workspaces[i].identity_cwd.as_str().to_owned());
        assert(texts(dirs@) =~= known.push(all[i as int].identity_cwd@));
        push_tabs_dirs(&mut dirs, &snapshot.workspaces[i].tabs);
        assert(all.take(i + 1).drop_last() =~= all.take(i as int));
        i += 1;
    }
    assert(all.take(i as int) =~= all);
    dirs
}

// ---- Session transcripts ---------------------------------------------------------------------

/// Where an agent files its sessions, and how many directories deep.
#[derive(Clone, Debug, PartialEq, Eq)]
pub struct SessionRoot {
    pub path: String,
    pub depth: usize,
}

/// The places below a home where agents file their sessions.
pub fn session_roots(home: &str) -> (roots: Vec<SessionRoot>)
    ensures
        roots@.len() == 2,
        roots@[0].path@ == child(child(child(home@, ".pi"@), "agent"@), "sessions"@),
        roots@[0].depth == 1,
        roots@[1].path@ == child(child(home@, ".codex"@), "sessions"@),
        roots@[1].depth == 3,
{
    let pi = child_of(&child_of(&child_of(home, ".pi"), "agent"), "sessions");
    let codex = child_of(&child_of(home, ".codex"), "sessions");
    let mut roots: Vec<SessionRoot> = Vec::new();
    roots.push(SessionRoot { path: pi, depth: 1 });
    roots.push(SessionRoot { path: codex, depth: 3 });
    roots
}

/// Where a session started, given what its first line says: its own field, or
/// the one inside its payload.
pub fn session_cwd(own: Option<String>, in_payload: Option<String>) -> (cwd: Option<String>)
    ensures
        cwd == (if own is Some {
            own
        } else {
            in_payload
        }),
{
    match own {
        Some(cwd) => Some(cwd),
        None => in_payload,
    }
}

/// A file or directory that a walk came upon.
#[derive(Clone, Debug, PartialEq, Eq)]
pub struct WalkEntry {
    pub path: String,
    pub name: String,
    /// When it was last written, in nanoseconds from the epoch; a moment that
    /// is not known is the epoch.
    pub modified: i128,
}

/// Whether a text comes after another in the order of its characters.
pub open spec fn text_after(left: Seq<char>, right: Seq<char>) -> bool
    decreases left.len(),
{
    if left.len() == 0 {
        false
    } else if right.len() == 0 {
        true
    } else if left[0] != right[0] {
        left[0] > right[0]
    } else {
        text_after(left.skip(1), right.skip(1))
    }
}

fn is_after(left: &[char], right: &[char]) -> (yes: bool)
    ensures
        yes == text_after(left@, right@),
{
    let mut i: usize = 0;
    assert(left@.skip(0) =~= left@);
    assert(right@.skip(0) =~= right@);
    while i < left.len() && i < right.len() && left[i] == right[i]
        invariant
            i <= left@.len(),
            i <= right@.len(),
            text_after(left@.skip(i as int), right@.skip(i as int)) == text_after(left@, right@),
        decreases left@.len() - i,
    {
        assert(left@.skip(i as int).skip(1) =~= left@.skip(i + 1));
        assert(right@.skip(i as int).skip(1) =~= right@.skip(i + 1));
        i += 1;
    }
    if i == left.len() {
        return false;
    }
    if i == right.len() {
        return true;
    }
    left[i] > right[i]
}

proof fn lemma_text_after(left: Seq<char>, middle: Seq<char>, right: Seq<char>)
    ensures
        !text_after(left, left),
        text_after(left, middle) ==> !text_after(middle, left),
        text_after(left, middle) && text_after(middle, right) ==> text_after(left, right),
        text_after(left, middle) || text_after(middle, left) || left == middle,
    decreases left.len() + middle.len() + right.len(),
{
    if left.len() > 0 && middle.len() > 0 {
        let rest = if right.len() > 0 {
            right.skip(1)
        } else {
            right
        };
        lemma_text_after(left.skip(1), middle.skip(1), rest);
        if left[0] == middle[0] && left.skip(1) == middle.skip(1) {
            assert(left =~= seq![left[0]] + left.skip(1));
            assert(middle =~= seq![middle[0]] + middle.skip(1));
            assert(left =~= middle);
        }
    } else {
        if left.len() > 0 {
            lemma_text_after(left.skip(1), middle, right);
        }
        if left.len() == 0 && middle.len() == 0 {
            assert(left =~= middle);
        }
    }
}

/// Whether an entry goes before another: the newer one, and the one with the
/// later name where they are equally new.
pub open spec fn goes_first(left: WalkEntry, right: WalkEntry) -> bool {
    left.modified > right.modified || (left.modified == right.modified && text_after(
        left.name@,
        right.name@,
    ))
}

/// Newest first, with the name as a tie break, and then the place.
pub open spec fn by_age(entries: Seq<WalkEntry>) -> Relation {
    |left: int, right: int|
        goes_first(entries[left], entries[right]) || (!goes_first(entries[right], entries[left])
            && left < right)
}

fn is_first(left: &WalkEntry, right: &WalkEntry) -> (yes: bool)
    ensures
        yes == goes_first(*left, *right),
{
    if left.modified != right.modified {
        return left.modified > right.modified;
    }
    let one = to_chars(&left.name);
    let two = to_chars(&right.name);
    is_after(&one, &two)
}

proof fn lemma_by_age(entries: Seq<WalkEntry>)
    ensures
        is_strict(by_age(entries)),
        forall|a: int, b: int, c: int| #[trigger]
            by_age(entries)(a, b) && #[trigger] by_age(entries)(b, c) ==> by_age(entries)(a, c),
{
    assert forall|a: int, b: int| #[trigger] by_age(entries)(a, b) implies !by_age(entries)(
        b,
        a,
    ) by {
        lemma_text_after(entries[a].name@, entries[b].name@, entries[a].name@);
        lemma_text_after(entries[b].name@, entries[a].name@, entries[b].name@);
    }
    assert forall|a: int, b: int, c: int| #[trigger]
        by_age(entries)(a, b) && #[trigger] by_age(entries)(b, c) implies by_age(entries)(
        a,
        c,
    ) by {
        lemma_text_after(entries[a].name@, entries[b].name@, entries[c].name@);
        lemma_text_after(entries[b].name@, entries[a].name@, entries[c].name@);
        lemma_text_after(entries[b].name@, entries[c].name@, entries[a].name@);
        lemma_text_after(entries[c].name@, entries[b].name@, entries[a].name@);
        lemma_text_after(entries[c].name@, entries[a].name@, entries[b].name@);
        lemma_text_after(entries[a].name@, entries[c].name@, entries[b].name@);
    }
}

fn comes_first(entries: &Vec<WalkEntry>, left: usize, right: usize) -> (yes: bool)
    requires
        are_places(left, right, entries@.len()),
    ensures
        yes == by_age(entries@)(left as int, right as int),
{
    is_first(&entries[left], &entries[right]) || (!is_first(&entries[right], &entries[left]) && left
        < right)
}

/// The places of some entries, newest first.
pub fn newest_first(entries: &Vec<WalkEntry>) -> (order: Vec<usize>)
    ensures
        covers(order@, entries@.len() as int),
        order@ == the_order(by_age(entries@), entries@.len() as int),
{
    proof {
        lemma_by_age(entries@);
    }
    let goes_first = |left: usize, right: usize| -> (yes: bool)
        requires
            are_places(left, right, entries@.len()),
        ensures
            yes == by_age(entries@)(left as int, right as int),
    {
        comes_first(entries, left, right)
    };
    sorted(entries.len(), goes_first, Ghost(by_age(entries@)))
}

// ---- The walk --------------------------------------------------------------------------------

/// An entry over its texts.
pub ghost struct EntryView {
    pub path: Seq<char>,
    pub name: Seq<char>,
    pub modified: i128,
}

impl View for WalkEntry {
    type V = EntryView;

    open spec fn view(&self) -> EntryView {
        EntryView { path: self.path@, name: self.name@, modified: self.modified }
    }
}

/// Whether a file is a transcript by its name: something, then `.jsonl`.
pub open spec fn is_transcript(name: Seq<char>) -> bool {
    has_suffix(name, ".jsonl"@) && name.len() > ".jsonl"@.len()
}

fn names_transcript(name: &str) -> (yes: bool)
    ensures
        yes == is_transcript(name@),
{
    proof {
        reveal_strlit(".jsonl");
    }
    let chars = to_chars(name);
    ends_with(&chars, ".jsonl") && chars.len() > 6
}

/// What a walk still has before it.
enum Pending {
    /// A directory to read, with so many directories between it and the
    /// transcripts.
    Directory(String, usize),
    /// An entry of a directory that was read at that depth.
    Entry(WalkEntry, usize),
}

/// What a walk still has before it, over its texts.
pub ghost enum PendingView {
    Directory(Seq<char>, nat),
    Entry(EntryView, nat),
}

spec fn pending_view(pending: Pending) -> PendingView {
    match pending {
        Pending::Directory(path, depth) => PendingView::Directory(path@, depth as nat),
        Pending::Entry(entry, depth) => PendingView::Entry(entry@, depth as nat),
    }
}

/// What a walk asks of the disk.
#[derive(Clone, Debug, PartialEq, Eq)]
pub enum WalkAsk {
    /// What a directory holds.
    Children(String),
    /// Whether an entry is a directory.
    IsDirectory(String),
    /// Nothing: the walk is over.
    Nothing,
}

/// What a walk asks of the disk, over its texts, and at which depth.
pub ghost enum AskView {
    Children(Seq<char>, nat),
    IsDirectory(Seq<char>, nat),
    Nothing,
}

/// A walk over the directories that an agent files its transcripts in. It is
/// a fixed shape, not a search: only files exactly so many directories down
/// count. It enters the newest directories first and stops at a bound, so the
/// bound cuts off the oldest history.
pub struct Walk {
    /// What is still before the walk, the next one last.
    pending: Vec<Pending>,
    found: Vec<WalkEntry>,
    /// The depth that the last question was asked at, and its path.
    asked: Option<(String, usize)>,
}

/// A walk over its texts.
pub ghost struct WalkView {
    pub pending: Seq<PendingView>,
    pub found: Seq<EntryView>,
    pub asked: Option<(Seq<char>, nat)>,
}

impl View for Walk {
    type V = WalkView;

    closed spec fn view(&self) -> WalkView {
        WalkView {
            pending: Seq::new(self.pending@.len(), |i: int| pending_view(self.pending@[i])),
            found: Seq::new(self.found@.len(), |i: int| self.found@[i]@),
            asked: match self.asked {
                Some((path, depth)) => Some((path@, depth as nat)),
                None => None,
            },
        }
    }
}

/// What a walk comes to before its next question, and the question. Entries
/// at the depth of the transcripts are taken or passed over without one.
pub open spec fn walked(pending: Seq<PendingView>, found: Seq<EntryView>) -> (
    Seq<PendingView>,
    Seq<EntryView>,
    AskView,
)
    decreases pending.len(),
{
    if found.len() >= SESSION_FILES_SCANNED || pending.len() == 0 {
        (pending, found, AskView::Nothing)
    } else {
        let rest = pending.drop_last();
        match pending.last() {
            PendingView::Directory(path, depth) => (rest, found, AskView::Children(path, depth)),
            PendingView::Entry(entry, depth) => if depth > 0 {
                (rest, found, AskView::IsDirectory(entry.path, depth))
            } else if is_transcript(entry.name) {
                walked(rest, found.push(entry))
            } else {
                walked(rest, found)
            },
        }
    }
}

/// Entries as they are put before a walk: newest first, the next one last.
pub open spec fn queued(entries: Seq<WalkEntry>, depth: nat) -> Seq<PendingView> {
    let order = the_order(by_age(entries), entries.len() as int);
    Seq::new(
        order.len(),
        |i: int| PendingView::Entry(entries[order[order.len() - 1 - i] as int]@, depth),
    )
}

impl Walk {
    /// Begin a walk below a root, with so many directories between it and the
    /// transcripts.
    pub fn begin(root: &SessionRoot) -> (walk: Walk)
        ensures
            walk@.pending == seq![PendingView::Directory(root.path@, root.depth as nat)],
            walk@.found == Seq::<EntryView>::empty(),
            walk@.asked is None,
    {
        let mut pending: Vec<Pending> = Vec::new();
        pending.push(Pending::Directory(root.path.as_str().to_owned(), root.depth));
        let walk = Walk { pending, found: Vec::new(), asked: None };
        assert(walk@.pending =~= seq![PendingView::Directory(root.path@, root.depth as nat)]);
        assert(walk@.found =~= Seq::<EntryView>::empty());
        walk
    }

    /// Walk on to the next question.
    #[verifier::loop_isolation(false)]
    pub fn next(&mut self) -> (ask: WalkAsk)
        ensures
            ({
                let (pending, found, asks) = walked(old(self)@.pending, old(self)@.found);
                &&& final(self)@.pending == pending
                &&& final(self)@.found == found
                &&& match asks {
                    AskView::Nothing => ask is Nothing && final(self)@.asked is None,
                    AskView::Children(path, depth) => (ask matches WalkAsk::Children(dir) && dir@
                        == path) && final(self)@.asked == Some((path, depth)),
                    AskView::IsDirectory(path, depth) => (ask matches WalkAsk::IsDirectory(entry)
                        && entry@ == path) && final(self)@.asked == Some((path, depth)),
                }
            }),
    {
        let ghost start = walked(self@.pending, self@.found);
        loop
            invariant
                walked(self@.pending, self@.found) == start,
            decreases self.pending@.len(),
        {
            let ghost before = self@;
            if self.found.len() >= SESSION_FILES_SCANNED || self.pending.len() == 0 {
                self.asked = None;
                assert(self@.pending =~= before.pending);
                assert(self@.found =~= before.found);
                return WalkAsk::Nothing;
            }
            let next = self.pending.pop();
            assert(before.pending.last() == pending_view(next->0));
            assert(self@.pending =~= before.pending.drop_last());
            assert(self@.found =~= before.found);
            match next {
                None => {
                    return WalkAsk::Nothing;
                },
                Some(Pending::Directory(path, depth)) => {
                    self.asked = Some((path.as_str().to_owned(), depth));
                    assert(self@.pending =~= before.pending.drop_last());
                    assert(self@.found =~= before.found);
                    return WalkAsk::Children(path);
                },
                Some(Pending::Entry(entry, depth)) => {
                    if depth > 0 {
                        self.asked = Some((entry.path.as_str().to_owned(), depth));
                        assert(self@.pending =~= before.pending.drop_last());
                        assert(self@.found =~= before.found);
                        return WalkAsk::IsDirectory(entry.path);
                    }
                    if names_transcript(&entry.name) {
                        self.found.push(entry);
                        assert(self@.pending =~= before.pending.drop_last());
                        assert(self@.found =~= before.found.push(entry@));
                    }
                },
            }
        }
    }

    /// The directory that was asked about holds these; where it could not be
    /// read, none.
    pub fn children(&mut self, entries: &Vec<WalkEntry>)
        ensures
            match old(self)@.asked {
                None => final(self)@ == old(self)@,
                Some((_, depth)) => final(self)@.pending == old(self)@.pending + queued(
                    entries@,
                    depth,
                ) && final(self)@.found == old(self)@.found && final(self)@.asked is None,
            },
    {
        let ghost before = self@;
        let depth: usize = match &self.asked {
            None => {
                return ;
            },
            Some((_, depth)) => *depth,
        };
        self.asked = None;
        assert(self@.pending =~= before.pending);
        assert(self@.found =~= before.found);
        let order = newest_first(entries);
        let ghost all = queued(entries@, depth as nat);
        let mut left: usize = order.len();
        assert(before.pending + all.take(0) =~= before.pending);
        while left > 0
            invariant
                left <= order@.len(),
                order@ == the_order(by_age(entries@), entries@.len() as int),
                covers(order@, entries@.len() as int),
                all == queued(entries@, depth as nat),
                all.len() == order@.len(),
                self@.pending == before.pending + all.take(order@.len() - left),
                self@.found == before.found,
                self@.asked is None,
            decreases left,
        {
            left -= 1;
            let ghost known = self@;
            let ghost at = order@.len() - left - 1;
            let entry = &entries[order[left]];
            let copy = WalkEntry {
                path: entry.path.as_str().to_owned(),
                name: entry.name.as_str().to_owned(),
                modified: entry.modified,
            };
            self.pending.push(Pending::Entry(copy, depth));
            assert(all[at] == PendingView::Entry(entry@, depth as nat));
            assert(self@.pending =~= known.pending.push(all[at]));
            assert(self@.found =~= known.found);
            assert(all.take(at + 1) =~= all.take(at).push(all[at]));
            assert(before.pending + all.take(at + 1) =~= (before.pending + all.take(at)).push(
                all[at],
            ));
        }
        assert(all.take(order@.len() as int) =~= all);
    }

    /// Whether the entry that was asked about is a directory.
    pub fn is_directory(&mut self, yes: bool)
        ensures
            match old(self)@.asked {
                None => final(self)@ == old(self)@,
                Some((path, depth)) => final(self)@.found == old(self)@.found
                    && final(self)@.asked is None && final(self)@.pending == (if yes && depth > 0 {
                    old(self)@.pending.push(PendingView::Directory(path, (depth - 1) as nat))
                } else {
                    old(self)@.pending
                }),
            },
    {
        let ghost before = self@;
        let mut asked: Option<(String, usize)> = None;
        std::mem::swap(&mut asked, &mut self.asked);
        assert(self@.pending =~= before.pending);
        assert(self@.found =~= before.found);
        match asked {
            None => {},
            Some((path, depth)) => {
                if yes && depth > 0 {
                    let ghost known = self@;
                    let ghost text = path@;
                    self.pending.push(Pending::Directory(path, depth - 1));
                    assert(self@.pending =~= known.pending.push(
                        PendingView::Directory(text, (depth - 1) as nat),
                    ));
                    assert(self@.found =~= known.found);
                }
            },
        }
    }

    /// The paths of the newest transcripts that the walk found, chosen by
    /// their age across every directory that it reached.
    pub fn newest_transcripts(self) -> (paths: Vec<String>)
        ensures
            texts(paths@) == newest_paths(self@.found),
    {
        let ghost found = self@.found;
        let mut keys: Vec<Key> = Vec::new();
        let mut i: usize = 0;
        while i < self.found.len()
            invariant
                i <= self.found@.len(),
                found == self@.found,
                keys@ == age_keys(found).take(i as int),
            decreases self.found@.len() - i,
        {
            let modified: i128 = self.found[i].modified;
            assert(found[i as int] == self.found@[i as int]@);
            let since: u128 = since_the_earliest(modified);
            let high: u64 = (since / 0x1_0000_0000_0000_0000) as u64;
            let low: u64 = (since % 0x1_0000_0000_0000_0000) as u64;
            keys.push((u64::MAX - high, u64::MAX - low, 0));
            i += 1;
            assert(keys@ =~= age_keys(found).take(i as int));
        }
        assert(keys@ =~= age_keys(found));
        let order = ascending(&keys);
        let mut paths: Vec<String> = Vec::new();
        let mut k: usize = 0;
        while k < order.len() && k < SESSION_FILES_READ
            invariant
                k <= order@.len(),
                k <= SESSION_FILES_READ,
                paths@.len() == k,
                found == self@.found,
                covers(order@, found.len() as int),
                forall|j: int|
                    0 <= j < k ==> (#[trigger] paths@[j])@ == found[order@[j] as int].path,
            decreases order@.len() - k,
        {
            assert(found[order@[k as int] as int] == self.found@[order@[k as int] as int]@);
            paths.push(self.found[order[k]].path.as_str().to_owned());
            k += 1;
        }
        assert(texts(paths@) =~= newest_paths(found));
        paths
    }
}

/// How far a moment is from the earliest one that there is.
pub open spec fn from_the_earliest(modified: i128) -> int {
    modified - i128::MIN
}

fn since_the_earliest(modified: i128) -> (since: u128)
    ensures
        since == from_the_earliest(modified),
{
    if modified < 0 {
        (modified - i128::MIN) as u128
    } else {
        modified as u128 + 0x8000_0000_0000_0000_0000_0000_0000_0000
    }
}

/// What transcripts are ordered by: the newest goes first.
pub open spec fn age_keys(found: Seq<EntryView>) -> Seq<Key> {
    Seq::new(
        found.len(),
        |i: int|
            (
                (u64::MAX - (from_the_earliest(found[i].modified) / 0x1_0000_0000_0000_0000)) as u64,
                (u64::MAX - (from_the_earliest(found[i].modified) % 0x1_0000_0000_0000_0000)) as u64,
                0u64,
            ),
    )
}

/// The paths of the newest entries, newest first, as many as are read.
pub open spec fn newest_paths(found: Seq<EntryView>) -> Seq<Seq<char>> {
    let order = the_order(by_key(age_keys(found)), found.len() as int);
    Seq::new(
        if order.len() < SESSION_FILES_READ {
            order.len()
        } else {
            SESSION_FILES_READ as nat
        },
        |i: int| found[order[i] as int].path,
    )
}

/// A walk never takes more transcripts than its bound.
pub proof fn law_a_walk_stays_within_its_bound(
    pending: Seq<PendingView>,
    found: Seq<EntryView>,
)
    requires
        found.len() <= SESSION_FILES_SCANNED,
    ensures
        walked(pending, found).1.len() <= SESSION_FILES_SCANNED,
        found.len() <= walked(pending, found).1.len(),
        walked(pending, found).1.take(found.len() as int) == found,
    decreases pending.len(),
{
    assert(found.take(found.len() as int) =~= found);
    if found.len() < SESSION_FILES_SCANNED && pending.len() > 0 {
        let rest = pending.drop_last();
        if let PendingView::Entry(entry, depth) = pending.last() {
            if depth == 0 {
                if is_transcript(entry.name) {
                    law_a_walk_stays_within_its_bound(rest, found.push(entry));
                    let after = walked(rest, found.push(entry)).1;
                    assert(after.take(found.len() as int) =~= after.take(
                        found.push(entry).len() as int,
                    ).take(found.len() as int));
                    assert(found.push(entry).take(found.len() as int) =~= found);
                } else {
                    law_a_walk_stays_within_its_bound(rest, found);
                }
            }
        }
    }
}

/// Older transcripts are never read in place of newer ones: every one that is
/// read is at least as new as every one that is not.
pub proof fn law_the_newest_transcripts_are_read(keys: Seq<Key>, order: Seq<usize>, i: int, j: int)
    requires
        covers(order, keys.len() as int),
        in_order(by_key(keys), order),
        0 <= i < j < order.len(),
    ensures
        !crate::ordering::smaller(keys[order[j] as int], keys[order[i] as int]),
{
    assert(by_key(keys)(order[i] as int, order[j] as int));
}

/// A source of sixteen mebibytes is read and a larger one is not, and nothing
/// that is no plain file is.
pub proof fn law_which_source_is_read(is_file: bool, len: u64, reads: bool)
    requires
        call_ensures(reads_source, (is_file, len), reads),
    ensures
        reads <==> is_file && len <= 16_777_216,
{
}

/// A line of the database is read off its end: whatever the path holds, the
/// rank stands between the last two separators, and behind the only one where
/// there is no time. A line without a separator is none.
pub proof fn law_what_a_database_line_says(path: Seq<char>, rank: Seq<char>, time: Seq<char>)
    requires
        !rank.contains('|'),
        !time.contains('|'),
    ensures
        rank_fields(path + seq!['|'] + rank + seq!['|'] + time) == Some((path, trimmed(rank))),
        !path.contains('|') ==> rank_fields(path + seq!['|'] + rank) == Some((path, trimmed(rank))),
        rank_fields(rank) is None,
{
    let head = path + seq!['|'] + rank;
    let line = head + seq!['|'] + time;
    law_the_last_one_is_found(head, time, '|');
    law_the_last_one_is_found(path, rank, '|');
    assert(line.take(head.len() as int) =~= head);
    assert(line.skip(head.len() + 1int) =~= time);
    assert(head.take(path.len() as int) =~= path);
    assert(head.skip(path.len() + 1int) =~= rank);
    lemma_find_last(path, '|');
    lemma_find_last(rank, '|');
}

/// A line ends at a line break, with or without a carriage return before it,
/// and the last one may go without.
pub proof fn law_where_a_line_ends(front: Seq<char>, line: Seq<char>)
    requires
        !line.contains('\n'),
        line.len() > 0 ==> line.last() != '\r',
    ensures
        lines(line + seq!['\n']) == seq![line],
        lines(line + seq!['\r', '\n']) == seq![line],
        lines(front + seq!['\n'] + line + seq!['\n']) == lines(front + seq!['\n']).push(line),
        lines(front + seq!['\n'] + line + seq!['\r', '\n']) == lines(front + seq!['\n']).push(line),
        line.len() > 0 ==> lines(front + seq!['\n'] + line) == lines(front + seq!['\n']).push(line),
        line.len() > 0 ==> lines(line) == seq![line],
        lines(Seq::<char>::empty()) == Seq::<Seq<char>>::empty(),
{
    let none = Seq::<char>::empty();
    let returned = line.push('\r');
    lemma_split_single(none, '\n');
    lemma_split_single(line, '\n');
    lemma_split_push(line, none, '\n');
    assert(line + seq!['\n'] + none =~= line + seq!['\n']);
    assert(!returned.contains('\n')) by {
        if returned.contains('\n') {
            let i = choose|i: int| 0 <= i < returned.len() && returned[i] == '\n';
            assert(line[i] == '\n');
        }
    }
    lemma_split_single(returned, '\n');
    lemma_split_push(returned, none, '\n');
    assert(returned + seq!['\n'] + none =~= line + seq!['\r', '\n']);
    assert(returned.drop_last() =~= line);
    assert(lines(line + seq!['\n']) =~= seq![line]);
    assert(lines(line + seq!['\r', '\n']) =~= seq![line]);
    assert(lines(none) =~= Seq::<Seq<char>>::empty());
    let parts = split(front, '\n');
    lemma_split_push(front, none, '\n');
    assert(front + seq!['\n'] + none =~= front + seq!['\n']);
    lemma_split_push(front, line, '\n');
    lemma_split_push(front + seq!['\n'] + line, none, '\n');
    assert(front + seq!['\n'] + line + seq!['\n'] + none =~= front + seq!['\n'] + line + seq!['\n']);
    lemma_split_push(front, returned, '\n');
    lemma_split_push(front + seq!['\n'] + returned, none, '\n');
    assert(front + seq!['\n'] + returned + seq!['\n'] + none =~= front + seq!['\n'] + line + seq![
        '\r',
        '\n',
    ]);
    assert(lines(front + seq!['\n'] + line + seq!['\n']) =~= lines(front + seq!['\n']).push(line));
    assert(lines(front + seq!['\n'] + line + seq!['\r', '\n']) =~= lines(front + seq!['\n']).push(
        line,
    ));
    if line.len() > 0 {
        assert(lines(front + seq!['\n'] + line) =~= lines(front + seq!['\n']).push(line));
        assert(lines(line) =~= seq![line]);
    }
}

/// The paths of the database come with the highest rank first, and equal ranks
/// in the order of the file.
pub proof fn law_higher_ranks_come_first(
    entries: Seq<RankedPath>,
    order: Seq<usize>,
    i: int,
    j: int,
)
    requires
        covers(order, entries.len() as int),
        in_order(by_key(rank_keys(entries)), order),
        0 <= i < j < order.len(),
    ensures
        entries[order[i] as int].rank >= entries[order[j] as int].rank,
        entries[order[i] as int].rank == entries[order[j] as int].rank ==> order[i] < order[j],
{
    assert(by_key(rank_keys(entries))(order[i] as int, order[j] as int));
}

/// The panes of a tab come in the order of their numbers.
pub proof fn law_panes_come_in_the_order_of_their_numbers(
    panes: Seq<(u32, PaneSnapshot)>,
    order: Seq<usize>,
    i: int,
    j: int,
)
    requires
        covers(order, panes.len() as int),
        in_order(by_key(pane_keys(panes)), order),
        0 <= i < j < order.len(),
    ensures
        panes[order[i] as int].0 <= panes[order[j] as int].0,
{
    assert(by_key(pane_keys(panes))(order[i] as int, order[j] as int));
}

/// The directories of a workspace stand behind those of the workspaces before
/// it: its own first, then those of its tabs.
pub proof fn law_a_workspace_comes_before_its_tabs(
    workspaces: Seq<WorkspaceSnapshot>,
    workspace: WorkspaceSnapshot,
    tab: TabSnapshot,
    tabs: Seq<TabSnapshot>,
)
    requires
        workspace.tabs@ == tabs.push(tab),
    ensures
        ({
            let before = layout_dirs(workspaces);
            let dirs = layout_dirs(workspaces.push(workspace));
            &&& dirs.len() > before.len()
            &&& dirs.take(before.len() as int) == before
            &&& dirs[before.len() as int] == workspace.identity_cwd@
            &&& dirs.skip(before.len() + 1int) == tabs_dirs(tabs) + tab_dirs(tab)
        }),
{
    let before = layout_dirs(workspaces);
    let dirs = layout_dirs(workspaces.push(workspace));
    assert(workspaces.push(workspace).drop_last() =~= workspaces);
    assert(tabs.push(tab).drop_last() =~= tabs);
    assert(dirs.take(before.len() as int) =~= before);
    assert(dirs.skip(before.len() + 1int) =~= tabs_dirs(tabs) + tab_dirs(tab));
}

/// Of two texts that begin alike, the one with the later character where they
/// part comes after, and a longer one comes after what it begins with.
pub proof fn law_which_text_comes_after(
    same: Seq<char>,
    left: Seq<char>,
    right: Seq<char>,
)
    ensures
        left.len() > 0 && right.len() > 0 && left[0] != right[0] ==> (text_after(
            same + left,
            same + right,
        ) <==> left[0] > right[0]),
        text_after(same + left, same) <==> left.len() > 0,
        !text_after(same, same + left),
    decreases same.len(),
{
    if same.len() == 0 {
        assert(same + left =~= left);
        assert(same + right =~= right);
    } else {
        let rest = same.skip(1);
        law_which_text_comes_after(rest, left, right);
        assert((same + left).skip(1) =~= rest + left);
        assert((same + right).skip(1) =~= rest + right);
        assert((same + left)[0] == same[0] && (same + right)[0] == same[0]);
    }
}

/// The newer of two entries goes first, and of two equally new ones the one
/// with the later name.
pub proof fn law_newer_entries_go_first(left: WalkEntry, right: WalkEntry)
    ensures
        left.modified > right.modified ==> goes_first(left, right) && !goes_first(right, left),
        left.modified == right.modified ==> (goes_first(left, right) <==> text_after(
            left.name@,
            right.name@,
        )),
{
}

/// A transcript is named by something and `.jsonl` behind it.
pub proof fn law_what_a_transcript_is_called(stem: Seq<char>, name: Seq<char>)
    ensures
        is_transcript(stem + ".jsonl"@) <==> stem.len() > 0,
        is_transcript(name) ==> name.len() > 6 && name.skip(name.len() - 6) == ".jsonl"@,
{
    reveal_strlit(".jsonl");
    let named = stem + ".jsonl"@;
    assert(named.skip(named.len() - 6) =~= ".jsonl"@);
}

/// An entry at the depth of the transcripts is taken where it is one by its
/// name and passed over where it is none; higher up it is asked about; and a
/// walk that has taken four hundred asks nothing more.
pub proof fn law_what_a_walk_does_next(
    pending: Seq<PendingView>,
    found: Seq<EntryView>,
    entry: EntryView,
    path: Seq<char>,
    depth: nat,
)
    ensures
        found.len() < 400 && is_transcript(entry.name) ==> walked(
            pending.push(PendingView::Entry(entry, 0)),
            found,
        ) == walked(pending, found.push(entry)),
        found.len() < 400 && !is_transcript(entry.name) ==> walked(
            pending.push(PendingView::Entry(entry, 0)),
            found,
        ) == walked(pending, found),
        found.len() < 400 && depth > 0 ==> walked(
            pending.push(PendingView::Entry(entry, depth)),
            found,
        ) == (pending, found, AskView::IsDirectory(entry.path, depth)),
        found.len() < 400 ==> walked(pending.push(PendingView::Directory(path, depth)), found) == (
            pending,
            found,
            AskView::Children(path, depth),
        ),
        found.len() >= 400 ==> walked(pending, found) == (pending, found, AskView::Nothing),
{
    assert(pending.push(PendingView::Entry(entry, 0)).drop_last() =~= pending);
    assert(pending.push(PendingView::Entry(entry, depth)).drop_last() =~= pending);
    assert(pending.push(PendingView::Directory(path, depth)).drop_last() =~= pending);
}

/// Transcripts are ordered by their age, the newest first, and those of one
/// age in the order they were found in.
pub proof fn law_newer_transcripts_come_first(
    found: Seq<EntryView>,
    order: Seq<usize>,
    i: int,
    j: int,
)
    requires
        covers(order, found.len() as int),
        in_order(by_key(age_keys(found)), order),
        0 <= i < j < order.len(),
    ensures
        found[order[i] as int].modified >= found[order[j] as int].modified,
        found[order[i] as int].modified == found[order[j] as int].modified ==> order[i] < order[j],
{
    let one = from_the_earliest(found[order[i] as int].modified);
    let two = from_the_earliest(found[order[j] as int].modified);
    assert(by_key(age_keys(found))(order[i] as int, order[j] as int));
    assert(0 <= one / 0x1_0000_0000_0000_0000 <= u64::MAX);
    assert(0 <= two / 0x1_0000_0000_0000_0000 <= u64::MAX);
    assert(0 <= one % 0x1_0000_0000_0000_0000 <= u64::MAX);
    assert(0 <= two % 0x1_0000_0000_0000_0000 <= u64::MAX);
}

/// No more than forty transcripts are read, and every one where there are no
/// more.
pub proof fn law_forty_transcripts_are_read(found: Seq<EntryView>)
    requires
        found.len() <= usize::MAX,
    ensures
        found.len() <= 40 ==> newest_paths(found).len() == found.len(),
        found.len() > 40 ==> newest_paths(found).len() == 40,
{
    let keys = age_keys(found);
    if found.len() > 0 {
        law_what_keys_are_ordered_by(keys, 0, 0);
    }
    let order = law_there_is_an_order(by_key(keys), found.len() as int);
}

/// Every pane of a tab is remembered by its directory.
pub proof fn law_no_pane_is_left_out(tab: TabSnapshot, pane: int)
    requires
        0 <= pane < tab.panes@.len(),
        tab.panes@.len() <= usize::MAX,
    ensures
        tab_dirs(tab).len() == tab.panes@.len(),
        tab_dirs(tab).contains(tab.panes@[pane].1.cwd@),
{
    let keys = pane_keys(tab.panes@);
    let count = tab.panes@.len() as int;
    law_what_keys_are_ordered_by(keys, pane, pane);
    let found = law_there_is_an_order(by_key(keys), count);
    let order = the_order(by_key(keys), count);
    assert(covers(order, count));
    assert(names(order, pane));
    let i = choose|i: int| 0 <= i < order.len() && #[trigger] order[i] == pane;
    assert(tab_dirs(tab)[i] == tab.panes@[pane].1.cwd@);
}

/// Sessions are looked for below two directories of the home: one directory
/// deep for the one agent, and three for the other.
pub proof fn law_where_sessions_are_filed(home: &str, roots: Vec<SessionRoot>)
    requires
        call_ensures(session_roots, (home,), roots),
        home@.len() > 0 && home@.last() != '/',
    ensures
        roots@.len() == 2,
        roots@[0].path@ == home@ + "/.pi/agent/sessions"@ && roots@[0].depth == 1,
        roots@[1].path@ == home@ + "/.codex/sessions"@ && roots@[1].depth == 3,
{
    reveal_strlit("/");
    reveal_strlit(".pi");
    reveal_strlit("agent");
    reveal_strlit("sessions");
    reveal_strlit(".codex");
    reveal_strlit("/.pi/agent/sessions");
    reveal_strlit("/.codex/sessions");
    let pi = home@ + "/"@ + ".pi"@;
    let agent = pi + "/"@ + "agent"@;
    let codex = home@ + "/"@ + ".codex"@;
    assert(pi.last() == 'i' && agent.last() == 't' && codex.last() == 'x');
    assert(child(home@, ".pi"@) =~= pi);
    assert(child(pi, "agent"@) =~= agent);
    assert(child(home@, ".codex"@) =~= codex);
    assert(child(agent, "sessions"@) =~= home@ + "/.pi/agent/sessions"@);
    assert(child(codex, "sessions"@) =~= home@ + "/.codex/sessions"@);
}

/// A session's own directory goes before the one inside its payload.
pub proof fn law_where_a_session_started(
    own: String,
    in_payload: Option<String>,
    by_own: Option<String>,
    by_payload: Option<String>,
)
    requires
        call_ensures(session_cwd, (Some(own), in_payload), by_own),
        call_ensures(session_cwd, (None::<String>, in_payload), by_payload),
    ensures
        by_own == Some(own),
        by_payload == in_payload,
{
}

/// The terminal multiplexer gets two seconds to answer.
pub proof fn law_how_long_the_multiplexer_gets()
    ensures
        TMUX_TIMEOUT_MILLIS == 2 * 1_000,
{
}

} // verus!
