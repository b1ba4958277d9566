//! Processes, shells and other operating-system facts, as decisions over what
//! the machine reported.

use crate::text::{
    ascii_alphanumeric, ascii_lower_all, find_last, has_suffix, is_ascii_alphanumeric, is_run,
    last_position, law_a_run_at_the_front_is_stripped, law_the_last_one_is_found, lemma_find_last,
    lower_ascii, rejoined, spells, strip_leading, strip_run, to_chars,
};
use vstd::prelude::*;
use vstd::slice::slice_subrange;

verus! {

// ---- What the machine reports --------------------------------------------------------------

#[derive(Clone, Debug, PartialEq, Eq)]
pub struct ForegroundProcess {
    pub pid: u32,
    pub name: String,
    pub argv0: Option<String>,
    pub argv: Option<Vec<String>>,
    pub cmdline: Option<String>,
}

#[derive(Clone, Debug, PartialEq, Eq)]
pub struct ForegroundJob {
    pub process_group_id: u32,
    pub processes: Vec<ForegroundProcess>,
}

#[derive(Clone, Copy, Debug, PartialEq, Eq, Structural)]
pub enum Signal {
    Hangup,
    Terminate,
    Kill,
}

#[derive(Clone, Debug, PartialEq, Eq)]
pub struct ClipboardCommand {
    pub program: &'static str,
    pub args: &'static [&'static str],
}

#[derive(Clone, Debug, PartialEq, Eq)]
pub struct ClipboardImage {
    pub bytes: Vec<u8>,
    pub extension: &'static str,
}

/// What the platform this process runs on can do.
#[derive(Clone, Copy, Debug, PartialEq, Eq, Structural)]
pub struct PlatformCapabilities {
    pub live_handoff: bool,
    pub direct_terminal_attach: bool,
    pub preserve_legacy_doubled_escape_input: bool,
}

/// The capabilities of a platform: the unix family hands sessions over and
/// attaches terminals directly, and macos keeps doubled escapes.
pub fn capabilities(is_unix: bool, is_macos: bool) -> (can: PlatformCapabilities)
    ensures
        can.live_handoff == is_unix,
        can.direct_terminal_attach == is_unix,
        can.preserve_legacy_doubled_escape_input == is_macos,
{
    PlatformCapabilities {
        live_handoff: is_unix,
        direct_terminal_attach: is_unix,
        preserve_legacy_doubled_escape_input: is_macos,
    }
}

/// Bytes still writable on a volume. Block counts are in fragments; the block
/// size stands in where a filesystem reports no fragment size.
pub fn available_bytes(available_blocks: u64, fragment_size: u64, block_size: u64) -> (bytes: u64)
    ensures
        ({
            let unit = if fragment_size > 0 {
                fragment_size
            } else {
                block_size
            };
            bytes == (if available_blocks * unit > u64::MAX {
                u64::MAX as int
            } else {
                available_blocks * unit
            })
        }),
{
    let unit: u64 = if fragment_size > 0 {
        fragment_size
    } else {
        block_size
    };
    match available_blocks.checked_mul(unit) {
        Some(bytes) => bytes,
        None => u64::MAX,
    }
}

/// The text that bytes decode to, with a replacement character for each
/// malformed part.
pub uninterp spec fn lossy_text(bytes: Seq<u8>) -> Seq<char>;

/// `String::from_utf8_lossy`: a function of the bytes alone.
#[verifier::external_body]
fn decode_lossy(bytes: &[u8]) -> (text: String)
    ensures
        text@ == lossy_text(bytes@),
{
    String::from_utf8_lossy(bytes).into_owned()
}

/// Where the first zero byte stands; the length where there is none.
pub open spec fn first_zero(bytes: Seq<u8>) -> int
    decreases bytes.len(),
{
    if bytes.len() == 0 || bytes[0] == 0 {
        0
    } else {
        1 + first_zero(bytes.skip(1))
    }
}

pub fn zero_position(bytes: &[u8]) -> (at: usize)
    ensures
        at == first_zero(bytes@),
        at <= bytes@.len(),
{
    let mut at: usize = 0;
    assert(bytes@.skip(0) =~= bytes@);
    while at < bytes.len() && bytes[at] != 0
        invariant
            at <= bytes@.len(),
            at + first_zero(bytes@.skip(at as int)) == first_zero(bytes@),
        decreases bytes@.len() - at,
    {
        assert(bytes@.skip(at as int).skip(1) =~= bytes@.skip(at + 1));
        at += 1;
    }
    at
}

/// The host name in a zero-terminated buffer, where it is a usable one.
pub fn hostname_from(text: String) -> (name: Option<String>)
    ensures
        crate::text::view_of(name) == crate::text::declared(Some(text@)),
{
    crate::text::declaration_of(Some(text.as_str()))
}

/// The machine's host name as the system reported it: the bytes up to the
/// first zero, decoded and trimmed. `None` where nothing usable is left.
pub fn hostname(buffer: &[u8]) -> (name: Option<String>)
    ensures
        crate::text::view_of(name) == crate::text::declared(
            Some(lossy_text(buffer@.take(first_zero(buffer@)))),
        ),
{
    let end: usize = zero_position(buffer);
    let bytes = slice_subrange(buffer, 0, end);
    assert(bytes@ =~= buffer@.take(end as int));
    hostname_from(decode_lossy(bytes))
}

// ---- Shells ----------------------------------------------------------------------------------

/// What follows the last separator of either kind.
pub open spec fn after_separators(name: Seq<char>) -> Seq<char> {
    let slash = find_last(name, '/');
    let backslash = find_last(name, '\\');
    if slash >= backslash {
        name.skip(slash + 1)
    } else {
        name.skip(backslash + 1)
    }
}

/// A name without the `.exe` endings it has, however often repeated.
pub open spec fn without_exe(name: Seq<char>) -> Seq<char>
    decreases name.len(),
{
    if name.len() >= 4 && has_suffix(name, ".exe"@) {
        without_exe(name.take(name.len() - 4))
    } else {
        name
    }
}

/// The name a process goes by: the last path component, without the leading
/// hyphens of a login shell, without `.exe`, in lowercase.
pub open spec fn process_name(name: Seq<char>) -> Seq<char> {
    ascii_lower_all(without_exe(strip_run(after_separators(name), '-')))
}

fn normalized_process_name(name: &str) -> (normalized: Vec<char>)
    ensures
        normalized@ == process_name(name@),
{
    let chars = to_chars(name);
    proof {
        crate::text::lemma_find_last(chars@, '/');
        crate::text::lemma_find_last(chars@, '\\');
        reveal_strlit(".exe");
    }
    let end: usize = chars.len();
    let from: usize = match (last_position(&chars, '/'), last_position(&chars, '\\')) {
        (Some(slash), Some(backslash)) => if slash >= backslash {
            slash + 1
        } else {
            backslash + 1
        },
        (Some(slash), None) => slash + 1,
        (None, Some(backslash)) => backslash + 1,
        (None, None) => 0,
    };
    let base = slice_subrange(&chars, from, end);
    assert(base@ =~= after_separators(name@));
    let mut stem: &[char] = strip_leading(base, '-');
    let ghost wanted = without_exe(stem@);
    while stem.len() >= 4 && crate::text::ends_with(stem, ".exe")
        invariant
            without_exe(stem@) == wanted,
            ".exe"@.len() == 4,
        decreases stem@.len(),
    {
        let shorter = slice_subrange(stem, 0, stem.len() - 4);
        assert(shorter@ =~= stem@.take(stem@.len() - 4));
        stem = shorter;
    }
    assert(stem@ == wanted);
    let mut normalized: Vec<char> = Vec::new();
    let mut i: usize = 0;
    while i < stem.len()
        invariant
            i <= stem@.len(),
            normalized@ == ascii_lower_all(stem@.take(i as int)),
        decreases stem@.len() - i,
    {
        normalized.push(lower_ascii(stem[i]));
        i += 1;
        assert(normalized@ =~= ascii_lower_all(stem@.take(i as int)));
    }
    assert(stem@.take(i as int) =~= stem@);
    normalized
}

pub open spec fn is_powershell(name: Seq<char>) -> bool {
    process_name(name) == "pwsh"@ || process_name(name) == "powershell"@
}

pub fn is_powershell_process_name(name: &str) -> (yes: bool)
    ensures
        yes == is_powershell(name@),
{
    let normalized = normalized_process_name(name);
    spells(&normalized, "pwsh") || spells(&normalized, "powershell")
}

/// The programs that count as a pane's shell.
pub open spec fn is_shell(name: Seq<char>) -> bool {
    let normalized = process_name(name);
    ||| normalized == "sh"@
    ||| normalized == "bash"@
    ||| normalized == "dash"@
    ||| normalized == "zsh"@
    ||| normalized == "fish"@
    ||| normalized == "ksh"@
    ||| normalized == "mksh"@
    ||| normalized == "csh"@
    ||| normalized == "tcsh"@
    ||| normalized == "elvish"@
    ||| normalized == "xonsh"@
    ||| normalized == "nu"@
    ||| normalized == "pwsh"@
    ||| normalized == "powershell"@
    ||| normalized == "cmd"@
}

pub fn is_pane_shell_process_name(name: &str) -> (yes: bool)
    ensures
        yes == is_shell(name@),
{
    let normalized = normalized_process_name(name);
    spells(&normalized, "sh") || spells(&normalized, "bash") || spells(&normalized, "dash")
        || spells(&normalized, "zsh") || spells(&normalized, "fish") || spells(&normalized, "ksh")
        || spells(&normalized, "mksh") || spells(&normalized, "csh") || spells(&normalized, "tcsh")
        || spells(&normalized, "elvish") || spells(&normalized, "xonsh") || spells(
        &normalized,
        "nu",
    ) || spells(&normalized, "pwsh") || spells(&normalized, "powershell") || spells(
        &normalized,
        "cmd",
    )
}

/// Whether a pane sits at its shell's prompt: the shell's own process group is
/// in the foreground and holds nothing but the shell.
pub open spec fn holds_only(job: ForegroundJob, child_pid: u32) -> bool {
    &&& job.process_group_id == child_pid
    &&& job.processes@.len() > 0
    &&& forall|i: int|
        0 <= i < job.processes@.len() ==> (#[trigger] job.processes@[i]).pid == child_pid
}

/// The shell that a pane's child is and sits at, where it does.
pub fn available_pane_shell_from_job(child_pid: u32, job: &ForegroundJob) -> (shell: Option<String>)
    ensures
        if holds_only(*job, child_pid) && is_shell(job.processes@[0].name@) {
            shell matches Some(name) && name@ == job.processes@[0].name@
        } else {
            shell is None
        },
{
    if job.process_group_id != child_pid || job.processes.len() == 0 {
        return None;
    }
    let mut i: usize = 0;
    while i < job.processes.len()
        invariant
            i <= job.processes@.len(),
            forall|j: int| 0 <= j < i ==> (#[trigger] job.processes@[j]).pid == child_pid,
        decreases job.processes@.len() - i,
    {
        if job.processes[i].pid != child_pid {
            assert(job.processes@[i as int].pid != child_pid);
            return None;
        }
        i += 1;
    }
    if is_pane_shell_process_name(&job.processes[0].name) {
        Some(job.processes[0].name.clone())
    } else {
        None
    }
}

// ---- Quoting -------------------------------------------------------------------------------

/// The characters that powershell takes unquoted.
pub open spec fn is_powershell_plain(c: char) -> bool {
    is_ascii_alphanumeric(c) || c == '_' || c == '-' || c == '.' || c == '/' || c == ':' || c == '+'
        || c == '='
}

/// A text inside single quotes, where a quote is doubled.
pub open spec fn quotes_doubled(value: Seq<char>) -> Seq<char>
    decreases value.len(),
{
    if value.len() == 0 {
        Seq::empty()
    } else if value.last() == '\'' {
        quotes_doubled(value.drop_last()) + "''"@
    } else {
        quotes_doubled(value.drop_last()).push(value.last())
    }
}

/// An argument as one word of a powershell command line.
pub open spec fn powershell_word(value: Seq<char>) -> Seq<char> {
    if value.len() > 0 && (forall|i: int|
        0 <= i < value.len() ==> is_powershell_plain(#[trigger] value[i])) {
        value
    } else {
        seq!['\''] + quotes_doubled(value) + seq!['\'']
    }
}

fn powershell_plain(c: char) -> (yes: bool)
    ensures
        yes == is_powershell_plain(c),
{
    ascii_alphanumeric(c) || c == '_' || c == '-' || c == '.' || c == '/' || c == ':' || c == '+'
        || c == '='
}

#[verifier::loop_isolation(false)]
pub fn quote_powershell_arg(value: &str) -> (word: String)
    ensures
        word@ == powershell_word(value@),
{
    let chars = to_chars(value);
    let mut all_plain = chars.len() > 0;
    let mut i: usize = 0;
    while i < chars.len() && all_plain
        invariant
            i <= chars@.len(),
            all_plain ==> chars@.len() > 0 && (forall|j: int|
                0 <= j < i ==> is_powershell_plain(#[trigger] chars@[j])),
            !all_plain ==> chars@.len() == 0 || (exists|j: int|
                0 <= j < chars@.len() && !is_powershell_plain(#[trigger] chars@[j])),
        decreases chars@.len() - i, (if all_plain { 1int } else { 0int }),
    {
        if powershell_plain(chars[i]) {
            i += 1;
        } else {
            assert(!is_powershell_plain(chars@[i as int]));
            all_plain = false;
        }
    }
    if all_plain {
        return value.to_string();
    }
    let mut word = String::new();
    word.push('\'');
    let mut k: usize = 0;
    assert(chars@.take(0) =~= Seq::<char>::empty());
    assert(word@ =~= seq!['\''] + quotes_doubled(chars@.take(0)));
    while k < chars.len()
        invariant
            k <= chars@.len(),
            word@ == seq!['\''] + quotes_doubled(chars@.take(k as int)),
        decreases chars@.len() - k,
    {
        let c: char = chars[k];
        if c == '\'' {
            word.push_str("''");
        } else {
            word.push(c);
        }
        k += 1;
        proof {
            let next = chars@.take(k as int);
            assert(next.drop_last() =~= chars@.take(k - 1));
            assert(word@ =~= seq!['\''] + quotes_doubled(next));
        }
    }
    assert(chars@.take(k as int) =~= chars@);
    word.push('\'');
    assert(word@ =~= powershell_word(value@));
    word
}

/// Words with a space between neighbours.
pub open spec fn spaced(words: Seq<Seq<char>>) -> Seq<char>
    decreases words.len(),
{
    if words.len() == 0 {
        Seq::empty()
    } else if words.len() == 1 {
        words[0]
    } else {
        spaced(words.drop_last()) + " "@ + words.last()
    }
}

/// Whether a quoting makes a word of an argument.
pub open spec fn makes_word<F: Fn(&str) -> String>(
    quote: F,
    argument: Seq<char>,
    word: Seq<char>,
) -> bool {
    exists|text: &str, quoted: String|
        #[trigger] quote.ensures((text,), quoted) && text@ == argument && quoted@ == word
}

/// Whether words are the arguments as a shell reads them back: quoted for
/// powershell where it is that, else with the quoting given for posix shells.
pub open spec fn are_words<F: Fn(&str) -> String>(
    argv: Seq<String>,
    shell_name: Seq<char>,
    quote_posix_arg: F,
    words: Seq<Seq<char>>,
) -> bool {
    &&& words.len() == argv.len()
    &&& forall|i: int|
        0 <= i < words.len() ==> if is_powershell(shell_name) {
            #[trigger] words[i] == powershell_word(argv[i]@)
        } else {
            makes_word(quote_posix_arg, argv[i]@, words[i])
        }
}

/// The command line that a shell reads back as these arguments, given how a
/// posix shell's are quoted.
pub fn interactive_unix_shell_command<F: Fn(&str) -> String>(
    argv: &Vec<String>,
    shell_name: &str,
    quote_posix_arg: F,
) -> (command: Option<String>)
    requires
        forall|text: &str| #[trigger] quote_posix_arg.requires((text,)),
    ensures
        match command {
            Some(command) => argv@.len() > 0 && exists|words: Seq<Seq<char>>|
                #[trigger] are_words(argv@, shell_name@, quote_posix_arg, words) && command@
                    == spaced(words),
            None => argv@.len() == 0,
        },
{
    if argv.len() == 0 {
        return None;
    }
    let powershell = is_powershell_process_name(shell_name);
    let mut command = String::new();
    let ghost mut words: Seq<Seq<char>> = Seq::empty();
    let mut i: usize = 0;
    while i < argv.len()
        invariant
            i <= argv@.len(),
            powershell == is_powershell(shell_name@),
            forall|text: &str| #[trigger] quote_posix_arg.requires((text,)),
            are_words(argv@.take(i as int), shell_name@, quote_posix_arg, words),
            command@ == spaced(words),
        decreases argv@.len() - i,
    {
        let ghost before = words;
        let ghost text = command@;
        let word = if powershell {
            quote_powershell_arg(&argv[i])
        } else {
            quote_posix_arg(argv[i].as_str())
        };
        if i > 0 {
            command.push_str(" ");
        }
        command.push_str(&word);
        i += 1;
        proof {
            words = before.push(word@);
            assert(words.drop_last() =~= before);
            if !powershell {
                assert(makes_word(quote_posix_arg, argv@[i - 1]@, word@));
            }
            assert forall|j: int| 0 <= j < words.len() implies if is_powershell(shell_name@) {
                #[trigger] words[j] == powershell_word(argv@.take(i as int)[j]@)
            } else {
                makes_word(quote_posix_arg, argv@.take(i as int)[j]@, words[j])
            } by {
                if j < i - 1 {
                    assert(words[j] == before[j]);
                    assert(argv@.take(i - 1)[j] == argv@.take(i as int)[j]);
                }
            }
            assert(command@ =~= spaced(words));
        }
    }
    assert(argv@.take(i as int) =~= argv@);
    Some(command)
}

// ---- The directory of the driven shell ---------------------------------------------------------

/// How far the climb from the foreground goes.
pub const MAX_FOREGROUND_ANCESTRY: u32 = 16;

/// Where the search for a pane's working directory stands: the question to
/// ask next, or the answer.
#[derive(Clone, Debug, PartialEq, Eq)]
pub enum CwdSearch {
    /// Ask for the parent and the name of the pane's child.
    AskChild { child: u32, group: Option<u32> },
    /// Ask for a live member of the foreground group.
    AskMember { child: u32, group: u32 },
    /// Ask for the parent and the name of a process on the climb.
    AskProcess { child: u32, current: u32, left: u32 },
    /// Ask for the directory of the shell that was found.
    AskShellCwd { child: u32, shell: u32 },
    /// Ask for the directory of the pane's child.
    AskChildCwd { child: u32 },
    /// The search is over.
    Answer(Option<String>),
}

/// What the machine answered.
#[derive(Clone, Debug, PartialEq, Eq)]
pub enum CwdReply {
    /// Parent and name of a process, where it lives.
    Process(Option<(u32, String)>),
    /// A live member of a group, where there is one.
    Member(Option<u32>),
    /// A directory, where it could be read.
    Cwd(Option<String>),
}

/// The machine's processes as one moment would show them.
pub ghost struct Processes {
    pub parent_and_name: spec_fn(u32) -> Option<(u32, Seq<char>)>,
    pub live_member: spec_fn(u32) -> Option<u32>,
}

/// The first shell met climbing from a process towards the pane's child,
/// within a number of steps.
pub open spec fn climb(processes: Processes, child: u32, current: u32, left: nat) -> Option<u32>
    decreases left,
{
    if left == 0 || current == child {
        None
    } else {
        match (processes.parent_and_name)(current) {
            None => None,
            Some((parent, name)) => if is_shell(name) {
                Some(current)
            } else if parent <= 1 {
                None
            } else {
                climb(processes, child, parent, (left - 1) as nat)
            },
        }
    }
}

/// The nested shell that the user is driving, where there is one: only in a
/// pane whose child is a shell, and only on the ancestry of the foreground.
pub open spec fn driven_shell(processes: Processes, child: u32, group: Option<u32>) -> Option<u32> {
    if child == 0 {
        None
    } else {
        match (processes.parent_and_name)(child) {
            None => None,
            Some((_, name)) => if !is_shell(name) {
                None
            } else {
                match group {
                    None => None,
                    Some(group) => match (processes.live_member)(group) {
                        None => None,
                        Some(member) => climb(processes, child, member, 16),
                    },
                }
            },
        }
    }
}

/// Begin the search for the working directory of a pane's effective shell:
/// the direct child, or the nested shell the user is actually driving.
pub fn pane_shell_cwd(child_pid: u32, foreground_process_group: Option<u32>) -> (search: CwdSearch)
    ensures
        search == (if child_pid == 0 {
            CwdSearch::AskChildCwd { child: child_pid }
        } else {
            CwdSearch::AskChild { child: child_pid, group: foreground_process_group }
        }),
{
    if child_pid == 0 {
        return CwdSearch::AskChildCwd { child: child_pid };
    }
    CwdSearch::AskChild { child: child_pid, group: foreground_process_group }
}

/// The shell that a search still has to find, among given processes.
pub open spec fn pending_shell(search: CwdSearch, processes: Processes) -> Option<u32> {
    match search {
        CwdSearch::AskChild { child, group } => driven_shell(processes, child, group),
        CwdSearch::AskMember { child, group } => match (processes.live_member)(group) {
            None => None,
            Some(member) => climb(processes, child, member, 16),
        },
        CwdSearch::AskProcess { child, current, left } => climb(
            processes,
            child,
            current,
            left as nat,
        ),
        CwdSearch::AskShellCwd { shell, .. } => Some(shell),
        _ => None,
    }
}

/// The child that a search falls back to.
pub open spec fn child_of_search(search: CwdSearch) -> Option<u32> {
    match search {
        CwdSearch::AskChild { child, .. } => Some(child),
        CwdSearch::AskMember { child, .. } => Some(child),
        CwdSearch::AskProcess { child, .. } => Some(child),
        CwdSearch::AskShellCwd { child, .. } => Some(child),
        CwdSearch::AskChildCwd { child } => Some(child),
        CwdSearch::Answer(_) => None,
    }
}

/// Whether a reply answers the question that a search asks, as given
/// processes would.
pub open spec fn answers(search: CwdSearch, reply: CwdReply, processes: Processes) -> bool {
    match search {
        CwdSearch::AskChild { child, .. } => reply matches CwdReply::Process(found)
            && matches_process(found, (processes.parent_and_name)(child)),
        CwdSearch::AskProcess { current, .. } => reply matches CwdReply::Process(found)
            && matches_process(found, (processes.parent_and_name)(current)),
        CwdSearch::AskMember { group, .. } => reply matches CwdReply::Member(found) && found
            == (processes.live_member)(group),
        _ => reply is Cwd,
    }
}

pub open spec fn matches_process(
    found: Option<(u32, String)>,
    wanted: Option<(u32, Seq<char>)>,
) -> bool {
    match (found, wanted) {
        (Some((parent, name)), Some((wanted_parent, wanted_name))) => parent == wanted_parent
            && name@ == wanted_name,
        (None, None) => true,
        _ => false,
    }
}

/// The number of questions a search can still ask.
pub open spec fn questions_left(search: CwdSearch) -> nat {
    match search {
        CwdSearch::AskChild { .. } => 20,
        CwdSearch::AskMember { .. } => 19,
        CwdSearch::AskProcess { left, .. } => (left + 2) as nat,
        CwdSearch::AskShellCwd { .. } => 2,
        CwdSearch::AskChildCwd { .. } => 1,
        CwdSearch::Answer(_) => 0,
    }
}

/// One step of the search: a process that is no shell is climbed past, the
/// first shell met is asked for its directory, and everything else ends at
/// the child's own directory.
pub open spec fn next_question(search: CwdSearch, reply: CwdReply) -> CwdSearch {
    match search {
        CwdSearch::AskChild { child, group } => match (reply, group) {
            (CwdReply::Process(Some((_, name))), Some(group)) => if is_shell(name@) {
                CwdSearch::AskMember { child, group }
            } else {
                CwdSearch::AskChildCwd { child }
            },
            _ => CwdSearch::AskChildCwd { child },
        },
        CwdSearch::AskMember { child, .. } => match reply {
            CwdReply::Member(Some(member)) => if member == child {
                CwdSearch::AskChildCwd { child }
            } else {
                CwdSearch::AskProcess { child, current: member, left: 16 }
            },
            _ => CwdSearch::AskChildCwd { child },
        },
        CwdSearch::AskProcess { child, current, left } => match reply {
            CwdReply::Process(Some((parent, name))) => if current == child {
                CwdSearch::AskChildCwd { child }
            } else if is_shell(name@) {
                CwdSearch::AskShellCwd { child, shell: current }
            } else if parent <= 1 || left <= 1 || parent == child {
                CwdSearch::AskChildCwd { child }
            } else {
                CwdSearch::AskProcess { child, current: parent, left: (left - 1) as u32 }
            },
            _ => CwdSearch::AskChildCwd { child },
        },
        CwdSearch::AskShellCwd { child, .. } => match reply {
            CwdReply::Cwd(Some(cwd)) => CwdSearch::Answer(Some(cwd)),
            _ => CwdSearch::AskChildCwd { child },
        },
        CwdSearch::AskChildCwd { .. } => match reply {
            CwdReply::Cwd(cwd) => CwdSearch::Answer(cwd),
            _ => CwdSearch::Answer(None),
        },
        CwdSearch::Answer(answer) => CwdSearch::Answer(answer),
    }
}

/// Whatever the processes are, a truthful reply keeps the shell to find and
/// the child to fall back to, and brings the search closer to its end: it
/// asks for the directory of exactly the driven shell, and goes straight to
/// the child's where there is none.
pub proof fn law_cwd_search_finds_the_driven_shell(
    search: CwdSearch,
    reply: CwdReply,
    processes: Processes,
)
    requires
        search is AskChild || search is AskMember || search is AskProcess,
        search matches CwdSearch::AskChild { child, .. } ==> child != 0,
        search matches CwdSearch::AskProcess { left, .. } ==> left >= 1,
        answers(search, reply, processes),
    ensures
        ({
            let next = next_question(search, reply);
            &&& pending_shell(next, processes) == pending_shell(search, processes)
            &&& child_of_search(next) == child_of_search(search)
            &&& questions_left(next) < questions_left(search)
            &&& next matches CwdSearch::AskShellCwd { shell, .. } ==> pending_shell(
                search,
                processes,
            ) == Some(shell)
            &&& next is AskChildCwd ==> pending_shell(search, processes) is None
        }),
{
    reveal_with_fuel(climb, 3);
}

/// Answer the question that a search asks, and get the next one.
pub fn next_cwd_question(search: CwdSearch, reply: CwdReply) -> (next: CwdSearch)
    ensures
        next == next_question(search, reply),
{
    match search {
        CwdSearch::AskChild { child, group } => match reply {
            CwdReply::Process(Some((_, name))) => {
                // The tool shells under a child that is no shell are never
                // mistaken for a user-driven one.
                if !is_pane_shell_process_name(&name) {
                    return CwdSearch::AskChildCwd { child };
                }
                match group {
                    Some(group) => CwdSearch::AskMember { child, group },
                    None => CwdSearch::AskChildCwd { child },
                }
            },
            _ => CwdSearch::AskChildCwd { child },
        },
        CwdSearch::AskMember { child, .. } => match reply {
            CwdReply::Member(Some(member)) => if member == child {
                CwdSearch::AskChildCwd { child }
            } else {
                CwdSearch::AskProcess { child, current: member, left: MAX_FOREGROUND_ANCESTRY }
            },
            _ => CwdSearch::AskChildCwd { child },
        },
        CwdSearch::AskProcess { child, current, left } => match reply {
            CwdReply::Process(Some((parent, name))) => {
                if current == child {
                    return CwdSearch::AskChildCwd { child };
                }
                if is_pane_shell_process_name(&name) {
                    return CwdSearch::AskShellCwd { child, shell: current };
                }
                if parent <= 1 || left <= 1 || parent == child {
                    return CwdSearch::AskChildCwd { child };
                }
                CwdSearch::AskProcess { child, current: parent, left: left - 1 }
            },
            _ => CwdSearch::AskChildCwd { child },
        },
        CwdSearch::AskShellCwd { child, .. } => match reply {
            CwdReply::Cwd(Some(cwd)) => CwdSearch::Answer(Some(cwd)),
            _ => CwdSearch::AskChildCwd { child },
        },
        CwdSearch::AskChildCwd { .. } => match reply {
            CwdReply::Cwd(cwd) => CwdSearch::Answer(cwd),
            _ => CwdSearch::Answer(None),
        },
        CwdSearch::Answer(answer) => CwdSearch::Answer(answer),
    }
}

/// A unix-like platform hands sessions over and attaches terminals directly,
/// and only macos keeps doubled escapes.
pub proof fn law_what_a_platform_can_do(is_unix: bool, is_macos: bool, can: PlatformCapabilities)
    requires
        call_ensures(capabilities, (is_unix, is_macos), can),
    ensures
        can.live_handoff <==> is_unix,
        can.direct_terminal_attach <==> is_unix,
        can.preserve_legacy_doubled_escape_input <==> is_macos,
{
}

/// Free blocks count in fragments, in blocks where no fragment size is known,
/// and a number too large for the type is its largest.
pub proof fn law_how_many_bytes_are_free(
    available_blocks: u64,
    fragment_size: u64,
    block_size: u64,
    bytes: u64,
)
    requires
        call_ensures(available_bytes, (available_blocks, fragment_size, block_size), bytes),
    ensures
        fragment_size > 0 && available_blocks * fragment_size <= u64::MAX ==> bytes
            == available_blocks * fragment_size,
        fragment_size == 0 && available_blocks * block_size <= u64::MAX ==> bytes
            == available_blocks * block_size,
        fragment_size > 0 && available_blocks * fragment_size > u64::MAX ==> bytes == u64::MAX,
        fragment_size == 0 && available_blocks * block_size > u64::MAX ==> bytes == u64::MAX,
{
}

/// A zero-terminated text ends where its zero stands, whatever follows.
pub proof fn law_where_the_first_zero_stands(text: Seq<u8>, rest: Seq<u8>)
    requires
        !text.contains(0u8),
    ensures
        first_zero(text + seq![0u8] + rest) == text.len(),
        first_zero(text) == text.len(),
    decreases text.len(),
{
    let whole = text + seq![0u8] + rest;
    if text.len() > 0 {
        let tail = text.skip(1);
        assert(text[0] != 0) by {
            if text[0] == 0 {
                assert(text.contains(0u8));
            }
        }
        assert(!tail.contains(0u8)) by {
            if tail.contains(0u8) {
                let i = choose|i: int| 0 <= i < tail.len() && tail[i] == 0u8;
                assert(text[i + 1] == 0u8);
            }
        }
        law_where_the_first_zero_stands(tail, rest);
        assert(whole.skip(1) =~= tail + seq![0u8] + rest);
        assert(whole[0] == text[0]);
    }
}

/// The `.exe` endings of a name, so many of them.
pub open spec fn exe_endings(times: nat) -> Seq<char>
    decreases times,
{
    if times == 0 {
        Seq::empty()
    } else {
        exe_endings((times - 1) as nat) + ".exe"@
    }
}

proof fn lemma_without_exe(stem: Seq<char>, times: nat)
    requires
        !(stem.len() >= 4 && has_suffix(stem, ".exe"@)),
    ensures
        without_exe(stem + exe_endings(times)) == stem,
        forall|i: int|
            0 <= i < exe_endings(times).len() ==> (#[trigger] exe_endings(times)[i]) != '/'
                && exe_endings(times)[i] != '\\',
        times > 0 ==> exe_endings(times).len() > 0 && exe_endings(times)[0] == '.',
        times == 0 ==> exe_endings(times).len() == 0,
    decreases times,
{
    reveal_strlit(".exe");
    if times == 0 {
        assert(stem + exe_endings(times) =~= stem);
    } else {
        let fewer = (times - 1) as nat;
        lemma_without_exe(stem, fewer);
        let name = stem + exe_endings(times);
        assert(name =~= stem + exe_endings(fewer) + ".exe"@);
        assert(name.skip(name.len() - 4) =~= ".exe"@);
        assert(name.take(name.len() - 4) =~= stem + exe_endings(fewer));
        if fewer > 0 {
            assert(exe_endings(times)[0] == exe_endings(fewer)[0]);
        } else {
            assert(exe_endings(times) =~= ".exe"@);
        }
    }
}

proof fn lemma_no_separators(hyphens: Seq<char>, stem: Seq<char>, tail: Seq<char>)
    requires
        is_run(hyphens, '-'),
        !stem.contains('/') && !stem.contains('\\'),
        forall|i: int| 0 <= i < tail.len() ==> (#[trigger] tail[i]) != '/' && tail[i] != '\\',
    ensures
        !(hyphens + stem + tail).contains('/'),
        !(hyphens + stem + tail).contains('\\'),
{
    let base = hyphens + stem + tail;
    assert forall|i: int| 0 <= i < base.len() implies base[i] != '/' && base[i] != '\\' by {
        if i < hyphens.len() {
            assert(base[i] == hyphens[i]);
        } else if i < hyphens.len() + stem.len() {
            assert(base[i] == stem[i - hyphens.len()]);
            assert(stem.contains(base[i]));
        } else {
            assert(base[i] == tail[i - hyphens.len() - stem.len()]);
        }
    }
}

proof fn lemma_after_separators(front: Seq<char>, separator: char, base: Seq<char>)
    requires
        separator == '/' || separator == '\\',
        !base.contains('/') && !base.contains('\\'),
    ensures
        after_separators(front + seq![separator] + base) == base,
        after_separators(base) == base,
{
    let path = front + seq![separator] + base;
    law_the_last_one_is_found(front, base, separator);
    let other = if separator == '/' {
        '\\'
    } else {
        '/'
    };
    lemma_find_last(path, other);
    let at = find_last(path, other);
    if at > front.len() {
        assert(path[at] == base[at - front.len() - 1]);
        assert(base.contains(other));
    }
    assert(at != front.len()) by {
        assert(path[front.len() as int] == separator);
    }
    assert(path.skip(front.len() + 1int) =~= base);
    lemma_find_last(base, '/');
    lemma_find_last(base, '\\');
    assert(base.skip(0) =~= base);
}

/// A process goes by what stands behind the last separator of its path, of
/// either kind, without the hyphens before it and the `.exe` endings behind it,
/// in lowercase.
pub proof fn law_what_a_process_goes_by(
    front: Seq<char>,
    separator: char,
    hyphens: Seq<char>,
    stem: Seq<char>,
    times: nat,
)
    requires
        separator == '/' || separator == '\\',
        is_run(hyphens, '-'),
        !stem.contains('/') && !stem.contains('\\'),
        stem.len() > 0 ==> stem[0] != '-',
        !has_suffix(stem, ".exe"@),
    ensures
        process_name(front + seq![separator] + (hyphens + stem + exe_endings(times)))
            == ascii_lower_all(stem),
        process_name(hyphens + stem + exe_endings(times)) == ascii_lower_all(stem),
{
    let tail = exe_endings(times);
    let base = hyphens + stem + tail;
    lemma_without_exe(stem, times);
    lemma_no_separators(hyphens, stem, tail);
    lemma_after_separators(front, separator, base);
    let bare = stem + tail;
    assert(hyphens + bare =~= base);
    if bare.len() > 0 {
        if stem.len() > 0 {
            assert(bare[0] == stem[0]);
        } else {
            assert(bare[0] == tail[0]);
        }
    }
    law_a_run_at_the_front_is_stripped(hyphens, bare, '-');
}

/// A process is a shell by the name it goes by: the posix shells, the newer
/// ones, and those of windows; the two names of powershell are powershell.
pub proof fn law_which_processes_are_shells(name: Seq<char>)
    ensures
        ({
            let word = process_name(name);
            let posix = seq!["sh"@, "bash"@, "dash"@, "zsh"@, "ksh"@, "mksh"@, "csh"@, "tcsh"@];
            let newer = seq!["fish"@, "elvish"@, "xonsh"@, "nu"@];
            let windows = seq!["pwsh"@, "powershell"@, "cmd"@];
            &&& is_shell(name) <==> posix.contains(word) || newer.contains(word)
                || windows.contains(word)
            &&& is_powershell(name) <==> word == windows[0] || word == windows[1]
            &&& is_powershell(name) ==> is_shell(name)
        }),
{
    let word = process_name(name);
    let posix = seq!["sh"@, "bash"@, "dash"@, "zsh"@, "ksh"@, "mksh"@, "csh"@, "tcsh"@];
    let newer = seq!["fish"@, "elvish"@, "xonsh"@, "nu"@];
    let windows = seq!["pwsh"@, "powershell"@, "cmd"@];
    assert(posix[0] == "sh"@ && posix[1] == "bash"@ && posix[2] == "dash"@ && posix[3] == "zsh"@);
    assert(posix[4] == "ksh"@ && posix[5] == "mksh"@ && posix[6] == "csh"@ && posix[7] == "tcsh"@);
    assert(newer[0] == "fish"@ && newer[1] == "elvish"@ && newer[2] == "xonsh"@ && newer[3]
        == "nu"@);
    assert(windows[0] == "pwsh"@ && windows[1] == "powershell"@ && windows[2] == "cmd"@);
}

/// A shell is at its prompt where its group is in the foreground and holds
/// nothing else; one more process in the group, or another group, is work.
pub proof fn law_when_a_shell_is_at_its_prompt(
    child_pid: u32,
    job: ForegroundJob,
    at: int,
    shell: Option<String>,
)
    requires
        call_ensures(available_pane_shell_from_job, (child_pid, &job), shell),
    ensures
        job.process_group_id != child_pid ==> shell is None,
        0 <= at < job.processes@.len() && job.processes@[at].pid != child_pid ==> shell is None,
        job.processes@.len() == 0 ==> shell is None,
        job.processes@.len() == 1 && job.processes@[0].pid == child_pid && job.process_group_id
            == child_pid && is_shell(job.processes@[0].name@) ==> (shell matches Some(name)
            && name@ == job.processes@[0].name@),
        shell is Some ==> is_shell(job.processes@[0].name@),
{
}

/// The text that powershell reads between single quotes.
pub open spec fn quotes_halved(quoted: Seq<char>) -> Seq<char>
    decreases quoted.len(),
{
    if quoted.len() == 0 {
        Seq::empty()
    } else if quoted.len() >= 2 && quoted.last() == '\'' && quoted[quoted.len() - 2] == '\'' {
        quotes_halved(quoted.take(quoted.len() - 2)).push('\'')
    } else {
        quotes_halved(quoted.drop_last()).push(quoted.last())
    }
}

proof fn lemma_quotes_halved(value: Seq<char>)
    ensures
        quotes_halved(quotes_doubled(value)) == value,
    decreases value.len(),
{
    reveal_strlit("''");
    if value.len() > 0 {
        let front = value.drop_last();
        let doubled = quotes_doubled(front);
        lemma_quotes_halved(front);
        if value.last() == '\'' {
            assert((doubled + "''"@).take(doubled.len() as int) =~= doubled);
        } else {
            assert(doubled.push(value.last()).drop_last() =~= doubled);
        }
        assert(front.push(value.last()) =~= value);
    }
}

/// What powershell reads back from a word is the argument: a word of letters,
/// digits and `_-./:+=` as it stands, and every other one between quotes.
pub proof fn law_a_powershell_word_is_its_argument(value: Seq<char>, at: int)
    ensures
        ({
            let word = powershell_word(value);
            ||| word == value && value.len() > 0
            ||| word.len() >= 2 && word[0] == '\'' && word.last() == '\'' && quotes_halved(
                word.subrange(1, word.len() - 1),
            ) == value
        }),
        0 <= at < value.len() && powershell_word(value) == value ==> ('a' <= value[at] <= 'z') || (
        'A' <= value[at] <= 'Z') || ('0' <= value[at] <= '9') || "_-./:+="@.contains(value[at]),
        value.len() > 0 && (forall|i: int|
            0 <= i < value.len() ==> ('a' <= #[trigger] value[i] <= 'z') || ('A' <= value[i] <= 'Z')
                || ('0' <= value[i] <= '9') || "_-./:+="@.contains(value[i])) ==> powershell_word(
            value,
        ) == value,
{
    reveal_strlit("_-./:+=");
    lemma_quotes_halved(value);
    let marks = "_-./:+="@;
    assert(marks[0] == '_' && marks[1] == '-' && marks[2] == '.' && marks[3] == '/' && marks[4]
        == ':' && marks[5] == '+' && marks[6] == '=');
    let inner = quotes_doubled(value);
    let quoted = seq!['\''] + inner + seq!['\''];
    assert(quoted.subrange(1, quoted.len() - 1) =~= inner);
    if powershell_word(value) == value && 0 <= at < value.len() {
        if powershell_word(value) == quoted {
            lemma_doubling_does_not_shorten(value);
            assert(false);
        }
        assert(is_powershell_plain(value[at]));
    }
    assert forall|i: int|
        0 <= i < value.len() && (('a' <= #[trigger] value[i] <= 'z') || ('A' <= value[i] <= 'Z')
            || ('0' <= value[i] <= '9') || marks.contains(value[i])) implies is_powershell_plain(
        value[i],
    ) by {}
}

proof fn lemma_doubling_does_not_shorten(value: Seq<char>)
    ensures
        quotes_doubled(value).len() >= value.len(),
    decreases value.len(),
{
    reveal_strlit("''");
    if value.len() > 0 {
        lemma_doubling_does_not_shorten(value.drop_last());
    }
}

/// The words of a command line stand one space apart.
pub proof fn law_words_stand_one_space_apart(words: Seq<Seq<char>>)
    ensures
        spaced(words) == rejoined(words, ' '),
    decreases words.len(),
{
    reveal_strlit(" ");
    assert(" "@ =~= seq![' ']);
    if words.len() > 1 {
        let front = words.drop_last();
        law_words_stand_one_space_apart(front);
        law_words_stand_one_space_apart(words.skip(1));
        lemma_rejoined_last(words);
    }
}

proof fn lemma_rejoined_last(words: Seq<Seq<char>>)
    requires
        words.len() > 1,
    ensures
        rejoined(words, ' ') == rejoined(words.drop_last(), ' ') + seq![' '] + words.last(),
    decreases words.len(),
{
    let rest = words.skip(1);
    if words.len() == 2 {
        assert(rest[0] == words.last());
        assert(words.drop_last()[0] == words[0]);
        assert(rejoined(rest, ' ') == words.last());
        assert(rejoined(words.drop_last(), ' ') == words[0]);
    } else {
        lemma_rejoined_last(rest);
        assert(rest.drop_last() =~= words.drop_last().skip(1));
        assert(rest.last() == words.last());
        assert(words.drop_last()[0] == words[0]);
        assert(rejoined(words, ' ') =~= words[0] + seq![' '] + rejoined(rest.drop_last(), ' ')
            + seq![' '] + words.last());
    }
}

/// The processes on the way from the foreground, each the parent of the one
/// before it: none of them the pane's child, and none but the last a shell.
pub open spec fn leads_to_a_shell(processes: Processes, child: u32, way: Seq<u32>) -> bool {
    &&& way.len() > 0
    &&& forall|i: int|
        0 <= i < way.len() ==> (#[trigger] way[i]) != child && (processes.parent_and_name)(
            way[i],
        ) is Some
    &&& forall|i: int|
        0 <= i < way.len() - 1 ==> !is_shell(
            ((processes.parent_and_name)(#[trigger] way[i])->0).1,
        ) && way[i + 1] > 1 && ((processes.parent_and_name)(way[i])->0).0 == way[i + 1]
    &&& is_shell(((processes.parent_and_name)(way.last())->0).1)
}

proof fn lemma_climb(processes: Processes, child: u32, way: Seq<u32>, left: nat)
    requires
        leads_to_a_shell(processes, child, way),
    ensures
        climb(processes, child, way[0], left) == (if way.len() <= left {
            Some(way.last())
        } else {
            None
        }),
    decreases way.len(),
{
    let first = way[0];
    assert(first != child);
    if left > 0 && way.len() > 1 {
        let rest = way.skip(1);
        assert(rest.last() == way.last());
        assert forall|i: int| 0 <= i < rest.len() implies (#[trigger] rest[i]) != child && (
        processes.parent_and_name)(rest[i]) is Some by {
            assert(rest[i] == way[i + 1]);
        }
        assert forall|i: int| 0 <= i < rest.len() - 1 implies !is_shell(
            ((processes.parent_and_name)(#[trigger] rest[i])->0).1,
        ) && rest[i + 1] > 1 && ((processes.parent_and_name)(rest[i])->0).0 == rest[i + 1] by {
            assert(rest[i] == way[i + 1]);
        }
        lemma_climb(processes, child, rest, (left - 1) as nat);
        assert(rest[0] == way[1]);
    }
}

/// In a pane whose child is a shell, the driven shell is the first one on the
/// way from the foreground, where it stands among the first sixteen processes;
/// further away there is none.
pub proof fn law_the_first_shell_from_the_foreground_is_driven(
    processes: Processes,
    child: u32,
    group: u32,
    way: Seq<u32>,
)
    requires
        child != 0,
        (processes.parent_and_name)(child) is Some,
        is_shell(((processes.parent_and_name)(child)->0).1),
        leads_to_a_shell(processes, child, way),
        (processes.live_member)(group) == Some(way[0]),
    ensures
        way.len() <= 16 ==> driven_shell(processes, child, Some(group)) == Some(way.last()),
        way.len() > 16 ==> driven_shell(processes, child, Some(group)) is None,
        driven_shell(processes, child, None) is None,
{
    lemma_climb(processes, child, way, 16);
}

/// A pane whose child is no shell, or is the foreground itself, drives none.
pub proof fn law_when_no_shell_is_driven(processes: Processes, child: u32, group: Option<u32>)
    ensures
        (processes.parent_and_name)(child) is None ==> driven_shell(processes, child, group) is None,
        (processes.parent_and_name)(child) matches Some((_, name)) ==> (!is_shell(name)
            ==> driven_shell(processes, child, group) is None),
        group matches Some(group) ==> ((processes.live_member)(group) == Some(child)
            ==> driven_shell(processes, child, Some(group)) is None),
        driven_shell(processes, 0, group) is None,
{
}

/// A search that found the driven shell answers with its directory, falls back
/// to the child's where that cannot be read, and answers that whatever it is.
pub proof fn law_which_directory_is_answered(child: u32, shell: u32, cwd: Option<String>)
    ensures
        cwd is Some ==> next_question(
            CwdSearch::AskShellCwd { child, shell },
            CwdReply::Cwd(cwd),
        ) == CwdSearch::Answer(cwd),
        next_question(CwdSearch::AskShellCwd { child, shell }, CwdReply::Cwd(None))
            == (CwdSearch::AskChildCwd { child }),
        next_question(CwdSearch::AskChildCwd { child }, CwdReply::Cwd(cwd)) == CwdSearch::Answer(
            cwd,
        ),
{
}

/// A shell is known by its name, wherever it is installed, as a login shell or
/// not, with or without `.exe`, and in any case.
pub proof fn law_a_shell_is_known_by_its_name(
    front: Seq<char>,
    hyphens: Seq<char>,
    stem: Seq<char>,
    times: nat,
    name: &str,
    yes: bool,
)
    requires
        call_ensures(is_pane_shell_process_name, (name,), yes),
        is_run(hyphens, '-'),
        name@ == front + seq!['/'] + (hyphens + stem + exe_endings(times)),
        !stem.contains('/') && !stem.contains('\\'),
        stem.len() > 0 ==> stem[0] != '-',
        !has_suffix(stem, ".exe"@),
    ensures
        yes <==> seq![
            "sh"@,
            "bash"@,
            "dash"@,
            "zsh"@,
            "ksh"@,
            "mksh"@,
            "csh"@,
            "tcsh"@,
            "fish"@,
            "elvish"@,
            "xonsh"@,
            "nu"@,
            "pwsh"@,
            "powershell"@,
            "cmd"@,
        ].contains(ascii_lower_all(stem)),
{
    law_what_a_process_goes_by(front, '/', hyphens, stem, times);
    let all = seq![
        "sh"@,
        "bash"@,
        "dash"@,
        "zsh"@,
        "ksh"@,
        "mksh"@,
        "csh"@,
        "tcsh"@,
        "fish"@,
        "elvish"@,
        "xonsh"@,
        "nu"@,
        "pwsh"@,
        "powershell"@,
        "cmd"@,
    ];
    assert(all[0] == "sh"@ && all[1] == "bash"@ && all[2] == "dash"@ && all[3] == "zsh"@);
    assert(all[4] == "ksh"@ && all[5] == "mksh"@ && all[6] == "csh"@ && all[7] == "tcsh"@);
    assert(all[8] == "fish"@ && all[9] == "elvish"@ && all[10] == "xonsh"@ && all[11] == "nu"@);
    assert(all[12] == "pwsh"@ && all[13] == "powershell"@ && all[14] == "cmd"@);
}

} // verus!
