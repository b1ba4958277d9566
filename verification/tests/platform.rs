use herdr::agent_hint::{
    agent_env_label, parse_agent_env_hint, process_agent_hint, Agent, AgentLabel,
};
use herdr::limited_read::{read_limited, LimitedRead, LimitedReader, ReadEvent};
use herdr::platform::{
    available_bytes, available_pane_shell_from_job, capabilities,
    interactive_unix_shell_command, is_pane_shell_process_name, is_powershell_process_name,
    next_cwd_question, pane_shell_cwd, quote_powershell_arg, CwdReply, CwdSearch, ForegroundJob, ForegroundProcess,
};
use herdr::prefix_input::PrefixInputSource;
use herdr::process_groups::{DeadLeaderCache, MemberReply, MemberSearch};

#[test]
fn pane_shell_process_names_reject_exec_replacement_programs() {
    for shell in ["bash", "-zsh", "/bin/fish", "pwsh", "powershell.exe"] {
        assert!(is_pane_shell_process_name(shell), "{shell}");
    }
    for program in ["vim", "nvim", "cargo", "test-runner", "opencode"] {
        assert!(!is_pane_shell_process_name(program), "{program}");
    }
}

/// What the agents of these tests are called.
fn labels() -> Vec<AgentLabel> {
    [Agent::Claude, Agent::Codex, Agent::Pi]
        .into_iter()
        .map(|agent| AgentLabel {
            label: format!("{agent:?}").to_lowercase(),
            agent,
        })
        .collect()
}

/// How a posix shell's words are quoted in these tests.
fn quote_posix_arg(value: &str) -> String {
    let plain = |c: char| c.is_ascii_alphanumeric() || "_-./:+=@%,".contains(c);
    if !value.is_empty() && value.chars().all(plain) {
        return value.to_string();
    }
    format!("'{}'", value.replace('\'', "'\\''"))
}

fn interactive_shell_command(argv: &Vec<String>, shell_name: &str) -> Option<String> {
    interactive_unix_shell_command(argv, shell_name, quote_posix_arg)
}

#[test]
fn parse_agent_env_hint_accepts_known_agents() {
    assert_eq!(
        parse_agent_env_hint(
            &labels(),
            format!(
                "PATH=/bin\0HERDR_AGENT={}\0TERM=xterm\0",
                format!("{:?}", Agent::Claude).to_lowercase()
            )
            .as_bytes()
        ),
        Some(Agent::Claude)
    );
    assert_eq!(
        parse_agent_env_hint(&labels(), b"HERDR_AGENT=codex"),
        Some(Agent::Codex)
    );
}

#[test]
fn parse_agent_env_hint_ignores_missing_or_unknown_agents() {
    assert_eq!(
        parse_agent_env_hint(&labels(), b"PATH=/bin\0TERM=xterm\0"),
        None
    );
    assert_eq!(
        parse_agent_env_hint(&labels(), b"HERDR_AGENT=not-an-agent\0"),
        None
    );
}

#[test]
fn interactive_shell_command_quotes_for_posix_and_powershell() {
    let argv = vec![
        "pi".into(),
        String::new(),
        "two words".into(),
        "a'b".into(),
        "$HOME".into(),
        "semi;colon".into(),
        "@options".into(),
    ];
    assert_eq!(
        interactive_shell_command(&argv, "bash").as_deref(),
        Some("pi '' 'two words' 'a'\\''b' '$HOME' 'semi;colon' @options")
    );
    assert_eq!(
        interactive_shell_command(&argv, "pwsh").as_deref(),
        Some("pi '' 'two words' 'a''b' '$HOME' 'semi;colon' '@options'")
    );
}

#[test]
fn read_limited_reader_returns_complete_data_under_limit() {
    assert_eq!(
        read_limited(b"image", 16),
        LimitedRead::Complete(b"image".to_vec())
    );
}

#[test]
fn read_limited_reader_returns_empty_for_empty_input() {
    assert_eq!(read_limited(b"", 16), LimitedRead::Empty);
}

#[test]
fn read_limited_reader_accepts_data_exactly_at_limit() {
    assert_eq!(
        read_limited(b"four", 4),
        LimitedRead::Complete(b"four".to_vec())
    );
}

#[test]
fn read_limited_reader_rejects_data_over_limit() {
    assert_eq!(read_limited(b"oversized", 4), LimitedRead::Oversized);
}

#[test]
fn read_limited_reader_retries_interrupted_reads() {
    let mut reader = LimitedReader::new(16);
    assert_eq!(reader.absorb(ReadEvent::Interrupted), None);
    assert_eq!(reader.absorb(ReadEvent::Data(b"image".to_vec())), None);
    assert_eq!(
        reader.absorb(ReadEvent::Data(Vec::new())),
        Some(LimitedRead::Complete(b"image".to_vec()))
    );
}

#[test]
fn an_agent_hint_needs_an_environment() {
    assert_eq!(process_agent_hint(&labels(), None), None);
    assert_eq!(
        process_agent_hint(&labels(), Some(b"HERDR_AGENT=pi\0")),
        Some(Agent::Pi)
    );
    assert_eq!(
        process_agent_hint(&Vec::new(), Some(b"HERDR_AGENT=pi\0")),
        None
    );
    assert_eq!(
        agent_env_label(b"A=b\0HERDR_AGENT=somebody\0HERDR_AGENT=pi\0").as_deref(),
        Some("somebody")
    );
    assert_eq!(agent_env_label(b"HERDR_AGENT=\xff\0HERDR_AGENT=pi"), None);
}

#[test]
fn a_platform_declares_what_its_family_can_do() {
    let linux = capabilities(true, false);
    assert!(linux.live_handoff && linux.direct_terminal_attach);
    assert!(!linux.preserve_legacy_doubled_escape_input);
    assert!(capabilities(true, true).preserve_legacy_doubled_escape_input);
    assert!(!capabilities(false, false).live_handoff);
}

#[test]
fn free_space_is_counted_in_fragments() {
    assert_eq!(available_bytes(10, 4096, 512), 40_960);
    assert_eq!(available_bytes(10, 0, 512), 5_120);
    assert_eq!(available_bytes(u64::MAX, 2, 512), u64::MAX);
}

#[test]
fn powershell_is_told_from_the_posix_shells() {
    assert!(is_powershell_process_name("pwsh"));
    assert!(is_powershell_process_name("powershell.exe"));
    assert!(!is_powershell_process_name("bash"));
}

#[test]
fn a_pane_shell_is_available_while_it_is_alone_in_its_group() {
    let process = |pid: u32, name: &str| ForegroundProcess {
        pid,
        name: name.to_string(),
        argv0: None,
        argv: None,
        cmdline: None,
    };
    let alone = ForegroundJob {
        process_group_id: 7,
        processes: vec![process(7, "zsh")],
    };
    assert_eq!(
        available_pane_shell_from_job(7, &alone).as_deref(),
        Some("zsh")
    );
    let busy = ForegroundJob {
        process_group_id: 9,
        processes: vec![process(9, "cargo")],
    };
    assert_eq!(available_pane_shell_from_job(7, &busy), None);
}

/// Drive the search for a pane's directory against a table of processes
/// (pid, parent, name), the live member of the foreground group, and the
/// directory of every process.
fn search_cwd(
    child: u32,
    group: Option<u32>,
    processes: &[(u32, u32, &str)],
    member: Option<u32>,
) -> Option<String> {
    let process = |pid: u32| {
        processes
            .iter()
            .find(|(known, _, _)| *known == pid)
            .map(|(_, parent, name)| (*parent, name.to_string()))
    };
    let mut search = pane_shell_cwd(child, group);
    for _ in 0..64 {
        let reply = match &search {
            CwdSearch::AskChild { child, .. } => CwdReply::Process(process(*child)),
            CwdSearch::AskMember { .. } => CwdReply::Member(member),
            CwdSearch::AskProcess { current, .. } => CwdReply::Process(process(*current)),
            CwdSearch::AskShellCwd { shell, .. } => CwdReply::Cwd(Some(format!("/cwd/{shell}"))),
            CwdSearch::AskChildCwd { child } => CwdReply::Cwd(Some(format!("/cwd/{child}"))),
            CwdSearch::Answer(answer) => return answer.clone(),
        };
        search = next_cwd_question(search, reply);
    }
    panic!("the search did not end");
}

#[test]
fn pane_shell_cwd_follows_a_cd_in_a_nested_shell() {
    let processes = [(10, 1, "zsh"), (20, 10, "sudo"), (30, 20, "bash")];
    assert_eq!(
        search_cwd(10, Some(30), &processes, Some(30)).as_deref(),
        Some("/cwd/30")
    );
    // A program that the nested shell runs leads back to that shell.
    let running = [
        (10, 1, "zsh"),
        (20, 10, "bash"),
        (30, 20, "cargo"),
    ];
    assert_eq!(
        search_cwd(10, Some(30), &running, Some(30)).as_deref(),
        Some("/cwd/20")
    );
}

#[test]
fn pane_shell_cwd_ignores_tool_shells_under_a_non_shell_child() {
    let processes = [(10, 1, "vim"), (30, 10, "bash")];
    assert_eq!(
        search_cwd(10, Some(30), &processes, Some(30)).as_deref(),
        Some("/cwd/10")
    );
    let plain = [(10, 1, "zsh")];
    assert_eq!(search_cwd(10, None, &plain, None).as_deref(), Some("/cwd/10"));
}

#[test]
fn live_foreground_group_member_survives_a_dead_leader() {
    let mut cache = DeadLeaderCache::new();
    let asked = DeadLeaderCache::begin(50);
    assert_eq!(
        cache.live_foreground_group_member(asked.clone(), MemberReply::Holds(true)),
        MemberSearch::Answer(Some(50))
    );

    let next = cache.live_foreground_group_member(asked.clone(), MemberReply::Holds(false));
    assert_eq!(next, MemberSearch::AskMembers { group: 50 });
    assert_eq!(
        cache.live_foreground_group_member(next, MemberReply::Found(Some(51))),
        MemberSearch::Answer(Some(51))
    );

    // The remembered member is asked about again before it is answered.
    let next = cache.live_foreground_group_member(asked, MemberReply::Holds(false));
    assert_eq!(
        next,
        MemberSearch::AskStillMember {
            group: 50,
            member: 51
        }
    );
    let next = cache.live_foreground_group_member(next, MemberReply::Holds(false));
    assert_eq!(next, MemberSearch::AskMembers { group: 50 });
    assert_eq!(
        cache.live_foreground_group_member(next, MemberReply::Found(None)),
        MemberSearch::Answer(None)
    );
}

#[test]
fn the_first_saved_input_source_is_the_one_restored() {
    let mut source = PrefixInputSource::new();
    assert!(source.wants_switch());
    source.switched(Some(4));
    assert!(!source.wants_switch());
    source.switched(Some(9));
    assert_eq!(source.restore(), Some(4));
    assert_eq!(source.restore(), None);
}

#[test]
fn a_quote_inside_a_word_is_escaped_as_its_shell_reads_it() {
    assert_eq!(quote_powershell_arg("it's"), "'it''s'");
    assert_eq!(quote_powershell_arg(""), "''");
    assert_eq!(interactive_shell_command(&Vec::new(), "bash"), None);
}

#[test]
fn pane_shell_cwd_follows_a_cd_in_the_direct_child_shell() {
    let processes = [(10, 1, "sh")];
    assert_eq!(
        search_cwd(10, Some(10), &processes, Some(10)).as_deref(),
        Some("/cwd/10")
    );
}

#[test]
fn pane_shell_cwd_ignores_background_shell_jobs() {
    // The background job is a shell of its own, outside the foreground group.
    let processes = [(10, 1, "sh"), (20, 10, "sh"), (30, 20, "sleep")];
    assert_eq!(
        search_cwd(10, Some(10), &processes, Some(10)).as_deref(),
        Some("/cwd/10")
    );
}

#[test]
fn a_climb_ends_after_its_bound() {
    let chain: Vec<(u32, u32, &str)> = (0..40)
        .map(|step| (100 + step, 101 + step, "sudo"))
        .chain([(10, 1, "zsh")])
        .collect();
    assert_eq!(
        search_cwd(10, Some(100), &chain, Some(100)).as_deref(),
        Some("/cwd/10")
    );
}
