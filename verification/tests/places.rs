use herdr::matching::{
    edit_distance_within, folded, folder_name, is_subsequence, match_key, tolerance_for,
};
use herdr::ordering::ascending;
use herdr::place_lookup::Lookup;
use herdr::place_request::{
    encode, handle_lookup, live_pane_dirs, panes_request, read_params, workspace_dirs, LookupStep,
    PaneDirs,
};
use herdr::place_sources::{
    by_rank, lines_of, newest_first, persisted_layout_dirs, read_rank_line, reads_source,
    session_cwd, session_roots, RankedPath, SessionRoot, Walk, WalkAsk, WalkEntry,
    MAX_SOURCE_BYTES, SESSION_FILES_READ, SESSION_FILES_SCANNED,
};
use herdr::places::{
    collect, literal_path, literal_place, normalize, rank, target_of, Answers, Desk, Place, Probe,
    Target, MAX_PLACES,
};
use herdr::schema::{
    api_method_name, PlaceSource, Response, ResponseResult, ServerLookupPlaceParams,
};
use herdr::snapshot::{PaneSnapshot, SessionSnapshot, TabSnapshot, WorkspaceSnapshot};
use std::collections::HashMap;

fn chars(value: &str) -> Vec<char> {
    value.chars().collect()
}

fn strings(values: &[&str]) -> Vec<String> {
    values.iter().map(|value| value.to_string()).collect()
}

/// A machine in memory: its home, what it remembers, its directories, and
/// which of them are other names of others.
struct Machine {
    home: String,
    desk: Desk,
    dirs: Vec<String>,
    aliases: HashMap<String, String>,
}

fn machine() -> Machine {
    Machine {
        home: "/home/me".to_string(),
        desk: Desk {
            workspaces: Vec::new(),
            z: Vec::new(),
            claude: Vec::new(),
            tmux: Vec::new(),
            sessions: Vec::new(),
        },
        dirs: Vec::new(),
        aliases: HashMap::new(),
    }
}

impl Machine {
    fn dir(&mut self, relative: &str) -> String {
        let path = format!("{}/{relative}", self.home);
        self.dirs.push(path.clone());
        path
    }

    fn is_dir(&self, path: &str) -> bool {
        self.dirs.iter().any(|dir| dir == path) || self.aliases.contains_key(path)
    }

    fn probe(&self, path: &str) -> Probe {
        Probe {
            is_dir: self.is_dir(path),
            canonical: self.aliases.get(path).cloned(),
        }
    }

    fn z(&mut self, entries: &[(&str, u64)]) {
        let entries = entries
            .iter()
            .map(|(path, rank)| RankedPath {
                rank: *rank,
                path: path.to_string(),
            })
            .collect();
        self.desk.z = by_rank(&entries);
    }

    fn lookup(&self, query: &str, limit: usize) -> Vec<Place> {
        let mut lookup = Lookup::begin(&self.desk, query, Some(&self.home), query, limit);
        while let Some(path) = lookup.ask() {
            lookup.answer(self.probe(&path));
        }
        lookup.into_places()
    }
}

/// The name of the project-list source.
fn project_list() -> String {
    format!("{:?}", PlaceSource::Claude).to_lowercase()
}

fn paths(places: &[Place]) -> Vec<&str> {
    places.iter().map(|place| place.path.as_str()).collect()
}

fn sources(places: &[Place]) -> Vec<PlaceSource> {
    places.iter().map(|place| place.source).collect()
}

#[test]
fn every_source_answers_and_they_answer_in_order() {
    let mut home = machine();
    let workspace = home.dir("code/alpha-workspace");
    let z = home.dir("code/alpha-z");
    let claude = home.dir(&format!("code/alpha-{}", project_list()));
    let tmux = home.dir("code/alpha-tmux");
    let pi = home.dir("code/alpha-pi");
    home.z(&[(z.as_str(), 40)]);
    home.desk.claude = vec![claude.clone()];
    home.desk.sessions = vec![pi.clone()];
    home.desk.workspaces = vec![workspace.clone()];
    home.desk.tmux = vec![tmux.clone()];

    let places = home.lookup("alpha", MAX_PLACES);

    assert_eq!(paths(&places), vec![workspace, z, claude, tmux, pi]);
    assert_eq!(
        sources(&places),
        vec![
            PlaceSource::Workspace,
            PlaceSource::Z,
            PlaceSource::Claude,
            PlaceSource::Tmux,
            PlaceSource::Session,
        ]
    );
}

#[test]
fn a_missing_or_unreadable_source_is_skipped_without_a_word() {
    let mut home = machine();
    let claude = home.dir(&format!("code/beta-{}", project_list()));
    home.desk.workspaces = vec![claude.clone()];
    assert_eq!(paths(&home.lookup("beta", MAX_PLACES)), vec![claude]);
    assert!(machine().lookup("beta", MAX_PLACES).is_empty());
}

#[test]
fn z_answers_its_highest_rank_first() {
    let mut home = machine();
    let cold = home.dir("code/gamma-cold");
    let hot = home.dir("code/gamma-hot");
    home.z(&[(cold.as_str(), 3), (hot.as_str(), 120)]);
    assert_eq!(paths(&home.lookup("gamma", MAX_PLACES)), vec![hot, cold]);
}

#[test]
fn a_path_two_sources_remember_is_answered_once_by_the_first() {
    let mut home = machine();
    let shared = home.dir("code/delta");
    home.z(&[(shared.as_str(), 9)]);
    home.desk.claude = vec![shared.clone()];
    home.desk.sessions = vec![shared.clone()];

    let places = home.lookup("delta", MAX_PLACES);
    assert_eq!(paths(&places), vec![shared.as_str()]);
    assert_eq!(sources(&places), vec![PlaceSource::Z]);
}

#[test]
fn a_trailing_slash_does_not_make_a_second_place() {
    let mut home = machine();
    let shared = home.dir("code/epsilon");
    home.z(&[(shared.as_str(), 9)]);
    home.desk.claude = vec![format!("{shared}/")];
    assert_eq!(
        paths(&home.lookup("epsilon", MAX_PLACES)),
        vec![shared.as_str()]
    );
}

#[test]
fn a_remembered_directory_that_is_gone_is_not_answered() {
    let mut home = machine();
    let here = home.dir("code/zeta-here");
    home.z(&[("/home/me/code/zeta-gone", 90), (here.as_str(), 1)]);
    assert_eq!(paths(&home.lookup("zeta", MAX_PLACES)), vec![here]);
}

#[test]
fn the_answer_is_capped_at_eight_and_honours_a_smaller_limit() {
    let mut home = machine();
    let mut dirs = Vec::new();
    for index in 0..12 {
        dirs.push(home.dir(&format!("code/theta-{index}")));
    }
    let entries: Vec<(&str, u64)> = dirs
        .iter()
        .enumerate()
        .map(|(index, path)| (path.as_str(), (100 - index) as u64))
        .collect();
    home.z(&entries);

    assert_eq!(home.lookup("theta", MAX_PLACES).len(), 8);
    assert_eq!(home.lookup("theta", 3).len(), 3);
    assert_eq!(home.lookup("theta", 0).len(), 0);
}

#[test]
fn the_folder_name_tier_stands_above_the_path_tier() {
    let mut home = machine();
    let in_path = home.dir("iota/nested-elsewhere");
    let in_folder = home.dir("code/iota");
    home.z(&[(in_path.as_str(), 500), (in_folder.as_str(), 1)]);

    let places = home.lookup("iota", MAX_PLACES);
    assert_eq!(
        places.first().map(|place| place.path.as_str()),
        Some(in_folder.as_str())
    );
    assert!(paths(&places).contains(&in_path.as_str()));
}

#[test]
fn a_subsequence_match_stands_above_a_typo_inside_the_same_tier() {
    let mut home = machine();
    let typo = home.dir("code/kapa");
    let subsequence = home.dir("code/kappa-runtime");
    home.z(&[(typo.as_str(), 500), (subsequence.as_str(), 1)]);
    assert_eq!(
        paths(&home.lookup("kappa", MAX_PLACES)),
        vec![subsequence, typo]
    );
}

#[test]
fn a_typo_on_the_folder_name_still_finds_the_place() {
    let mut home = machine();
    let rocket = home.dir("code/rocket");
    home.z(&[(rocket.as_str(), 10)]);
    assert_eq!(paths(&home.lookup("rocjet", MAX_PLACES)), vec![rocket]);
}

#[test]
fn a_name_nothing_remembers_answers_nothing() {
    let mut home = machine();
    let rocket = home.dir("code/rocket");
    home.z(&[(rocket.as_str(), 10)]);
    assert!(home.lookup("qqqqqq", MAX_PLACES).is_empty());
}

#[test]
fn the_tolerance_widens_at_five_characters() {
    assert_eq!(tolerance_for(&chars("rock")), 1);
    assert_eq!(tolerance_for(&chars("rocket")), 2);

    assert_eq!(match_key(&chars("abcd"), 1, "/x/abef"), None);
    assert_eq!(match_key(&chars("abcde"), 2, "/x/abefe"), Some((0, 1, 2)));
}

#[test]
fn the_match_key_ranks_folder_then_kind_then_distance() {
    assert_eq!(match_key(&chars("zeta"), 1, "/code/zeta"), Some((0, 0, 0)));
    assert_eq!(
        match_key(&chars("zeta"), 1, "/code/zeta/nested"),
        Some((1, 0, 0))
    );
    assert_eq!(
        match_key(&chars("rocjet"), 2, "/code/rocket"),
        Some((0, 1, 1))
    );
    assert_eq!(match_key(&chars("rocjet"), 2, "/code/nothing"), None);
}

#[test]
fn matching_ignores_case() {
    let mut home = machine();
    let shouty = home.dir("code/LAMBDA");
    home.z(&[(shouty.as_str(), 10)]);
    assert_eq!(paths(&home.lookup("lambda", MAX_PLACES)), vec![shouty]);
}

#[test]
fn a_literal_path_that_exists_is_its_own_answer() {
    let mut home = machine();
    let mu = home.dir("code/mu");
    home.z(&[(mu.as_str(), 10)]);

    let places = home.lookup(&mu, MAX_PLACES);
    assert_eq!(paths(&places), vec![mu.as_str()]);
    assert_eq!(sources(&places), vec![PlaceSource::Z]);
}

#[test]
fn a_literal_path_expands_a_leading_tilde() {
    let mut home = machine();
    let nu = home.dir("code/nu");
    assert_eq!(paths(&home.lookup("~/code/nu", MAX_PLACES)), vec![nu]);

    assert_eq!(
        literal_path("~", Some("/home/me"), "").as_deref(),
        Some("/home/me")
    );
    assert_eq!(
        literal_path("~//etc/", Some("/home/me"), "").as_deref(),
        Some("/etc")
    );
    assert_eq!(
        literal_path("~other", Some("/home/me"), "").as_deref(),
        Some("~other")
    );
    assert_eq!(
        literal_path("~/x", None, "/elsewhere/x").as_deref(),
        Some("/elsewhere/x")
    );
    assert_eq!(literal_path("//", Some("/home/me"), "").as_deref(), Some("//"));
    assert_eq!(literal_path("x", Some("/home/me"), ""), None);
}

#[test]
fn a_literal_path_that_is_gone_comes_back_as_its_near_miss() {
    let mut home = machine();
    let real = home.dir("code/rocket-app");
    home.z(&[(real.as_str(), 10)]);
    assert_eq!(
        paths(&home.lookup("/home/me/code/rocket-ap", MAX_PLACES)),
        vec![real]
    );
}

#[test]
fn a_literal_path_nothing_remembers_still_answers_when_it_exists() {
    let mut home = machine();
    let xi = home.dir("code/xi");
    let places = home.lookup(&xi, MAX_PLACES);
    assert_eq!(paths(&places), vec![xi.as_str()]);
    assert_eq!(sources(&places), vec![PlaceSource::Workspace]);
}

#[test]
fn a_codex_transcript_carries_its_cwd_under_payload() {
    assert_eq!(
        session_cwd(None, Some("/code/omicron".to_string())).as_deref(),
        Some("/code/omicron")
    );
    assert_eq!(
        session_cwd(Some("/a".to_string()), Some("/b".to_string())).as_deref(),
        Some("/a")
    );
    assert_eq!(session_cwd(None, None), None);
}

#[test]
fn a_relative_or_empty_remembered_path_is_dropped() {
    assert_eq!(normalize("  /code/rho  "), Some("/code/rho".to_string()));
    assert_eq!(normalize("/code/rho/"), Some("/code/rho".to_string()));
    assert_eq!(normalize("code/rho"), None);
    assert_eq!(normalize(""), None);
    assert_eq!(normalize("/"), None);
}

#[test]
fn the_z_rank_is_read_off_the_end_so_a_separator_in_a_path_survives() {
    assert_eq!(
        read_rank_line("/code/sig|ma|10|1700000000"),
        Some(("/code/sig|ma".to_string(), "10".to_string()))
    );
    assert_eq!(
        read_rank_line("/code/sigma| 10 "),
        Some(("/code/sigma".to_string(), "10".to_string()))
    );
    assert_eq!(read_rank_line("/code/sigma"), None);
}

fn pane(cwd: &str) -> PaneSnapshot {
    PaneSnapshot {
        cwd: cwd.to_string(),
        agent_session: None,
        agent_name: None,
        launch_argv: None,
        others: String::new(),
    }
}

#[test]
fn a_saved_layout_is_a_source() {
    let workspace = "/home/me/code/upsilon-workspace";
    let other = "/home/me/code/upsilon-pane";
    let snapshot = SessionSnapshot {
        workspaces: vec![WorkspaceSnapshot {
            identity_cwd: workspace.to_string(),
            tabs: vec![TabSnapshot {
                panes: vec![(1, pane(other)), (0, pane(workspace))],
                others: String::new(),
            }],
            others: String::new(),
        }],
        others: String::new(),
    };
    assert_eq!(
        persisted_layout_dirs(&snapshot),
        vec![workspace, workspace, other]
    );
    assert!(persisted_layout_dirs(&SessionSnapshot {
        workspaces: Vec::new(),
        others: String::new(),
    })
    .is_empty());
}

/// Walk a tree of (path, modified) files and directories.
fn walk(root: &SessionRoot, tree: &[(String, i128)]) -> Vec<String> {
    let is_dir = |path: &str| {
        tree.iter()
            .any(|(known, _)| known.starts_with(&format!("{path}/")))
    };
    let mut walk = Walk::begin(root);
    loop {
        match walk.next() {
            WalkAsk::Nothing => break,
            WalkAsk::IsDirectory(path) => walk.is_directory(is_dir(&path)),
            WalkAsk::Children(dir) => {
                let mut children: Vec<WalkEntry> = Vec::new();
                for (path, modified) in tree {
                    let Some(rest) = path.strip_prefix(&format!("{dir}/")) else {
                        continue;
                    };
                    let name = rest.split('/').next().unwrap().to_string();
                    match children.iter_mut().find(|child| child.name == name) {
                        Some(child) => child.modified = child.modified.max(*modified),
                        None => children.push(WalkEntry {
                            path: format!("{dir}/{name}"),
                            name,
                            modified: *modified,
                        }),
                    }
                }
                walk.children(&children);
            }
        }
    }
    walk.newest_transcripts()
}

fn root() -> SessionRoot {
    SessionRoot {
        path: "/s".to_string(),
        depth: 1,
    }
}

#[test]
fn the_newest_transcript_is_read_first() {
    let tree = vec![
        ("/s/day/aaa-older.jsonl".to_string(), 10),
        ("/s/day/zzz-newer.jsonl".to_string(), 20),
        ("/s/day/notes.txt".to_string(), 99),
        ("/s/day/.jsonl".to_string(), 99),
        ("/s/stray.jsonl".to_string(), 99),
    ];
    assert_eq!(
        walk(&root(), &tree),
        vec!["/s/day/zzz-newer.jsonl", "/s/day/aaa-older.jsonl"]
    );
}

#[test]
fn the_newest_transcript_wins_over_a_crowded_older_bucket() {
    let mut tree: Vec<(String, i128)> = (0..SESSION_FILES_SCANNED)
        .map(|index| (format!("/s/zzz-crowd/{index}.jsonl"), 10))
        .collect();
    tree.push(("/s/aaa-fresh/one.jsonl".to_string(), 3_600));
    let newest = walk(&root(), &tree);
    assert_eq!(newest[0], "/s/aaa-fresh/one.jsonl");
    assert_eq!(newest.len(), SESSION_FILES_READ);
}

#[test]
fn one_directory_reached_two_ways_is_one_place() {
    let mut home = machine();
    let real = home.dir("code/phi");
    let alias = "/home/me/code/phi-alias";
    home.aliases.insert(alias.to_string(), real.clone());
    home.aliases.insert(real.clone(), real.clone());
    home.z(&[(alias, 500), (real.as_str(), 1)]);
    assert_eq!(paths(&home.lookup("phi", MAX_PLACES)), vec![alias]);
}

#[test]
fn a_decomposed_accent_is_the_same_letter_as_a_precomposed_one() {
    assert_eq!(folded("cafe\u{301}"), folded("CAF\u{c9}"));
    assert_eq!(
        match_key(&folded("caf\u{e9}"), 1, "/code/Cafe\u{301}"),
        Some((0, 0, 0))
    );

    let mut home = machine();
    let cafe = home.dir("code/caf\u{e9}");
    home.z(&[(cafe.as_str(), 10)]);
    assert_eq!(
        paths(&home.lookup("cafe\u{301}", MAX_PLACES)),
        vec![cafe]
    );
}

#[test]
fn the_folder_name_comes_from_the_platform_s_path_rules() {
    assert_eq!(folder_name("/code/zeta"), "zeta");
    assert_eq!(folder_name("/code/zeta/"), "zeta");
    assert_eq!(folder_name("/"), "/");
}

#[test]
fn a_distance_is_answered_only_within_its_bound() {
    let distance =
        |left: &str, right: &str, max: usize| edit_distance_within(&chars(left), &chars(right), max);
    assert_eq!(distance("kitten", "sitting", 3), Some(3));
    assert_eq!(distance("kitten", "sitting", 2), None);
    assert_eq!(distance("", "abc", 3), Some(3));
    assert_eq!(distance("abc", "", 3), Some(3));
    assert_eq!(distance("abc", "abc", 0), Some(0));
    assert_eq!(distance("abc", "acb", 2), Some(2));
    assert_eq!(distance("abcdef", "uvwxyz", 5), None);
    assert!(is_subsequence(&chars("hdr"), &chars("herdr")));
    assert!(!is_subsequence(&chars("rdh"), &chars("herdr")));
    assert!(is_subsequence(&[], &[]));
}

#[test]
fn equal_keys_stay_in_their_order() {
    assert_eq!(
        ascending(&vec![(2, 0, 0), (1, 9, 0), (2, 0, 0), (1, 0, 5), (1, 0, 4)]),
        vec![4, 3, 1, 0, 2]
    );
    let many: Vec<(u64, u64, u64)> = (0..20_000u64).map(|n| (n * 7_919 % 1_009, 0, 0)).collect();
    let mut expected: Vec<usize> = (0..many.len()).collect();
    expected.sort_by_key(|place| many[*place]);
    assert_eq!(ascending(&many), expected);
    let entry = |name: &str, modified: i128| WalkEntry {
        path: name.to_string(),
        name: name.to_string(),
        modified,
    };
    assert_eq!(
        newest_first(&vec![entry("a", 1), entry("b", 1), entry("c", 2), entry("ab", 1)]),
        vec![2, 1, 3, 0]
    );
    assert_eq!(
        newest_first(&vec![entry("a", -9), entry("b", 0), entry("c", -1)]),
        vec![1, 2, 0]
    );
    assert_eq!(
        walk(
            &root(),
            &[
                ("/s/day/older.jsonl".to_string(), -7_000_000_000),
                ("/s/day/newer.jsonl".to_string(), -5_000_000_000),
            ]
        ),
        vec!["/s/day/newer.jsonl", "/s/day/older.jsonl"]
    );
}

#[test]
fn sources_are_read_within_limits() {
    assert!(reads_source(true, MAX_SOURCE_BYTES));
    assert!(!reads_source(true, MAX_SOURCE_BYTES + 1));
    assert!(!reads_source(false, 1));
    assert_eq!(lines_of("a\r\nb\n\nc\r"), vec!["a", "b", "", "c\r"]);
    assert!(lines_of("").is_empty());
    let roots = session_roots("/home/me");
    assert_eq!(roots[0].path, "/home/me/.pi/agent/sessions");
    assert_eq!(roots[0].depth, 1);
    assert_eq!(roots[1].path, "/home/me/.codex/sessions");
    assert_eq!(roots[1].depth, 3);
}

// ---- The request ---------------------------------------------------------------------------

fn params(query: &str, limit: Option<u32>) -> ServerLookupPlaceParams {
    ServerLookupPlaceParams {
        query: query.into(),
        limit,
    }
}

#[test]
fn a_blank_query_is_no_request_at_all() {
    for query in ["", "   ", "\t\n"] {
        assert_eq!(
            read_params(&params(query, None)),
            Err("query must not be empty")
        );
    }
}

#[test]
fn places_a_query_is_read_without_its_surrounding_space() {
    assert_eq!(
        read_params(&params("  herdr \n", None)),
        Ok(("herdr".to_string(), MAX_PLACES))
    );
}

#[test]
fn places_a_limit_of_zero_is_refused_and_a_large_one_is_capped() {
    assert_eq!(
        read_params(&params("herdr", Some(0))),
        Err("limit must be at least 1")
    );
    assert_eq!(
        read_params(&params("herdr", Some(500))),
        Ok(("herdr".to_string(), MAX_PLACES))
    );
    assert_eq!(
        read_params(&params("herdr", Some(3))),
        Ok(("herdr".to_string(), 3))
    );
}

#[test]
fn place_lookup_a_query_is_read_without_its_surrounding_space() {
    assert_eq!(
        read_params(&params("  rocket \n", None)),
        Ok(("rocket".to_string(), MAX_PLACES))
    );
}

#[test]
fn place_lookup_a_limit_of_zero_is_refused_and_a_large_one_is_capped() {
    assert_eq!(
        read_params(&params("rocket", Some(0))),
        Err("limit must be at least 1")
    );
    assert_eq!(
        read_params(&params("rocket", Some(500))),
        Ok(("rocket".to_string(), MAX_PLACES))
    );
    assert_eq!(
        read_params(&params("rocket", Some(3))),
        Ok(("rocket".to_string(), 3))
    );
}

#[test]
fn a_blank_query_never_reaches_the_app() {
    let refused = |id: &str, params: ServerLookupPlaceParams| match handle_lookup(id, &params) {
        LookupStep::Refuse(Response::Error(error)) => error.error.code,
        other => panic!("expected an error response, got: {other:?}"),
    };
    for query in ["", "   ", "\t\n"] {
        assert_eq!(refused("req_blank", params(query, None)), "invalid_params");
    }
    assert_eq!(refused("req_zero", params("rocket", Some(0))), "invalid_params");
    assert_eq!(
        handle_lookup("req", &params(" rocket ", Some(2))),
        LookupStep::Search("rocket".to_string(), 2)
    );
}

#[test]
fn the_app_is_asked_for_its_live_pane_directories_and_nothing_else() {
    assert_eq!(api_method_name(&panes_request().method), "pane.list");
    assert_eq!(panes_request().id, "internal:place_lookup:panes");
    let panes = vec![
        PaneDirs {
            cwd: Some("/no/such/place/rocket".to_string()),
            foreground_cwd: Some("/no/such/place/rocket-app".to_string()),
        },
        PaneDirs {
            cwd: None,
            foreground_cwd: Some("/tmp".to_string()),
        },
        PaneDirs {
            cwd: None,
            foreground_cwd: None,
        },
    ];
    assert_eq!(
        live_pane_dirs(&panes),
        vec!["/no/such/place/rocket", "/no/such/place/rocket-app", "/tmp"]
    );
    assert_eq!(
        workspace_dirs(strings(&["/live"]), strings(&["/saved"])),
        vec!["/live", "/saved"]
    );
}

#[test]
fn a_lookup_answers_from_the_sources_it_was_handed() {
    let mut home = machine();
    let rocket = home.dir("code/rocket");
    home.desk.workspaces = vec![rocket.clone()];
    let places = home.lookup("rocket", MAX_PLACES);
    match encode("req".to_string(), places) {
        Response::Success(answer) => match answer.result {
            ResponseResult::ServerLookupPlace { places } => {
                assert_eq!(places.len(), 1);
                assert_eq!(places[0].path, rocket);
                assert_eq!(places[0].source, PlaceSource::Workspace);
            }
            other => panic!("expected places, got {other:?}"),
        },
        other => panic!("expected success, got {other:?}"),
    }
}

#[test]
fn a_lookup_asks_only_about_what_it_needs_to_know() {
    let mut home = machine();
    let first = home.dir("code/tau-one");
    let second = home.dir("code/tau-two");
    home.z(&[(first.as_str(), 9), (second.as_str(), 1)]);
    assert_eq!(
        rank("tau", &collect(&home.desk)),
        vec![0, 1],
        "both match, in source order"
    );

    let mut lookup = Lookup::begin(&home.desk, "tau", None, "tau", 1);
    assert_eq!(lookup.ask(), Some(first.clone()));
    lookup.answer(home.probe(&first));
    assert_eq!(lookup.ask(), None, "one answer was asked for");
    assert_eq!(paths(&lookup.into_places()), vec![first.as_str()]);

    let mut typed = Lookup::begin(&home.desk, "~/code/tau-two/", Some("/home/me"), "", 8);
    assert_eq!(typed.ask(), Some(second.clone()));
    typed.answer(home.probe(&second));
    assert_eq!(typed.ask(), None);
    assert_eq!(paths(&typed.into_places()), vec![second.as_str()]);

    let mut answers = Answers::new(1);
    assert!(answers.wants_more());
    let place = literal_place(&collect(&home.desk), second.clone());
    assert_eq!(place.source, PlaceSource::Z);
    answers.offer(&place, home.probe("/nowhere"));
    assert!(answers.wants_more());
    answers.offer(&place, home.probe(&second));
    assert!(!answers.wants_more());
    assert_eq!(answers.into_places(), vec![place]);

    let mut spellings = Answers::new(8);
    for path in ["/a/b", "/a//b", "/a/./b/", "/a/c"] {
        spellings.offer(
            &Place {
                path: path.to_string(),
                source: PlaceSource::Z,
            },
            Probe {
                is_dir: true,
                canonical: None,
            },
        );
    }
    assert_eq!(paths(&spellings.into_places()), vec!["/a/b", "/a/c"]);
    assert_eq!(target_of("x", None, ""), Target::Name("x".to_string()));
    assert_eq!(target_of("/a/b/", None, "/a/b/").name(), "b");
}

#[test]
fn a_remembered_file_is_not_a_place() {
    let mut home = machine();
    home.z(&[("/home/me/code/eta-file", 90)]);
    assert!(home.lookup("eta", MAX_PLACES).is_empty());
}
