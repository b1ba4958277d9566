//! Turning a name that someone types into directories this server has been
//! to.
//!
//! The answer comes out of memory only: the server's own workspaces, a
//! frecency database, a project list, live terminal panes and the directories
//! that recent agent sessions started in. Nothing here browses the disk.

use crate::matching::{
    edit_distance, folded, folding, folder_name, law_the_distance_counts_edits,
    law_what_a_query_matches, match_key, name_of, nearly, path_score, spelled_in, tolerance,
    tolerance_for, within_edits,
};
use crate::ordering::{ascending, by_key, covers, names, Key};
use crate::paths::{absolute, child, child_of, is_absolute, paths_equal, same_path};
use crate::schema::PlaceSource;
use crate::text::{
    has_prefix, is_blank, is_run, is_white_space, law_a_run_at_the_end_is_stripped,
    law_what_is_around_is_trimmed, same_text, starts_with, str_view, strip_run_end, strip_trailing,
    texts, to_chars, to_text, trim, trimmed, view_of,
};
use vstd::prelude::*;
use vstd::slice::slice_subrange;

verus! {

/// Most places that one lookup answers with.
pub const MAX_PLACES: usize = 8;

/// One remembered directory, and the memory that held it.
#[derive(Clone, Debug, PartialEq, Eq)]
pub struct Place {
    pub path: String,
    pub source: PlaceSource,
}

/// A place over its text.
pub type PlaceView = (Seq<char>, PlaceSource);

impl View for Place {
    type V = PlaceView;

    open spec fn view(&self) -> PlaceView {
        (self.path@, self.source)
    }
}

pub open spec fn views(places: Seq<Place>) -> Seq<PlaceView> {
    Seq::new(places.len(), |i: int| places[i]@)
}

// ---- Remembered paths ------------------------------------------------------------------------

/// The form in which a remembered path is compared and reported: without
/// white space around it and slashes behind it. A path that could never name
/// a place has none.
pub open spec fn normal_form(path: Seq<char>) -> Option<Seq<char>> {
    let form = strip_run_end(trimmed(path), '/');
    if form.len() == 0 || !is_absolute(form) {
        None
    } else {
        Some(form)
    }
}

/// Bring a remembered path into the form it is compared and reported in.
pub fn normalize(path: &str) -> (form: Option<String>)
    ensures
        view_of(form) == normal_form(path@),
{
    let chars = to_chars(path);
    let inner = trim(&chars);
    let form = strip_trailing(inner, '/');
    if form.len() == 0 || !absolute(form) {
        return None;
    }
    Some(to_text(form))
}

/// Whether a path is among some places.
pub open spec fn remembers(places: Seq<PlaceView>, path: Seq<char>) -> bool {
    exists|i: int| 0 <= i < places.len() && (#[trigger] places[i]).0 == path
}

/// What is remembered once a path was heard of from a source: a path that is
/// none, or is known already, changes nothing.
pub open spec fn with_path(
    places: Seq<PlaceView>,
    path: Seq<char>,
    source: PlaceSource,
) -> Seq<PlaceView> {
    match normal_form(path) {
        None => places,
        Some(form) => if remembers(places, form) {
            places
        } else {
            places.push((form, source))
        },
    }
}

/// What is remembered once the paths of a source were heard of in turn.
pub open spec fn with_paths(
    places: Seq<PlaceView>,
    paths: Seq<Seq<char>>,
    source: PlaceSource,
) -> Seq<PlaceView>
    decreases paths.len(),
{
    if paths.len() == 0 {
        places
    } else {
        with_path(with_paths(places, paths.drop_last(), source), paths.last(), source)
    }
}

fn is_remembered(places: &Vec<Place>, path: &str) -> (yes: bool)
    ensures
        yes == remembers(views(places@), path@),
{
    let mut i: usize = 0;
    while i < places.len()
        invariant
            i <= places@.len(),
            forall|j: int| 0 <= j < i ==> (#[trigger] views(places@)[j]).0 != path@,
        decreases places@.len() - i,
    {
        assert(views(places@)[i as int] == places@[i as int]@);
        if same_text(&places[i].path, path) {
            return true;
        }
        i += 1;
    }
    false
}

/// Remember the paths of a source, after what is remembered already.
pub fn push_all(places: &mut Vec<Place>, paths: &Vec<String>, source: PlaceSource)
    ensures
        views(final(places)@) == with_paths(views(old(places)@), texts(paths@), source),
{
    let ghost before = views(places@);
    let ghost all = texts(paths@);
    let mut i: usize = 0;
    assert(all.take(0) =~= Seq::<Seq<char>>::empty());
    while i < paths.len()
        invariant
            i <= paths@.len(),
            all == texts(paths@),
            views(places@) == with_paths(before, all.take(i as int), source),
        decreases paths@.len() - i,
    {
        proof {
            assert(all.take(i + 1).drop_last() =~= all.take(i as int));
            assert(all.take(i + 1).last() == paths@[i as int]@);
        }
        let ghost known = views(places@);
        if let Some(form) = normalize(&paths[i]) {
            if !is_remembered(places, &form) {
                places.push(Place { path: form, source });
                assert(views(places@) =~= known.push((form@, source)));
            }
        }
        i += 1;
    }
    assert(all.take(i as int) =~= all);
}

/// What this server remembers, in the order in which its sources are trusted.
#[derive(Clone, Debug)]
pub struct Desk {
    /// Directories that the server's own workspaces stand in.
    pub workspaces: Vec<String>,
    /// Directories of the frecency database, highest rank first.
    pub z: Vec<String>,
    /// Directories of the project list.
    pub claude: Vec<String>,
    /// Directories of live terminal panes.
    pub tmux: Vec<String>,
    /// Directories that recent agent sessions started in, newest first.
    pub sessions: Vec<String>,
}

/// Everything that a desk remembers, each directory under the first source
/// that knows it.
pub open spec fn memory(desk: Desk) -> Seq<PlaceView> {
    let workspaces = with_paths(Seq::empty(), texts(desk.workspaces@), PlaceSource::Workspace);
    let z = with_paths(workspaces, texts(desk.z@), PlaceSource::Z);
    let claude = with_paths(z, texts(desk.claude@), PlaceSource::Claude);
    let tmux = with_paths(claude, texts(desk.tmux@), PlaceSource::Tmux);
    with_paths(tmux, texts(desk.sessions@), PlaceSource::Session)
}

/// Collect everything that a desk remembers.
pub fn collect(desk: &Desk) -> (places: Vec<Place>)
    ensures
        views(places@) == memory(*desk),
{
    let mut places: Vec<Place> = Vec::new();
    assert(views(places@) =~= Seq::<PlaceView>::empty());
    push_all(&mut places, &desk.workspaces, PlaceSource::Workspace);
    push_all(&mut places, &desk.z, PlaceSource::Z);
    push_all(&mut places, &desk.claude, PlaceSource::Claude);
    push_all(&mut places, &desk.tmux, PlaceSource::Tmux);
    push_all(&mut places, &desk.sessions, PlaceSource::Session);
    places
}

/// What every memory keeps: each path is in its reported form, and none is
/// there twice.
pub open spec fn is_memory(places: Seq<PlaceView>) -> bool {
    &&& forall|i: int|
        0 <= i < places.len() ==> (#[trigger] places[i]).0.len() > 0 && is_absolute(places[i].0)
    &&& forall|i: int, j: int|
        0 <= i < j < places.len() ==> (#[trigger] places[i]).0 != (#[trigger] places[j]).0
}

proof fn lemma_with_paths(places: Seq<PlaceView>, paths: Seq<Seq<char>>, source: PlaceSource)
    requires
        is_memory(places),
    ensures
        is_memory(with_paths(places, paths, source)),
        places.len() <= with_paths(places, paths, source).len(),
        with_paths(places, paths, source).take(places.len() as int) == places,
    decreases paths.len(),
{
    if paths.len() == 0 {
        assert(places.take(places.len() as int) =~= places);
    } else {
        lemma_with_paths(places, paths.drop_last(), source);
        let before = with_paths(places, paths.drop_last(), source);
        let after = with_path(before, paths.last(), source);
        if let Some(form) = normal_form(paths.last()) {
            if !remembers(before, form) {
                assert forall|i: int, j: int| 0 <= i < j < after.len() implies (
                #[trigger] after[i]).0 != (#[trigger] after[j]).0 by {
                    if j == before.len() {
                        assert(after[i] == before[i]);
                    } else {
                        assert(after[i] == before[i] && after[j] == before[j]);
                    }
                }
                assert(after.take(places.len() as int) =~= before.take(places.len() as int));
            }
        }
    }
}

/// However many sources know a directory, it is remembered once, in an
/// absolute form.
pub proof fn law_a_directory_is_remembered_once(desk: Desk)
    ensures
        is_memory(memory(desk)),
{
    let workspaces = with_paths(Seq::empty(), texts(desk.workspaces@), PlaceSource::Workspace);
    let z = with_paths(workspaces, texts(desk.z@), PlaceSource::Z);
    let claude = with_paths(z, texts(desk.claude@), PlaceSource::Claude);
    let tmux = with_paths(claude, texts(desk.tmux@), PlaceSource::Tmux);
    lemma_with_paths(Seq::empty(), texts(desk.workspaces@), PlaceSource::Workspace);
    lemma_with_paths(workspaces, texts(desk.z@), PlaceSource::Z);
    lemma_with_paths(z, texts(desk.claude@), PlaceSource::Claude);
    lemma_with_paths(claude, texts(desk.tmux@), PlaceSource::Tmux);
    lemma_with_paths(tmux, texts(desk.sessions@), PlaceSource::Session);
}

/// What one source holds is never moved or relabelled by a later one.
pub proof fn law_earlier_sources_go_first(
    places: Seq<PlaceView>,
    paths: Seq<Seq<char>>,
    source: PlaceSource,
)
    requires
        is_memory(places),
    ensures
        places.len() <= with_paths(places, paths, source).len(),
        with_paths(places, paths, source).take(places.len() as int) == places,
{
    lemma_with_paths(places, paths, source);
}

// ---- Literal paths ---------------------------------------------------------------------------

/// A path below a home directory; an absolute one stands on its own.
pub open spec fn below(home: Seq<char>, rest: Seq<char>) -> Seq<char> {
    if is_absolute(rest) {
        rest
    } else {
        child(home, rest)
    }
}

/// A query with its leading tilde expanded. Without a home, the query is what
/// the server makes of it elsewhere.
pub open spec fn expanded(query: Seq<char>, home: Option<Seq<char>>, elsewhere: Seq<char>) -> Seq<
    char,
> {
    match home {
        None => elsewhere,
        Some(home) => if query == "~"@ {
            home
        } else if has_prefix(query, "~/"@) {
            below(home, query.skip(2))
        } else {
            query
        },
    }
}

fn expand_tilde(query: &str, home: Option<&str>, elsewhere: &str) -> (path: String)
    ensures
        path@ == expanded(query@, str_view(home), elsewhere@),
{
    let home = match home {
        None => {
            return elsewhere.to_string();
        },
        Some(home) => home,
    };
    if same_text(query, "~") {
        return home.to_string();
    }
    let chars = to_chars(query);
    if starts_with(&chars, "~/") {
        proof {
            reveal_strlit("~/");
        }
        let rest = slice_subrange(chars.as_slice(), 2, chars.len());
        assert(rest@ =~= query@.skip(2));
        let text = to_text(rest);
        if absolute(rest) {
            return text;
        }
        return child_of(home, &text);
    }
    query.to_string()
}

/// The path that a query spells out, where it begins like one.
pub open spec fn literal(query: Seq<char>, home: Option<Seq<char>>, elsewhere: Seq<char>) -> Option<
    Seq<char>,
> {
    if query.len() > 0 && (query[0] == '/' || query[0] == '~') {
        let path = expanded(query, home, elsewhere);
        let bare = strip_run_end(path, '/');
        if bare.len() == 0 {
            Some(path)
        } else {
            Some(bare)
        }
    } else {
        None
    }
}

/// The path that a query spells out, where it begins like one.
pub fn literal_path(query: &str, home: Option<&str>, elsewhere: &str) -> (path: Option<String>)
    ensures
        view_of(path) == literal(query@, str_view(home), elsewhere@),
{
    let chars = to_chars(query);
    if chars.len() == 0 || !(chars[0] == '/' || chars[0] == '~') {
        return None;
    }
    let path = expand_tilde(query, home, elsewhere);
    let expanded_chars = to_chars(&path);
    let bare = strip_trailing(&expanded_chars, '/');
    if bare.len() == 0 {
        return Some(path);
    }
    Some(to_text(bare))
}

/// The source under which a path is remembered; a path that nobody remembers
/// is the server's own.
pub open spec fn source_of(places: Seq<PlaceView>, path: Seq<char>) -> PlaceSource
    decreases places.len(),
{
    if places.len() == 0 {
        PlaceSource::Workspace
    } else if places[0].0 == path {
        places[0].1
    } else {
        source_of(places.skip(1), path)
    }
}

/// The answer to a literal path that is a directory: the path itself, under
/// the memory that holds it.
pub fn literal_place(places: &Vec<Place>, path: String) -> (place: Place)
    ensures
        place.path == path,
        place.source == source_of(views(places@), path@),
{
    let ghost all = views(places@);
    let mut i: usize = 0;
    assert(all.skip(0) =~= all);
    while i < places.len()
        invariant
            i <= places@.len(),
            all == views(places@),
            source_of(all.skip(i as int), path@) == source_of(all, path@),
        decreases places@.len() - i,
    {
        assert(all.skip(i as int)[0] == places@[i as int]@);
        if same_text(&places[i].path, &path) {
            return Place { path, source: places[i].source };
        }
        assert(all.skip(i as int).skip(1) =~= all.skip(i + 1));
        i += 1;
    }
    assert(all.skip(i as int) =~= Seq::<PlaceView>::empty());
    Place { path, source: PlaceSource::Workspace }
}

/// What a lookup searches for.
#[derive(Clone, Debug, PartialEq, Eq)]
pub enum Target {
    /// A path, which is its own answer where it is a directory.
    Path(String),
    /// The name of a place.
    Name(String),
}

/// What a query asks for.
pub fn target_of(query: &str, home: Option<&str>, elsewhere: &str) -> (target: Target)
    ensures
        match literal(query@, str_view(home), elsewhere@) {
            Some(path) => target matches Target::Path(found) && found@ == path,
            None => target matches Target::Name(name) && name@ == query@,
        },
{
    match literal_path(query, home, elsewhere) {
        Some(path) => Target::Path(path),
        None => Target::Name(query.to_string()),
    }
}

impl Target {
    /// The name to match against what is remembered: that of the folder for a
    /// path that is no directory, so that a near miss still comes back.
    pub fn name(&self) -> (name: String)
        ensures
            name@ == (match *self {
                Target::Path(path) => name_of(path@),
                Target::Name(name) => name@,
            }),
    {
        match self {
            Target::Path(path) => folder_name(path),
            Target::Name(name) => name.as_str().to_owned(),
        }
    }
}

// ---- Ranking ---------------------------------------------------------------------------------

/// A score as something to order by.
pub open spec fn score_key(score: (u8, u8, usize)) -> Key {
    (score.0 as u64, score.1 as u64, score.2 as u64)
}

/// Whether the match at one place ranks above the match at another: by score,
/// and by place, which is the order of the sources, where the scores are
/// equal.
pub open spec fn ranks_above(scores: Seq<Option<(u8, u8, usize)>>, left: int, right: int) -> bool {
    let one = score_key(scores[left]->0);
    let two = score_key(scores[right]->0);
    crate::ordering::smaller(one, two) || (one == two && left < right)
}

/// Whether a ranking names every match, and nothing else, best first.
pub open spec fn is_ranking(scores: Seq<Option<(u8, u8, usize)>>, ranking: Seq<usize>) -> bool {
    &&& forall|i: int|
        0 <= i < ranking.len() ==> 0 <= #[trigger] ranking[i] < scores.len()
            && scores[ranking[i] as int] is Some
    &&& forall|place: int|
        0 <= place < scores.len() && scores[place] is Some ==> #[trigger] names(ranking, place)
    &&& forall|i: int, j: int|
        0 <= i < j < ranking.len() ==> ranks_above(
            scores,
            #[trigger] ranking[i] as int,
            #[trigger] ranking[j] as int,
        )
}

/// Rank the matches among some scores.
pub fn rank_scores(scores: &Vec<Option<(u8, u8, usize)>>) -> (ranking: Vec<usize>)
    ensures
        is_ranking(scores@, ranking@),
{
    let mut found: Vec<usize> = Vec::new();
    let mut keys: Vec<Key> = Vec::new();
    let mut i: usize = 0;
    while i < scores.len()
        invariant
            i <= scores@.len(),
            found@.len() == keys@.len(),
            forall|k: int|
                0 <= k < found@.len() ==> 0 <= #[trigger] found@[k] < i && scores@[found@[k] as int]
                    is Some && keys@[k] == score_key(scores@[found@[k] as int]->0),
            forall|k: int, l: int|
                0 <= k < l < found@.len() ==> #[trigger] found@[k] < #[trigger] found@[l],
            forall|place: int|
                0 <= place < i && scores@[place] is Some ==> #[trigger] names(found@, place),
        decreases scores@.len() - i,
    {
        if let Some((tier, kind, distance)) = scores[i] {
            let ghost before = found@;
            found.push(i);
            keys.push((tier as u64, kind as u64, distance as u64));
            proof {
                assert forall|place: int| 0 <= place < i + 1 && scores@[place] is Some implies
                    #[trigger] names(found@, place) by {
                    if place == i {
                        assert(found@[before.len() as int] == place);
                    } else {
                        assert(names(before, place));
                        let k = choose|k: int|
                            0 <= k < before.len() && #[trigger] before[k] == place;
                        assert(found@[k] == place);
                    }
                }
            }
        }
        i += 1;
    }
    let order = ascending(&keys);
    let mut ranking: Vec<usize> = Vec::new();
    let mut k: usize = 0;
    while k < order.len()
        invariant
            k <= order@.len(),
            ranking@.len() == k,
            covers(order@, keys@.len() as int),
            found@.len() == keys@.len(),
            forall|m: int| 0 <= m < k ==> #[trigger] ranking@[m] == found@[order@[m] as int],
        decreases order@.len() - k,
    {
        ranking.push(found[order[k]]);
        k += 1;
    }
    proof {
        assert forall|place: int| 0 <= place < scores@.len() && scores@[place] is Some implies
            #[trigger] names(ranking@, place) by {
            assert(names(found@, place));
            let at = choose|at: int| 0 <= at < found@.len() && #[trigger] found@[at] == place;
            assert(names(order@, at));
            let m = choose|m: int| 0 <= m < order@.len() && #[trigger] order@[m] == at;
            assert(ranking@[m] == place);
        }
        assert forall|a: int, b: int| 0 <= a < b < ranking@.len() implies ranks_above(
            scores@,
            #[trigger] ranking@[a] as int,
            #[trigger] ranking@[b] as int,
        ) by {
            let one = order@[a] as int;
            let two = order@[b] as int;
            assert(ranking@[a] == found@[one] && ranking@[b] == found@[two]);
            assert(by_key(keys@)(one, two));
        }
    }
    ranking
}

/// The scores of some places for a folded query.
pub open spec fn scores_of(query: Seq<char>, places: Seq<PlaceView>) -> Seq<
    Option<(u8, u8, usize)>,
> {
    Seq::new(places.len(), |i: int| path_score(query, tolerance(query), places[i].0))
}

/// Rank what is remembered against a query, best first: the places, by their
/// position. The folder-name tier stands above the path tier, inside a tier a
/// subsequence above an edit distance, closer distances first, and everything
/// level stays in source order. A query that folds to nothing matches
/// nothing.
pub fn rank(query: &str, places: &Vec<Place>) -> (ranking: Vec<usize>)
    ensures
        if folding(query@).len() == 0 {
            ranking@.len() == 0
        } else {
            is_ranking(scores_of(folding(query@), views(places@)), ranking@)
        },
{
    let wanted = folded(query);
    if wanted.len() == 0 {
        return Vec::new();
    }
    let edits = tolerance_for(&wanted);
    let mut scores: Vec<Option<(u8, u8, usize)>> = Vec::new();
    let mut i: usize = 0;
    while i < places.len()
        invariant
            i <= places@.len(),
            scores@.len() == i,
            edits == tolerance(wanted@),
            forall|j: int|
                0 <= j < i ==> #[trigger] scores@[j] == path_score(
                    wanted@,
                    tolerance(wanted@),
                    places@[j].path@,
                ),
        decreases places@.len() - i,
    {
        scores.push(match_key(&wanted, edits, &places[i].path));
        i += 1;
    }
    assert(scores@ =~= scores_of(wanted@, views(places@)));
    rank_scores(&scores)
}

/// The ranking names a directory exactly where the query's characters stand in
/// its folder's name in their order, where that name is at most two edits away
/// from a query of five characters or more, or one from a shorter query, or
/// where the characters stand in its path in their order.
pub proof fn law_what_is_ranked(
    query: Seq<char>,
    places: Seq<PlaceView>,
    ranking: Seq<usize>,
    place: int,
)
    requires
        is_ranking(scores_of(query, places), ranking),
        0 <= place < places.len(),
    ensures
        ({
            let name = folding(name_of(places[place].0));
            let path = folding(places[place].0);
            names(ranking, place) <==> spelled_in(query, name) || (query.len() >= 5 && within_edits(
                query,
                name,
                2,
            )) || (query.len() < 5 && within_edits(query, name, 1)) || spelled_in(query, path)
        }),
{
    let name = folding(name_of(places[place].0));
    let path = folding(places[place].0);
    let scores = scores_of(query, places);
    law_what_a_query_matches(query, name, path);
    assert(scores[place] == path_score(query, tolerance(query), places[place].0));
    if names(ranking, place) {
        let i = choose|i: int| 0 <= i < ranking.len() && #[trigger] ranking[i] == place;
        assert(scores[ranking[i] as int] is Some);
    }
}

/// Of two directories in a ranking, the one above is the better match: one whose
/// name spells the query stands above one whose name is only near it, which
/// stands above one that only its path spells; fewer edits stand above more; and
/// where nothing tells them apart, the order of the sources does.
pub proof fn law_better_matches_stand_above(
    query: Seq<char>,
    places: Seq<PlaceView>,
    ranking: Seq<usize>,
    above: int,
    below: int,
)
    requires
        is_ranking(scores_of(query, places), ranking),
        0 <= above < below < ranking.len(),
    ensures
        ({
            let one = ranking[above] as int;
            let two = ranking[below] as int;
            let name = folding(name_of(places[one].0));
            let other = folding(name_of(places[two].0));
            &&& spelled_in(query, other) ==> spelled_in(query, name) && one < two
            &&& !spelled_in(query, other) && nearly(query, other) ==> spelled_in(query, name) || (
            nearly(query, name) && forall|edits: nat|
                within_edits(query, other, edits) ==> #[trigger] within_edits(query, name, edits))
            &&& !spelled_in(query, name) && !spelled_in(query, other) && nearly(query, name)
                && nearly(query, other) && (forall|edits: nat|
                within_edits(query, name, edits) ==> #[trigger] within_edits(query, other, edits))
                ==> one < two
            &&& !spelled_in(query, name) && !nearly(query, name) ==> one < two && !spelled_in(
                query,
                other,
            ) && !nearly(query, other)
        }),
{
    let one = ranking[above] as int;
    let two = ranking[below] as int;
    let name = folding(name_of(places[one].0));
    let other = folding(name_of(places[two].0));
    let scores = scores_of(query, places);
    law_what_a_query_matches(query, name, folding(places[one].0));
    law_what_a_query_matches(query, other, folding(places[two].0));
    assert(ranks_above(scores, one, two));
    assert(scores[one] == path_score(query, tolerance(query), places[one].0));
    assert(scores[two] == path_score(query, tolerance(query), places[two].0));
    assert(scores[one] is Some && scores[two] is Some);
    let near = edit_distance(query, name);
    let far = edit_distance(query, other);
    assert forall|edits: nat| near <= far && within_edits(query, other, edits) implies
        #[trigger] within_edits(query, name, edits) by {
        law_the_distance_counts_edits(query, other, edits);
        law_the_distance_counts_edits(query, name, edits);
    }
    law_the_distance_counts_edits(query, name, near);
    law_the_distance_counts_edits(query, other, near);
    law_the_distance_counts_edits(query, name, 1);
    law_the_distance_counts_edits(query, name, 2);
    law_the_distance_counts_edits(query, other, 1);
    law_the_distance_counts_edits(query, other, 2);
}

/// A match on the folder name stands above every match on the path alone,
/// and a subsequence above every edit distance, whatever order the sources
/// are in.
pub proof fn law_the_tiers_stand_above_the_sources(
    scores: Seq<Option<(u8, u8, usize)>>,
    ranking: Seq<usize>,
    i: int,
    j: int,
)
    requires
        is_ranking(scores, ranking),
        0 <= i < ranking.len(),
        0 <= j < ranking.len(),
        ({
            let one = scores[ranking[i] as int]->0;
            let two = scores[ranking[j] as int]->0;
            one.0 < two.0 || (one.0 == two.0 && one.1 < two.1)
        }),
    ensures
        i < j,
{
    if j < i {
        assert(ranks_above(scores, ranking[j] as int, ranking[i] as int));
    }
}

// ---- Answering -------------------------------------------------------------------------------

/// What the disk says of a place.
#[derive(Clone, Debug, PartialEq, Eq)]
pub struct Probe {
    pub is_dir: bool,
    /// The one path of the directory, however it is reached; absent where
    /// that is not known.
    pub canonical: Option<String>,
}

/// The answer in the making: the places, and the one path of each.
#[derive(Clone, Debug)]
pub struct Answers {
    limit: usize,
    places: Vec<Place>,
    keys: Vec<String>,
}

/// An answer over its texts.
#[verifier::ext_equal]
pub ghost struct AnswersView {
    pub limit: nat,
    pub places: Seq<PlaceView>,
    pub keys: Seq<Seq<char>>,
}

impl View for Answers {
    type V = AnswersView;

    closed spec fn view(&self) -> AnswersView {
        AnswersView {
            limit: self.limit as nat,
            places: views(self.places@),
            keys: texts(self.keys@),
        }
    }
}

/// The one path of a place: the canonical one, or the remembered one.
pub open spec fn place_key(place: PlaceView, canonical: Option<Seq<char>>) -> Seq<char> {
    match canonical {
        Some(path) => path,
        None => place.0,
    }
}

/// Whether one of some texts spells a path.
pub open spec fn holds_path(paths: Seq<Seq<char>>, path: Seq<char>) -> bool {
    exists|i: int| 0 <= i < paths.len() && same_path(#[trigger] paths[i], path)
}

/// An answer after a place was offered to it: only directories are answered,
/// two spellings of one directory are one place, and nothing is taken past
/// the limit.
pub open spec fn after_offer(
    answers: AnswersView,
    place: PlaceView,
    is_dir: bool,
    canonical: Option<Seq<char>>,
) -> AnswersView {
    let key = place_key(place, canonical);
    if answers.places.len() >= answers.limit || !is_dir || holds_path(answers.keys, key) {
        answers
    } else {
        AnswersView {
            limit: answers.limit,
            places: answers.places.push(place),
            keys: answers.keys.push(key),
        }
    }
}

impl Answers {
    pub fn new(limit: usize) -> (answers: Answers)
        ensures
            answers@ == (AnswersView {
                limit: limit as nat,
                places: Seq::empty(),
                keys: Seq::empty(),
            }),
    {
        let answers = Answers { limit, places: Vec::new(), keys: Vec::new() };
        assert(answers@.places =~= Seq::<PlaceView>::empty());
        assert(answers@.keys =~= Seq::<Seq<char>>::empty());
        answers
    }

    /// Whether another place would still be taken, so that the disk is asked
    /// about no place in vain.
    pub fn wants_more(&self) -> (yes: bool)
        ensures
            yes == (self@.places.len() < self@.limit),
    {
        self.places.len() < self.limit
    }

    /// Offer the next place of a ranking.
    pub fn offer(&mut self, place: &Place, probe: Probe)
        ensures
            final(self)@ == after_offer(
                old(self)@,
                place@,
                probe.is_dir,
                view_of(probe.canonical),
            ),
    {
        let ghost before = self@;
        if self.places.len() >= self.limit || !probe.is_dir {
            return ;
        }
        let key = match probe.canonical {
            Some(path) => path,
            None => place.path.as_str().to_owned(),
        };
        let mut i: usize = 0;
        while i < self.keys.len()
            invariant
                i <= self.keys@.len(),
                self@ == before,
                before.keys == texts(self.keys@),
                forall|j: int| 0 <= j < i ==> !same_path(#[trigger] before.keys[j], key@),
                key@ == place_key(place@, view_of(probe.canonical)),
            decreases self.keys@.len() - i,
        {
            assert(before.keys[i as int] == self.keys@[i as int]@);
            if paths_equal(&self.keys[i], &key) {
                assert(holds_path(before.keys, key@));
                return ;
            }
            i += 1;
        }
        assert(!holds_path(before.keys, key@));
        self.keys.push(key);
        self.places.push(Place { path: place.path.as_str().to_owned(), source: place.source });
        assert(self@.places =~= before.places.push(place@));
        assert(self@.keys =~= before.keys.push(key@));
    }

    /// The places that were answered.
    pub fn into_places(self) -> (places: Vec<Place>)
        ensures
            views(places@) == self@.places,
    {
        self.places
    }
}

/// What every answer keeps: it is within its limit, and no directory is in it
/// twice.
pub open spec fn is_answer(answers: AnswersView) -> bool {
    &&& answers.places.len() <= answers.limit
    &&& answers.keys.len() == answers.places.len()
    &&& forall|i: int, j: int|
        0 <= i < answers.keys.len() && 0 <= j < answers.keys.len() && i != j ==> !same_path(
            #[trigger] answers.keys[i],
            #[trigger] answers.keys[j],
        )
}

/// An answer never outgrows its limit, and never holds one directory twice,
/// however often it is offered.
pub proof fn law_an_answer_holds_each_directory_once(
    answers: AnswersView,
    place: PlaceView,
    is_dir: bool,
    canonical: Option<Seq<char>>,
)
    requires
        is_answer(answers),
    ensures
        is_answer(after_offer(answers, place, is_dir, canonical)),
        !is_dir ==> after_offer(answers, place, is_dir, canonical) == answers,
        after_offer(after_offer(answers, place, is_dir, canonical), place, is_dir, canonical)
            == after_offer(answers, place, is_dir, canonical),
{
    let key = place_key(place, canonical);
    let after = after_offer(answers, place, is_dir, canonical);
    if after != answers {
        assert forall|i: int, j: int| 0 <= i < after.keys.len() && 0 <= j < after.keys.len() && i
            != j implies !same_path(#[trigger] after.keys[i], #[trigger] after.keys[j]) by {
            if i < answers.keys.len() && j < answers.keys.len() {
                assert(after.keys[i] == answers.keys[i] && after.keys[j] == answers.keys[j]);
            } else if i < answers.keys.len() {
                assert(!same_path(answers.keys[i], key));
            } else {
                assert(!same_path(answers.keys[j], key));
            }
        }
        assert(after.keys[answers.keys.len() as int] == key);
        assert(holds_path(after.keys, key));
    }
}

/// A remembered path is compared and reported without the white space around it
/// and without the slashes behind it; only an absolute one is remembered, and
/// slashes alone name nothing.
pub proof fn law_how_a_path_is_remembered(
    lead: Seq<char>,
    path: Seq<char>,
    slashes: Seq<char>,
    tail: Seq<char>,
)
    requires
        is_blank(lead),
        is_blank(tail),
        is_run(slashes, '/'),
        path.len() > 0 ==> !is_white_space(path[0]) && !is_white_space(path.last()) && path.last()
            != '/',
    ensures
        path.len() > 0 && path[0] == '/' ==> normal_form(lead + (path + slashes) + tail) == Some(
            path,
        ),
        path.len() > 0 && path[0] != '/' ==> normal_form(lead + (path + slashes) + tail) is None,
        path.len() == 0 ==> normal_form(lead + (path + slashes) + tail) is None,
{
    let inner = path + slashes;
    if inner.len() > 0 {
        if path.len() > 0 {
            assert(inner[0] == path[0]);
        } else {
            assert(inner[0] == slashes[0]);
            assert(slashes[0] == '/');
        }
        if slashes.len() > 0 {
            assert(inner.last() == slashes[slashes.len() - 1]);
        } else {
            assert(inner =~= path);
        }
    }
    law_what_is_around_is_trimmed(lead, inner, tail);
    law_a_run_at_the_end_is_stripped(path, slashes, '/');
}

/// A query that begins with a slash spells out a path, without the slashes
/// behind it; one that begins with a tilde and a slash spells out a path below
/// the home; a tilde alone is the home; and any other query is a name.
pub proof fn law_which_query_spells_out_a_path(
    path: Seq<char>,
    slashes: Seq<char>,
    home: Seq<char>,
    elsewhere: Seq<char>,
)
    requires
        is_run(slashes, '/'),
        path.len() > 0,
        path.last() != '/',
        home.len() > 0 && home.last() != '/',
    ensures
        path[0] == '/' ==> literal(path + slashes, Some(home), elsewhere) == Some(path),
        path[0] != '/' ==> literal(
            seq!['~', '/'] + path + slashes,
            Some(home),
            elsewhere,
        ) == Some(home + seq!['/'] + path),
        literal(seq!['~'], Some(home), elsewhere) == Some(home),
        literal(seq!['/'], Some(home), elsewhere) == Some(seq!['/']),
        path[0] != '/' && path[0] != '~' ==> literal(path + slashes, Some(home), elsewhere) is None,
{
    reveal_strlit("~");
    reveal_strlit("~/");
    reveal_strlit("/");
    let none = Seq::<char>::empty();
    assert((path + slashes)[0] == path[0]);
    law_a_run_at_the_end_is_stripped(path, slashes, '/');
    if path[0] == '/' {
        if path + slashes == "~"@ {
            assert((path + slashes)[0] == '~');
        }
        if has_prefix(path + slashes, "~/"@) {
            assert((path + slashes).take(2)[0] == '~');
        }
    }
    let query = seq!['~', '/'] + path + slashes;
    assert(query[0] == '~');
    assert(query.len() > 1);
    assert(query.take(2) =~= "~/"@);
    assert(query.skip(2) =~= path + slashes);
    if path[0] != '/' {
        let below_home = home + seq!['/'] + path;
        assert(home + "/"@ + (path + slashes) =~= below_home + slashes);
        assert(below_home.last() == path.last());
        law_a_run_at_the_end_is_stripped(below_home, slashes, '/');
    }
    assert("~"@ =~= seq!['~']);
    assert(is_run(none, '/'));
    assert(home + none =~= home);
    law_a_run_at_the_end_is_stripped(home, none, '/');
    let root = seq!['/'];
    assert(is_run(root, '/'));
    assert(none + root =~= root);
    law_a_run_at_the_end_is_stripped(none, root, '/');
    if root == "~"@ {
        assert(root[0] == '~');
    }
}

/// Whether a source speaks of a path.
pub open spec fn speaks_of(paths: Seq<Seq<char>>, path: Seq<char>) -> bool {
    exists|i: int| 0 <= i < paths.len() && normal_form(#[trigger] paths[i]) == Some(path)
}

proof fn lemma_what_is_added(
    places: Seq<PlaceView>,
    paths: Seq<Seq<char>>,
    source: PlaceSource,
    path: Seq<char>,
)
    ensures
        remembers(with_paths(places, paths, source), path) <==> remembers(places, path)
            || speaks_of(paths, path),
        forall|i: int|
            0 <= i < with_paths(places, paths, source).len() && (#[trigger] with_paths(
                places,
                paths,
                source,
            )[i]).0 == path ==> (i < places.len() && with_paths(places, paths, source)[i]
                == places[i]) || (!remembers(places, path) && speaks_of(paths, path) && with_paths(
                places,
                paths,
                source,
            )[i].1 == source),
        places.len() <= with_paths(places, paths, source).len(),
    decreases paths.len(),
{
    let after = with_paths(places, paths, source);
    if paths.len() > 0 {
        let front = paths.drop_last();
        let before = with_paths(places, front, source);
        lemma_what_is_added(places, front, source, path);
        let form = normal_form(paths.last());
        if speaks_of(front, path) {
            let i = choose|i: int|
                0 <= i < front.len() && normal_form(#[trigger] front[i]) == Some(path);
            assert(paths[i] == front[i]);
        }
        if form == Some(path) {
            assert(normal_form(paths[paths.len() - 1]) == Some(path));
        }
        if speaks_of(paths, path) {
            let i = choose|i: int|
                0 <= i < paths.len() && normal_form(#[trigger] paths[i]) == Some(path);
            if i < front.len() {
                assert(front[i] == paths[i]);
            }
        }
        if remembers(before, path) {
            let i = choose|i: int| 0 <= i < before.len() && (#[trigger] before[i]).0 == path;
            assert(after[i] == before[i]);
        }
        if form is Some && !remembers(before, form->0) {
            assert(after[before.len() as int] == (form->0, source));
        }
        if remembers(after, path) {
            let i = choose|i: int| 0 <= i < after.len() && (#[trigger] after[i]).0 == path;
            if i < before.len() {
                assert(before[i].0 == path);
            }
        }
        assert forall|i: int| 0 <= i < after.len() && (#[trigger] after[i]).0 == path implies (i
            < places.len() && after[i] == places[i]) || (!remembers(places, path) && speaks_of(
            paths,
            path,
        ) && after[i].1 == source) by {
            if i < before.len() {
                assert(after[i] == before[i]);
                assert(before[i].0 == path);
            } else {
                if remembers(places, path) {
                    assert(remembers(before, path));
                }
            }
        }
    }
}

/// A desk remembers exactly the paths that its sources speak of, each under the
/// first source that does: the workspaces before the frecency database, that
/// before the project list, that before the panes, and those before the
/// sessions.
pub proof fn law_the_first_source_claims_a_path(desk: Desk, path: Seq<char>, i: int)
    ensures
        ({
            let open = speaks_of(texts(desk.workspaces@), path);
            let z = speaks_of(texts(desk.z@), path);
            let listed = speaks_of(texts(desk.claude@), path);
            let panes = speaks_of(texts(desk.tmux@), path);
            let sessions = speaks_of(texts(desk.sessions@), path);
            &&& remembers(memory(desk), path) <==> open || z || listed || panes || sessions
            &&& 0 <= i < memory(desk).len() && memory(desk)[i].0 == path ==> memory(desk)[i].1 == (
            if open {
                PlaceSource::Workspace
            } else if z {
                PlaceSource::Z
            } else if listed {
                PlaceSource::Claude
            } else if panes {
                PlaceSource::Tmux
            } else {
                PlaceSource::Session
            })
        }),
{
    let none = Seq::<PlaceView>::empty();
    let one = with_paths(none, texts(desk.workspaces@), PlaceSource::Workspace);
    let two = with_paths(one, texts(desk.z@), PlaceSource::Z);
    let three = with_paths(two, texts(desk.claude@), PlaceSource::Claude);
    let four = with_paths(three, texts(desk.tmux@), PlaceSource::Tmux);
    lemma_what_is_added(none, texts(desk.workspaces@), PlaceSource::Workspace, path);
    lemma_what_is_added(one, texts(desk.z@), PlaceSource::Z, path);
    lemma_what_is_added(two, texts(desk.claude@), PlaceSource::Claude, path);
    lemma_what_is_added(three, texts(desk.tmux@), PlaceSource::Tmux, path);
    lemma_what_is_added(four, texts(desk.sessions@), PlaceSource::Session, path);
    let all = memory(desk);
    if 0 <= i < all.len() && all[i].0 == path {
        if i < four.len() && all[i] == four[i] {
            assert(remembers(four, path));
            if i < three.len() && four[i] == three[i] {
                assert(remembers(three, path));
                if i < two.len() && three[i] == two[i] {
                    assert(remembers(two, path));
                    if i < one.len() && two[i] == one[i] {
                        assert(remembers(one, path));
                    }
                }
            }
        }
    }
}

/// A path is answered under the source that remembers it first, and a path that
/// none remembers is the server's own.
pub proof fn law_under_which_source_a_path_is_answered(
    places: Seq<PlaceView>,
    path: Seq<char>,
    at: int,
)
    ensures
        0 <= at < places.len() && places[at].0 == path && (forall|j: int|
            0 <= j < at ==> (#[trigger] places[j]).0 != path) ==> source_of(places, path)
            == places[at].1,
        !remembers(places, path) ==> source_of(places, path) == PlaceSource::Workspace,
    decreases places.len(),
{
    if places.len() > 0 {
        let rest = places.skip(1);
        law_under_which_source_a_path_is_answered(rest, path, at - 1);
        if remembers(rest, path) {
            let j = choose|j: int| 0 <= j < rest.len() && (#[trigger] rest[j]).0 == path;
            assert(places[j + 1].0 == path);
        }
        assert(places[0].0 == path ==> remembers(places, path));
        if 0 < at < places.len() && places[at].0 == path && (forall|j: int|
            0 <= j < at ==> (#[trigger] places[j]).0 != path) {
            assert(rest[at - 1] == places[at]);
            assert(places[0].0 != path);
            assert forall|j: int| 0 <= j < at - 1 implies (#[trigger] rest[j]).0 != path by {
                assert(rest[j] == places[j + 1]);
            }
        }
    }
}

/// A directory that was not answered yet is, behind the others, while there is
/// room; what is no directory, and a directory under another spelling, is not.
pub proof fn law_what_is_answered(
    answers: AnswersView,
    place: PlaceView,
    canonical: Option<Seq<char>>,
)
    ensures
        ({
            let key = match canonical {
                Some(path) => path,
                None => place.0,
            };
            let known = exists|i: int|
                0 <= i < answers.keys.len() && same_path(#[trigger] answers.keys[i], key);
            &&& after_offer(answers, place, false, canonical) == answers
            &&& known ==> after_offer(answers, place, true, canonical) == answers
            &&& answers.places.len() >= answers.limit ==> after_offer(
                answers,
                place,
                true,
                canonical,
            ) == answers
            &&& !known && answers.places.len() < answers.limit ==> after_offer(
                answers,
                place,
                true,
                canonical,
            ).places == answers.places.push(place)
        }),
{
}

} // verus!
