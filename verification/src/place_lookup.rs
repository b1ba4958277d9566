//! A lookup, from a typed query to the directories it is answered with.
//!
//! What the disk says of a directory is asked one path at a time: a lookup
//! names the path it needs to know about, and is handed what was found there.

use crate::matching::{folding, name_of};
use crate::places::{
    after_offer, collect, is_ranking, literal, literal_place, memory, rank, scores_of, source_of,
    target_of, views, Answers, AnswersView, Desk, Place, PlaceView, Probe, Target,
};
use crate::text::{str_view, view_of};
use vstd::prelude::*;

verus! {

/// A lookup under way.
#[derive(Debug)]
pub struct Lookup {
    memory: Vec<Place>,
    /// The path that the query spells out, until it was asked about.
    literal: Option<String>,
    /// The answer, where the query spelled out a directory.
    found: Option<Place>,
    ranking: Vec<usize>,
    at: usize,
    answers: Answers,
}

/// A lookup under way, over its texts.
#[verifier::ext_equal]
pub ghost struct LookupView {
    pub memory: Seq<PlaceView>,
    pub literal: Option<Seq<char>>,
    pub found: Option<PlaceView>,
    /// The matches that were not asked about yet, best first.
    pub left: Seq<usize>,
    pub answers: AnswersView,
}

impl View for Lookup {
    type V = LookupView;

    closed spec fn view(&self) -> LookupView {
        LookupView {
            memory: views(self.memory@),
            literal: view_of(self.literal),
            found: match self.found {
                Some(place) => Some(place@),
                None => None,
            },
            left: self.ranking@.skip(self.at as int),
            answers: self.answers@,
        }
    }
}

/// The name to match against what is remembered: that of the folder where the
/// query spells out a path.
pub open spec fn wanted_name(query: Seq<char>, literal: Option<Seq<char>>) -> Seq<char> {
    match literal {
        Some(path) => name_of(path),
        None => query,
    }
}

/// The path that a lookup needs to know about next; a lookup without one is
/// finished.
pub open spec fn asked_path(lookup: LookupView) -> Option<Seq<char>> {
    if lookup.found is Some {
        None
    } else if lookup.literal is Some {
        lookup.literal
    } else if lookup.left.len() == 0 || lookup.answers.places.len() >= lookup.answers.limit {
        None
    } else {
        Some(lookup.memory[lookup.left[0] as int].0)
    }
}

/// A lookup once it was told about the path it asked about. A path that is
/// spelled out and is a directory is its own answer; any other match is
/// offered to the answer.
pub open spec fn after_answer(
    lookup: LookupView,
    is_dir: bool,
    canonical: Option<Seq<char>>,
) -> LookupView {
    match (asked_path(lookup), lookup.literal) {
        (None, _) => lookup,
        (Some(path), Some(_)) => LookupView {
            literal: None,
            found: if is_dir {
                Some((path, source_of(lookup.memory, path)))
            } else {
                None
            },
            ..lookup
        },
        (Some(_), None) => LookupView {
            left: lookup.left.skip(1),
            answers: after_offer(
                lookup.answers,
                lookup.memory[lookup.left[0] as int],
                is_dir,
                canonical,
            ),
            ..lookup
        },
    }
}

/// What a lookup is answered with so far.
pub open spec fn answered(lookup: LookupView) -> Seq<PlaceView> {
    match lookup.found {
        Some(place) => seq![place],
        None => lookup.answers.places,
    }
}

impl Lookup {
    /// What every lookup keeps: it only asks about what is remembered.
    #[verifier::type_invariant]
    spec fn keeps(self) -> bool {
        &&& self.at <= self.ranking@.len()
        &&& forall|i: int|
            0 <= i < self.ranking@.len() ==> 0 <= #[trigger] self.ranking@[i] < self.memory@.len()
    }

    /// Begin to look up a query on a desk.
    pub fn begin(
        desk: &Desk,
        query: &str,
        home: Option<&str>,
        elsewhere: &str,
        limit: usize,
    ) -> (lookup: Lookup)
        ensures
            lookup@.memory == memory(*desk),
            lookup@.literal == literal(query@, str_view(home), elsewhere@),
            lookup@.found is None,
            lookup@.answers == (AnswersView {
                limit: limit as nat,
                places: Seq::empty(),
                keys: Seq::empty(),
            }),
            ({
                let name = wanted_name(query@, lookup@.literal);
                if folding(name).len() == 0 {
                    lookup@.left.len() == 0
                } else {
                    is_ranking(scores_of(folding(name), lookup@.memory), lookup@.left)
                }
            }),
    {
        let memory = collect(desk);
        let target = target_of(query, home, elsewhere);
        let ranking = rank(&target.name(), &memory);
        let literal = match target {
            Target::Path(path) => Some(path),
            Target::Name(_) => None,
        };
        let lookup = Lookup {
            memory,
            literal,
            found: None,
            ranking,
            at: 0,
            answers: Answers::new(limit),
        };
        assert(lookup@.left =~= lookup.ranking@);
        lookup
    }

    /// The path to ask the disk about next; a lookup without one is finished.
    pub fn ask(&self) -> (path: Option<String>)
        ensures
            view_of(path) == asked_path(self@),
    {
        proof {
            use_type_invariant(self);
        }
        if self.found.is_some() {
            return None;
        }
        if let Some(path) = &self.literal {
            return Some(path.as_str().to_owned());
        }
        if self.at >= self.ranking.len() || !self.answers.wants_more() {
            return None;
        }
        assert(self@.left[0] == self.ranking@[self.at as int]);
        Some(self.memory[self.ranking[self.at]].path.as_str().to_owned())
    }

    /// Tell a lookup what the disk says of the path it asked about.
    pub fn answer(&mut self, probe: Probe)
        ensures
            final(self)@ == after_answer(old(self)@, probe.is_dir, view_of(probe.canonical)),
    {
        proof {
            use_type_invariant(&*self);
        }
        if self.found.is_some() {
            return ;
        }
        let ghost before = *self;
        let mut literal: Option<String> = None;
        core::mem::swap(&mut literal, &mut self.literal);
        if let Some(path) = literal {
            if probe.is_dir {
                self.found = Some(literal_place(&self.memory, path));
            }
            assert(self@ =~= after_answer(before@, probe.is_dir, view_of(probe.canonical)));
            return ;
        }
        if self.at >= self.ranking.len() || !self.answers.wants_more() {
            assert(self@ =~= before@);
            return ;
        }
        assert(before@.left[0] == self.ranking@[self.at as int]);
        let mut answers = Answers::new(0);
        core::mem::swap(&mut answers, &mut self.answers);
        answers.offer(&self.memory[self.ranking[self.at]], probe);
        self.answers = answers;
        self.at += 1;
        assert(self@.left =~= before@.left.skip(1));
        assert(self@ =~= after_answer(before@, probe.is_dir, view_of(probe.canonical)));
    }

    /// What the query is answered with.
    pub fn into_places(self) -> (places: Vec<Place>)
        ensures
            views(places@) == answered(self@),
    {
        match self.found {
            Some(place) => {
                let mut places: Vec<Place> = Vec::new();
                places.push(place);
                assert(views(places@) =~= answered(self@));
                places
            },
            None => self.answers.into_places(),
        }
    }
}

// ---- What comes of it ------------------------------------------------------------------------

/// What a disk says of every path: whether it is a directory, and its one
/// path.
pub type Disk = spec_fn(Seq<char>) -> (bool, Option<Seq<char>>);

/// An answer once every match was offered to it.
pub open spec fn offered(
    memory: Seq<PlaceView>,
    left: Seq<usize>,
    answers: AnswersView,
    disk: Disk,
) -> AnswersView
    decreases left.len(),
{
    if left.len() == 0 {
        answers
    } else {
        let place = memory[left[0] as int];
        offered(
            memory,
            left.skip(1),
            after_offer(answers, place, disk(place.0).0, disk(place.0).1),
            disk,
        )
    }
}

/// What a lookup is answered with on a disk: a path that is spelled out and is
/// a directory is the whole answer, and otherwise the matches are, best
/// first.
pub open spec fn outcome(lookup: LookupView, disk: Disk) -> Seq<PlaceView> {
    if lookup.found is Some {
        answered(lookup)
    } else if lookup.literal is Some && disk(lookup.literal->0).0 {
        seq![(lookup.literal->0, source_of(lookup.memory, lookup.literal->0))]
    } else {
        offered(lookup.memory, lookup.left, lookup.answers, disk).places
    }
}

proof fn lemma_a_full_answer_takes_nothing(
    memory: Seq<PlaceView>,
    left: Seq<usize>,
    answers: AnswersView,
    disk: Disk,
)
    requires
        answers.places.len() >= answers.limit,
    ensures
        offered(memory, left, answers, disk) == answers,
    decreases left.len(),
{
    if left.len() > 0 {
        lemma_a_full_answer_takes_nothing(memory, left.skip(1), answers, disk);
    }
}

/// Every answer from the disk keeps what a lookup comes to: however far it
/// has come, its outcome is the same.
pub proof fn law_the_outcome_is_settled_by_the_disk(lookup: LookupView, disk: Disk)
    requires
        asked_path(lookup) is Some,
    ensures
        ({
            let told = disk(asked_path(lookup)->0);
            outcome(after_answer(lookup, told.0, told.1), disk) == outcome(lookup, disk)
        }),
{
}

/// A lookup that asks no more is answered with its outcome, whatever the
/// paths hold that it never asked about.
pub proof fn law_a_finished_lookup_has_its_outcome(lookup: LookupView, disk: Disk)
    requires
        asked_path(lookup) is None,
    ensures
        answered(lookup) == outcome(lookup, disk),
{
    if lookup.found is None && lookup.answers.places.len() >= lookup.answers.limit {
        lemma_a_full_answer_takes_nothing(lookup.memory, lookup.left, lookup.answers, disk);
    }
}

/// A path that is spelled out and is a directory is the one answer; the folder
/// at its end is what is looked for where it is none, and a name is looked for
/// as it stands.
pub proof fn law_a_spelled_out_directory_is_the_answer(
    lookup: LookupView,
    disk: Disk,
    path: Seq<char>,
    query: Seq<char>,
)
    requires
        lookup.found is None,
        lookup.literal == Some(path),
    ensures
        disk(path).0 ==> outcome(lookup, disk).len() == 1 && outcome(lookup, disk)[0].0 == path,
        asked_path(lookup) == Some(path),
        wanted_name(query, Some(path)) == name_of(path),
        wanted_name(query, None) == query,
{
}

/// Only directories are added to an answer, never more than its limit, and what
/// was answered before stays in front.
pub proof fn law_only_directories_are_answered(
    memory: Seq<PlaceView>,
    left: Seq<usize>,
    answers: AnswersView,
    disk: Disk,
)
    requires
        answers.places.len() <= answers.limit,
    ensures
        ({
            let after = offered(memory, left, answers, disk);
            &&& after.places.len() <= after.limit
            &&& after.limit == answers.limit
            &&& answers.places.len() <= after.places.len()
            &&& after.places.take(answers.places.len() as int) == answers.places
            &&& forall|i: int|
                answers.places.len() <= i < after.places.len() ==> disk(
                    (#[trigger] after.places[i]).0,
                ).0
        }),
    decreases left.len(),
{
    assert(answers.places.take(answers.places.len() as int) =~= answers.places);
    if left.len() > 0 {
        let place = memory[left[0] as int];
        let next = after_offer(answers, place, disk(place.0).0, disk(place.0).1);
        law_only_directories_are_answered(memory, left.skip(1), next, disk);
        let after = offered(memory, left, answers, disk);
        assert(after.places.take(answers.places.len() as int) =~= after.places.take(
            next.places.len() as int,
        ).take(answers.places.len() as int));
        assert(next.places.take(answers.places.len() as int) =~= answers.places);
        assert forall|i: int| answers.places.len() <= i < after.places.len() implies disk(
            (#[trigger] after.places[i]).0,
        ).0 by {
            if i < next.places.len() {
                assert(after.places.take(next.places.len() as int)[i] == after.places[i]);
            }
        }
    }
}

/// The best match that is a directory is the first answer.
pub proof fn law_the_best_directory_is_answered_first(
    memory: Seq<PlaceView>,
    left: Seq<usize>,
    answers: AnswersView,
    disk: Disk,
    at: int,
)
    requires
        answers.places.len() == 0,
        answers.keys.len() == 0,
        answers.limit > 0,
        0 <= at < left.len(),
        disk(memory[left[at] as int].0).0,
        forall|j: int| 0 <= j < at ==> !disk(memory[(#[trigger] left[j]) as int].0).0,
    ensures
        offered(memory, left, answers, disk).places.len() > 0,
        offered(memory, left, answers, disk).places[0] == memory[left[at] as int],
    decreases left.len(),
{
    let rest = left.skip(1);
    let place = memory[left[0] as int];
    let next = after_offer(answers, place, disk(place.0).0, disk(place.0).1);
    if at == 0 {
        assert(next.places =~= answers.places.push(place));
        law_only_directories_are_answered(memory, rest, next, disk);
        let after = offered(memory, left, answers, disk);
        assert(after.places.take(1)[0] == next.places[0]);
    } else {
        assert(!disk(memory[left[0] as int].0).0);
        assert(next == answers);
        assert(rest[at - 1] == left[at]);
        assert forall|j: int| 0 <= j < at - 1 implies !disk(
            memory[(#[trigger] rest[j]) as int].0,
        ).0 by {
            assert(rest[j] == left[j + 1]);
        }
        law_the_best_directory_is_answered_first(memory, rest, answers, disk, at - 1);
    }
}

} // verus!
