//! Which member of a foreground process group to ask when its leader is gone.
//!
//! A group outlives its leader, so the group id is not always a live pid. The
//! leader goes first; then the member that answered last time, which is
//! checked and never trusted; then whichever member an enumeration finds.

use std::collections::HashMap;
use vstd::prelude::*;

verus! {

/// How many groups are remembered before all are forgotten.
pub const MAX_REMEMBERED_GROUPS: usize = 64;

/// The members that answered for groups whose leader is gone.
#[derive(Debug)]
pub struct DeadLeaderCache {
    members: HashMap<u32, u32>,
}

/// The remembered member of a group, where there is one.
pub open spec fn remembered(members: Map<u32, u32>, group: u32) -> Option<u32> {
    if members.dom().contains(group) {
        Some(members[group])
    } else {
        None
    }
}

impl View for DeadLeaderCache {
    type V = Map<u32, u32>;

    closed spec fn view(&self) -> Map<u32, u32> {
        self.members@
    }
}

/// Where the search for a live member stands.
#[derive(Clone, Copy, Debug, PartialEq, Eq, Structural)]
pub enum MemberSearch {
    /// Ask whether the leader lives.
    AskLeader { group: u32 },
    /// Ask whether a remembered member is still in the group.
    AskStillMember { group: u32, member: u32 },
    /// Ask for the first live process among the group's members.
    AskMembers { group: u32 },
    /// The search is over.
    Answer(Option<u32>),
}

/// What the machine answered.
#[derive(Clone, Copy, Debug, PartialEq, Eq, Structural)]
pub enum MemberReply {
    /// Whether the leader lives, or the member is still in the group.
    Holds(bool),
    /// The first live member that an enumeration found, if any.
    Found(Option<u32>),
}

/// The next question, or the answer.
pub open spec fn next_member_question(
    search: MemberSearch,
    reply: MemberReply,
    cached: Option<u32>,
) -> MemberSearch {
    match (search, reply) {
        (MemberSearch::AskLeader { group }, MemberReply::Holds(true)) => MemberSearch::Answer(
            Some(group),
        ),
        (MemberSearch::AskLeader { group }, _) => match cached {
            Some(member) => MemberSearch::AskStillMember { group, member },
            None => MemberSearch::AskMembers { group },
        },
        (MemberSearch::AskStillMember { member, .. }, MemberReply::Holds(true)) =>
            MemberSearch::Answer(Some(member)),
        (MemberSearch::AskStillMember { group, .. }, _) => MemberSearch::AskMembers { group },
        (MemberSearch::AskMembers { .. }, MemberReply::Found(found)) => MemberSearch::Answer(found),
        (MemberSearch::AskMembers { .. }, _) => MemberSearch::Answer(None),
        (MemberSearch::Answer(answer), _) => MemberSearch::Answer(answer),
    }
}

/// What is remembered after a reply: a member that left is forgotten, and an
/// enumeration's outcome replaces what was known of the group, after all is
/// forgotten where too much was remembered.
pub open spec fn cache_after(
    members: Map<u32, u32>,
    search: MemberSearch,
    reply: MemberReply,
) -> Map<u32, u32> {
    match (search, reply) {
        (MemberSearch::AskStillMember { .. }, MemberReply::Holds(true)) => members,
        (MemberSearch::AskStillMember { group, .. }, _) => members.remove(group),
        (MemberSearch::AskMembers { group }, _) => {
            let kept = if members.len() > MAX_REMEMBERED_GROUPS {
                Map::empty()
            } else {
                members
            };
            match reply {
                MemberReply::Found(Some(member)) => kept.insert(group, member),
                _ => kept.remove(group),
            }
        },
        _ => members,
    }
}

impl DeadLeaderCache {
    pub fn new() -> (cache: DeadLeaderCache)
        ensures
            cache@ == Map::<u32, u32>::empty(),
    {
        DeadLeaderCache { members: HashMap::new() }
    }

    fn cached(&self, group: u32) -> (member: Option<u32>)
        ensures
            member == remembered(self@, group),
    {
        broadcast use vstd::std_specs::hash::group_hash_axioms;

        match self.members.get(&group) {
            Some(member) => Some(*member),
            None => None,
        }
    }

    /// Begin the search for a live member of a group.
    pub fn begin(group: u32) -> (search: MemberSearch)
        ensures
            search == (MemberSearch::AskLeader { group }),
    {
        MemberSearch::AskLeader { group }
    }

    /// Answer a question, and get the next one.
    pub fn live_foreground_group_member(
        &mut self,
        search: MemberSearch,
        reply: MemberReply,
    ) -> (next: MemberSearch)
        ensures
            final(self)@ == cache_after(old(self)@, search, reply),
            ({
                let cached = match search {
                    MemberSearch::AskLeader { group } => remembered(old(self)@, group),
                    _ => None,
                };
                next == next_member_question(search, reply, cached)
            }),
    {
        broadcast use vstd::std_specs::hash::group_hash_axioms;

        match search {
            MemberSearch::AskLeader { group } => {
                if let MemberReply::Holds(true) = reply {
                    return MemberSearch::Answer(Some(group));
                }
                match self.cached(group) {
                    Some(member) => MemberSearch::AskStillMember { group, member },
                    None => MemberSearch::AskMembers { group },
                }
            },
            MemberSearch::AskStillMember { group, member } => {
                if let MemberReply::Holds(true) = reply {
                    return MemberSearch::Answer(Some(member));
                }
                self.members.remove(&group);
                MemberSearch::AskMembers { group }
            },
            MemberSearch::AskMembers { group } => {
                if self.members.len() > MAX_REMEMBERED_GROUPS {
                    self.members.clear();
                }
                match reply {
                    MemberReply::Found(Some(member)) => {
                        self.members.insert(group, member);
                        MemberSearch::Answer(Some(member))
                    },
                    _ => {
                        self.members.remove(&group);
                        MemberSearch::Answer(None)
                    },
                }
            },
            MemberSearch::Answer(answer) => MemberSearch::Answer(answer),
        }
    }
}

/// A remembered member is never trusted: an answer is the live leader, a
/// member just confirmed to be in the group, or what an enumeration just
/// found.
pub proof fn law_a_member_is_checked_before_it_is_answered(
    search: MemberSearch,
    reply: MemberReply,
    cached: Option<u32>,
    answer: u32,
)
    requires
        !(search is Answer),
        next_member_question(search, reply, cached) == MemberSearch::Answer(Some(answer)),
    ensures
        match search {
            MemberSearch::AskLeader { group } => reply == MemberReply::Holds(true) && answer
                == group,
            MemberSearch::AskStillMember { member, .. } => reply == MemberReply::Holds(true)
                && answer == member,
            MemberSearch::AskMembers { .. } => reply == MemberReply::Found(Some(answer)),
            MemberSearch::Answer(_) => false,
        },
{
}

/// What is learnt of one group changes nothing that is known of another, but
/// for the moment when all is forgotten.
pub proof fn law_groups_are_remembered_apart(
    members: Map<u32, u32>,
    group: u32,
    found: Option<u32>,
    other: u32,
)
    requires
        other != group,
        members.len() <= MAX_REMEMBERED_GROUPS,
    ensures
        remembered(
            cache_after(members, MemberSearch::AskMembers { group }, MemberReply::Found(found)),
            other,
        ) == remembered(members, other),
        remembered(
            cache_after(members, MemberSearch::AskMembers { group }, MemberReply::Found(found)),
            group,
        ) == found,
{
}

/// A live leader answers for its group; for a dead one the remembered member
/// is asked, and without one that is still there the group is enumerated.
pub proof fn law_who_is_asked_for_a_group(group: u32, member: u32, found: Option<u32>)
    ensures
        next_member_question(
            MemberSearch::AskLeader { group },
            MemberReply::Holds(true),
            found,
        ) == MemberSearch::Answer(Some(group)),
        next_member_question(
            MemberSearch::AskLeader { group },
            MemberReply::Holds(false),
            Some(member),
        ) == (MemberSearch::AskStillMember { group, member }),
        next_member_question(MemberSearch::AskLeader { group }, MemberReply::Holds(false), None)
            == (MemberSearch::AskMembers { group }),
        next_member_question(
            MemberSearch::AskStillMember { group, member },
            MemberReply::Holds(true),
            None,
        ) == MemberSearch::Answer(Some(member)),
        next_member_question(
            MemberSearch::AskStillMember { group, member },
            MemberReply::Holds(false),
            None,
        ) == (MemberSearch::AskMembers { group }),
        next_member_question(
            MemberSearch::AskMembers { group },
            MemberReply::Found(found),
            None,
        ) == MemberSearch::Answer(found),
{
}

/// A member that left its group is forgotten, one that is still there is not,
/// and asking the leader changes nothing.
pub proof fn law_what_is_forgotten_of_a_group(
    members: Map<u32, u32>,
    group: u32,
    member: u32,
    other: u32,
    reply: MemberReply,
)
    requires
        other != group,
    ensures
        ({
            let still = MemberSearch::AskStillMember { group, member };
            &&& remembered(cache_after(members, still, MemberReply::Holds(false)), group) is None
            &&& remembered(cache_after(members, still, MemberReply::Holds(false)), other)
                == remembered(members, other)
            &&& cache_after(members, still, MemberReply::Holds(true)) == members
            &&& cache_after(members, MemberSearch::AskLeader { group }, reply) == members
        }),
{
}

/// Sixty-four groups are remembered and one more; an enumeration beyond that
/// forgets all others, and what it found is remembered either way.
pub proof fn law_how_many_groups_are_remembered(
    members: Map<u32, u32>,
    group: u32,
    found: Option<u32>,
    other: u32,
)
    requires
        other != group,
    ensures
        ({
            let after = cache_after(
                members,
                MemberSearch::AskMembers { group },
                MemberReply::Found(found),
            );
            &&& members.len() <= 64 ==> remembered(after, other) == remembered(members, other)
            &&& members.len() > 64 ==> remembered(after, other) is None
            &&& remembered(after, group) == found
        }),
{
}

} // verus!
