//! Applied-send memory for `pane.send_input`.
//!
//! A client whose socket died before the ack re-issues the same request with
//! the same id. Remembering recently applied ids makes that safe: a seen id
//! is acknowledged without writing to the pane again, so at-least-once
//! delivery becomes exactly-once within the memory window.

use crate::text::same_text;
use vstd::prelude::*;

verus! {

/// How many applied ids are remembered before the oldest is forgotten.
pub const APPLIED_SEND_ID_CAPACITY: usize = 256;

/// The remembered ids, oldest first.
#[derive(Debug)]
pub struct AppliedSendIds {
    order: Vec<String>,
}

impl View for AppliedSendIds {
    type V = Seq<Seq<char>>;

    closed spec fn view(&self) -> Seq<Seq<char>> {
        Seq::new(self.order@.len(), |i: int| self.order@[i]@)
    }
}

/// The memory after an id was applied: a known id changes nothing, a new one
/// goes last, and past the capacity the oldest is forgotten.
pub open spec fn after_record(ids: Seq<Seq<char>>, id: Seq<char>) -> Seq<Seq<char>> {
    if ids.contains(id) {
        ids
    } else if ids.len() >= APPLIED_SEND_ID_CAPACITY {
        ids.push(id).skip(1)
    } else {
        ids.push(id)
    }
}

/// Whether a memory is within its bound and holds no id twice.
pub open spec fn is_memory(ids: Seq<Seq<char>>) -> bool {
    ids.len() <= APPLIED_SEND_ID_CAPACITY && ids.no_duplicates()
}

impl Default for AppliedSendIds {
    fn default() -> (ids: AppliedSendIds)
        ensures
            ids@ == Seq::<Seq<char>>::empty(),
            is_memory(ids@),
    {
        let ids = AppliedSendIds { order: Vec::new() };
        assert(ids@ =~= Seq::<Seq<char>>::empty());
        ids
    }
}

impl AppliedSendIds {
    /// Every memory is within its bound and holds no id twice.
    #[verifier::type_invariant]
    spec fn keeps(self) -> bool {
        is_memory(self@)
    }

    /// Whether an id was applied and is still remembered.
    pub fn contains(&self, send_id: &str) -> (yes: bool)
        ensures
            yes == self@.contains(send_id@),
    {
        let mut i: usize = 0;
        while i < self.order.len()
            invariant
                i <= self.order@.len(),
                forall|j: int| 0 <= j < i ==> #[trigger] self@[j] != send_id@,
            decreases self.order@.len() - i,
        {
            assert(self@[i as int] == self.order@[i as int]@);
            if same_text(&self.order[i], send_id) {
                return true;
            }
            i += 1;
        }
        false
    }

    /// Remember an id that was just applied.
    pub fn record(&mut self, send_id: String)
        ensures
            is_memory(old(self)@),
            final(self)@ == after_record(old(self)@, send_id@),
            is_memory(final(self)@),
    {
        let ghost before = self@;
        proof {
            use_type_invariant(&*self);
            law_memory_stays_bounded_without_duplicates(before, send_id@);
        }
        if self.contains(&send_id) {
            return ;
        }
        let mut order: Vec<String> = Vec::new();
        std::mem::swap(&mut order, &mut self.order);
        if order.len() >= APPLIED_SEND_ID_CAPACITY {
            order.remove(0);
        }
        order.push(send_id);
        assert(AppliedSendIds { order }@ =~= after_record(before, send_id@));
        self.order = order;
    }
}

/// The memory never outgrows its bound and never holds an id twice.
pub proof fn law_memory_stays_bounded_without_duplicates(ids: Seq<Seq<char>>, id: Seq<char>)
    requires
        is_memory(ids),
    ensures
        is_memory(after_record(ids, id)),
{
    let after = after_record(ids, id);
    if !ids.contains(id) {
        let grown = ids.push(id);
        assert forall|i: int, j: int| 0 <= i < grown.len() && 0 <= j < grown.len() && i
            != j implies grown[i] != grown[j] by {
            if i < ids.len() && j < ids.len() {
                assert(grown[i] == ids[i] && grown[j] == ids[j]);
            } else if i < ids.len() {
                assert(ids.contains(ids[i]));
            } else {
                assert(ids.contains(ids[j]));
            }
        }
        assert forall|i: int, j: int| 0 <= i < after.len() && 0 <= j < after.len() && i
            != j implies after[i] != after[j] by {
            if ids.len() >= APPLIED_SEND_ID_CAPACITY {
                assert(after[i] == grown[i + 1] && after[j] == grown[j + 1]);
            }
        }
    }
}

/// An id that was just applied is remembered, and so is every other one that
/// was, but for the oldest where the memory was full.
pub proof fn law_only_the_oldest_is_forgotten(ids: Seq<Seq<char>>, id: Seq<char>, other: Seq<char>)
    requires
        is_memory(ids),
        ids.contains(other),
    ensures
        after_record(ids, id).contains(id),
        ids.contains(id) || ids.len() < APPLIED_SEND_ID_CAPACITY || other != ids[0]
            ==> after_record(ids, id).contains(other),
        !ids.contains(id) && ids.len() >= APPLIED_SEND_ID_CAPACITY && other == ids[0]
            ==> !after_record(ids, id).contains(other),
{
    let after = after_record(ids, id);
    let k = choose|k: int| 0 <= k < ids.len() && ids[k] == other;
    if !ids.contains(id) {
        let grown = ids.push(id);
        if ids.len() >= APPLIED_SEND_ID_CAPACITY {
            assert(after[after.len() - 1] == id);
            if k > 0 {
                assert(after[k - 1] == other);
            }
            if other == ids[0] && after.contains(other) {
                let m = choose|m: int| 0 <= m < after.len() && after[m] == other;
                assert(after[m] == grown[m + 1]);
                if m + 1 < ids.len() {
                    assert(ids[m + 1] == ids[0]);
                } else {
                    assert(ids.contains(id));
                }
            }
        } else {
            assert(after[ids.len() as int] == id);
            assert(after[k] == other);
        }
    }
}

/// Recording an id again right away changes nothing, so a re-issued send
/// consumes no capacity.
pub proof fn law_recording_twice_is_recording_once(ids: Seq<Seq<char>>, id: Seq<char>)
    ensures
        after_record(after_record(ids, id), id) == after_record(ids, id),
{
    let after = after_record(ids, id);
    if !ids.contains(id) {
        if ids.len() >= APPLIED_SEND_ID_CAPACITY {
            assert(after[after.len() - 1] == id);
        } else {
            assert(after[ids.len() as int] == id);
        }
    }
}

/// A memory of two hundred and fifty-six ids is full: up to there a new one
/// only adds itself, and from there the oldest goes for it.
pub proof fn law_how_many_ids_are_remembered(ids: Seq<Seq<char>>, id: Seq<char>)
    requires
        !ids.contains(id),
    ensures
        ids.len() < 256 ==> after_record(ids, id).len() == ids.len() + 1,
        ids.len() < 256 ==> after_record(ids, id).take(ids.len() as int) == ids,
        ids.len() == 256 ==> after_record(ids, id).len() == 256,
        ids.len() == 256 ==> after_record(ids, id).take(255) == ids.skip(1),
        after_record(ids, id).len() > 0,
        after_record(ids, id).last() == id,
{
    let after = after_record(ids, id);
    if ids.len() < 256 {
        assert(after.take(ids.len() as int) =~= ids);
    }
    if ids.len() == 256 {
        assert(after.take(255) =~= ids.skip(1));
    }
}

} // verus!
