//! What holds of a memory over any number of calls.
use crate::laws::{
    can_commit, commit_agrees, committed, law_allocate, law_allocation_is_listed,
    law_closed_file_reopens, law_commit, law_commit_replays, law_commit_steps, law_commit_switches,
    law_dirty_flag_is_read_back, law_free, law_free_is_listed, law_new_file, law_page_is_read_back,
    law_pages_are_apart, law_rollback, law_rollback_empties_lists, law_rollback_of_nothing,
    law_root_is_read_back, law_settled, lemma_contains_push, page_clear, page_contents,
    primary_allocator_state, primary_contents, rollback_restores, root_of, same_frame, same_pages,
    secondary_contents, settled, sound, states_hold_all,
};
use crate::layout::{lemma_usable_pages_in_file, pages_fit, DB_METAPAGE_SIZE};
use crate::mapping::is_machine_page_size;
use crate::memory::{opens_with, Opening};
use crate::metapage::{
    primary_slot, secondary_slot, slot_dirty_byte, slot_root, PageNumber, DB_METADATA_PAGE,
    PRIMARY_BIT_OFFSET,
};
use crate::opening::{formatted, Error};
use crate::page_allocator::{
    is_allocated, is_first_free, lemma_with_page, lemma_without_page, state_size,
};
use crate::state::{
    allocator_end, allocator_in_file, allocator_reachable, allocator_start, allocator_state,
    cleaned, commit_step, is_fresh, page_allocated, page_freed, page_start, page_written,
    replayable, rolled_back, root_set, with_magic_number, with_secondary_dirty, CommitStep,
    MemoryState,
};
use vstd::prelude::*;

verus! {

/// A call that can change a memory, with what it was given and what came of it.
pub enum Call {
    /// `set_secondary_root_page`.
    SetRoot(PageNumber),
    /// `allocate`, until the page was dropped or let go of: `page` was handed out,
    /// `contents` was left in it, and `open_pages` are open afterwards.
    Allocate { page: PageNumber, contents: Seq<u8>, open_pages: Set<u64> },
    /// `page_mut`, likewise.
    Write { page: PageNumber, contents: Seq<u8>, open_pages: Set<u64> },
    /// `free`.
    Free(PageNumber),
    /// `rollback_uncommited_writes`.
    Rollback,
    /// `commit`, after a flush that worked if `flushed` says so.
    Commit { step: CommitStep, flushed: bool },
}

/// `state` after a call.
pub open spec fn after_call(state: MemoryState, call: Call) -> MemoryState {
    match call {
        Call::SetRoot(root_page) => root_set(state, root_page),
        Call::Allocate { page, contents, open_pages } => page_written(
            page_allocated(state, page),
            page,
            contents,
            open_pages,
        ),
        Call::Write { page, contents, open_pages } => page_written(
            state,
            page,
            contents,
            open_pages,
        ),
        Call::Free(page) => page_freed(state, page),
        Call::Rollback => rolled_back(state),
        Call::Commit { step, flushed } => commit_step(state, step, flushed).1,
    }
}

/// What a call asks of the memory, and what can come of it: the page that is handed
/// out is the lowest free one, and the page is dropped or left open.
pub open spec fn callable(state: MemoryState, call: Call) -> bool {
    match call {
        Call::SetRoot(root_page) => true,
        Call::Allocate { page, contents, open_pages } => {
            &&& allocator_reachable(state.bytes, state.num_pages)
            &&& is_first_free(
                allocator_state(with_secondary_dirty(state.bytes, true)),
                state.num_pages,
                page.0,
            )
            &&& contents.len() == state.page_size
            &&& open_pages == state.open_pages.insert(page.0) || open_pages
                == state.open_pages.insert(page.0).remove(page.0)
        },
        Call::Write { page, contents, open_pages } => {
            &&& state.open_pages.contains(page.0)
            &&& page.0 < state.num_pages
            &&& contents.len() == state.page_size
            &&& open_pages == state.open_pages || open_pages == state.open_pages.remove(page.0)
        },
        Call::Free(page) => {
            &&& allocator_in_file(state.bytes)
            &&& page.0 / 8 < allocator_end(state.bytes) - allocator_start(state.bytes)
            &&& page.0 < state.num_pages
        },
        Call::Rollback => state.open_pages.is_empty() && replayable(state),
        Call::Commit { step, flushed } => {
            &&& step == CommitStep::FlushPages || step == CommitStep::FlushSwitch
            &&& step == CommitStep::FlushPages ==> state.open_pages.is_empty()
            &&& step == CommitStep::FlushPages && flushed
                ==> state.bytes[PRIMARY_BIT_OFFSET as int] <= 1
            &&& step == CommitStep::FlushSwitch && flushed ==> replayable(state)
        },
    }
}

/// The page that a call writes, if it writes one.
pub open spec fn written_page(call: Call) -> Option<PageNumber> {
    match call {
        Call::Allocate { page, contents, open_pages } => Some(page),
        Call::Write { page, contents, open_pages } => Some(page),
        _ => None,
    }
}

/// What a call leaves in the page that it writes.
pub open spec fn written_contents(call: Call) -> Seq<u8> {
    match call {
        Call::Allocate { page, contents, open_pages } => contents,
        Call::Write { page, contents, open_pages } => contents,
        _ => Seq::empty(),
    }
}

/// A call does not write the metapage as a page.
pub open spec fn spares_metapage(call: Call) -> bool {
    written_page(call) != Some(PageNumber(DB_METADATA_PAGE))
}

/// A call switches the slots.
pub open spec fn switches(call: Call) -> bool {
    call == (Call::Commit { step: CommitStep::FlushPages, flushed: true })
}

/// A call is a step of a commit after a flush that worked.
pub open spec fn commits(call: Call) -> bool {
    call is Commit && call->flushed
}

/// A page that a call writes overlaps no allocator state.
pub open spec fn writes_clear(state: MemoryState, call: Call) -> bool {
    written_page(call) is Some ==> page_clear(state, written_page(call)->Some_0)
}

/// `state` after calls.
pub open spec fn run(state: MemoryState, calls: Seq<Call>) -> MemoryState
    decreases calls.len(),
{
    if calls.len() == 0 {
        state
    } else {
        after_call(run(state, calls.drop_last()), calls.last())
    }
}

/// The calls can be made one after the other.
pub open spec fn all_callable(state: MemoryState, calls: Seq<Call>) -> bool
    decreases calls.len(),
{
    calls.len() == 0 || (all_callable(state, calls.drop_last()) && callable(
        run(state, calls.drop_last()),
        calls.last(),
    ))
}

/// The calls can be made one after the other, and none writes the metapage as a
/// page.
pub open spec fn permitted(state: MemoryState, calls: Seq<Call>) -> bool {
    &&& all_callable(state, calls)
    &&& forall|i: int| 0 <= i < calls.len() ==> spares_metapage(#[trigger] calls[i])
}

/// What one call does to a sound memory.
proof fn lemma_call(state: MemoryState, call: Call)
    requires
        sound(state),
        callable(state, call),
        spares_metapage(call),
    ensures
        ({
            let after = after_call(state, call);
            &&& sound(after)
            &&& same_frame(after, state)
            &&& !switches(call) ==> after.bytes[PRIMARY_BIT_OFFSET as int]
                == state.bytes[PRIMARY_BIT_OFFSET as int]
            &&& !switches(call) ==> primary_contents(after.bytes) == primary_contents(state.bytes)
            &&& !switches(call) && !(call is SetRoot) ==> secondary_contents(after.bytes).root
                == secondary_contents(state.bytes).root
            &&& written_page(call) is Some ==> 1 <= written_page(call)->Some_0.0 < state.num_pages
            &&& written_page(call) is Some ==> page_contents(after, written_page(call)->Some_0)
                == written_contents(call)
            &&& forall|page: PageNumber|
                1 <= page.0 < state.num_pages && page_clear(state, page) && written_page(call)
                    != Some(page) ==> #[trigger] page_contents(after, page) == page_contents(
                    state,
                    page,
                )
        }),
{
    match call {
        Call::SetRoot(root_page) => {
            law_root_is_read_back(state, root_page);
        },
        Call::Allocate { page, contents, open_pages } => {
            law_allocate(state, page, contents, open_pages);
        },
        Call::Write { page, contents, open_pages } => {
            law_page_is_read_back(state, page, contents, open_pages);
        },
        Call::Free(page) => {
            law_free(state, page);
        },
        Call::Rollback => {
            law_rollback(state);
        },
        Call::Commit { step, flushed } => {
            if flushed && step == CommitStep::FlushPages {
                law_commit_switches(state);
            } else if flushed {
                law_commit_replays(state);
            }
        },
    }
}

/// A memory that is sound stays sound, and its frame stays, whatever is called.
pub proof fn law_calls_keep_sound(state: MemoryState, calls: Seq<Call>)
    requires
        sound(state),
        permitted(state, calls),
    ensures
        sound(run(state, calls)),
        same_frame(run(state, calls), state),
    decreases calls.len(),
{
    if calls.len() > 0 {
        lemma_permitted_before(state, calls);
        law_calls_keep_sound(state, calls.drop_last());
        lemma_call(run(state, calls.drop_last()), calls.last());
    }
}

/// Permitted calls are so without the last, and the last spares the metapage.
proof fn lemma_permitted_before(state: MemoryState, calls: Seq<Call>)
    requires
        permitted(state, calls),
        calls.len() > 0,
    ensures
        permitted(state, calls.drop_last()),
        callable(run(state, calls.drop_last()), calls.last()),
        spares_metapage(calls.last()),
{
    assert(calls.last() == calls[calls.len() - 1]);
    assert forall|i: int| 0 <= i < calls.drop_last().len() implies spares_metapage(
        #[trigger] calls.drop_last()[i],
    ) by {
        assert(calls.drop_last()[i] == calls[i]);
    }
}

/// Permitted calls are so up to any of them.
proof fn lemma_permitted_up_to(state: MemoryState, calls: Seq<Call>, i: int)
    requires
        permitted(state, calls),
        0 <= i <= calls.len(),
    ensures
        permitted(state, calls.take(i)),
    decreases calls.len(),
{
    if i == calls.len() {
        assert(calls.take(i) =~= calls);
    } else {
        lemma_permitted_before(state, calls);
        lemma_permitted_up_to(state, calls.drop_last(), i);
        assert(calls.drop_last().take(i) =~= calls.take(i));
    }
}

/// At every moment, so at every flush and when a call returns, the primary bit names
/// a slot, and the slot is clean.
pub proof fn law_primary_is_never_dirty(state: MemoryState, calls: Seq<Call>, i: int)
    requires
        sound(state),
        permitted(state, calls),
        0 <= i <= calls.len(),
    ensures
        ({
            let bytes = run(state, calls.take(i)).bytes;
            &&& bytes[PRIMARY_BIT_OFFSET as int] == 0 || bytes[PRIMARY_BIT_OFFSET as int] == 1
            &&& slot_dirty_byte(primary_slot(bytes)) == 0
        }),
{
    lemma_permitted_up_to(state, calls, i);
    law_calls_keep_sound(state, calls.take(i));
}

/// Without a commit the primary slot stays the primary slot, and what it says never
/// changes: neither its root page, nor where its allocator state is.
pub proof fn law_primary_is_kept(state: MemoryState, calls: Seq<Call>)
    requires
        sound(state),
        permitted(state, calls),
        forall|i: int| 0 <= i < calls.len() ==> !switches(#[trigger] calls[i]),
    ensures
        run(state, calls).bytes[PRIMARY_BIT_OFFSET as int]
            == state.bytes[PRIMARY_BIT_OFFSET as int],
        primary_contents(run(state, calls).bytes) == primary_contents(state.bytes),
        slot_root(primary_slot(run(state, calls).bytes)) == slot_root(primary_slot(state.bytes)),
    decreases calls.len(),
{
    if calls.len() > 0 {
        lemma_permitted_before(state, calls);
        assert(!switches(calls[calls.len() - 1]));
        assert forall|i: int| 0 <= i < calls.drop_last().len() implies !switches(
            #[trigger] calls.drop_last()[i],
        ) by {
            assert(calls.drop_last()[i] == calls[i]);
        }
        law_primary_is_kept(state, calls.drop_last());
        law_calls_keep_sound(state, calls.drop_last());
        lemma_call(run(state, calls.drop_last()), calls.last());
    }
}

/// The root page of the secondary slot changes only when it is set or the slots are
/// switched.
proof fn lemma_secondary_root_is_kept(state: MemoryState, calls: Seq<Call>)
    requires
        sound(state),
        permitted(state, calls),
        forall|i: int|
            0 <= i < calls.len() ==> !switches(#[trigger] calls[i]) && !(calls[i] is SetRoot),
    ensures
        secondary_contents(run(state, calls).bytes).root == secondary_contents(state.bytes).root,
    decreases calls.len(),
{
    if calls.len() > 0 {
        lemma_permitted_before(state, calls);
        assert(!switches(calls[calls.len() - 1]));
        assert forall|i: int| 0 <= i < calls.drop_last().len() implies !switches(
            #[trigger] calls.drop_last()[i],
        ) && !(calls.drop_last()[i] is SetRoot) by {
            assert(calls.drop_last()[i] == calls[i]);
        }
        lemma_secondary_root_is_kept(state, calls.drop_last());
        law_calls_keep_sound(state, calls.drop_last());
        lemma_call(run(state, calls.drop_last()), calls.last());
    }
}

/// A commit of a sound memory leaves it sound.
proof fn lemma_commit_keeps_sound(state: MemoryState)
    requires
        sound(state),
        can_commit(state),
    ensures
        sound(committed(state)),
        same_frame(committed(state), state),
{
    law_commit(state);
}

/// The root page that was set last before a commit is the primary root page after it,
/// through all later calls up to the next commit. Zero stands for none.
pub proof fn law_last_root_is_committed(
    state: MemoryState,
    root_page: PageNumber,
    before: Seq<Call>,
    later: Seq<Call>,
)
    requires
        sound(state),
        permitted(root_set(state, root_page), before),
        forall|i: int|
            0 <= i < before.len() ==> !switches(#[trigger] before[i]) && !(before[i] is SetRoot),
        can_commit(run(root_set(state, root_page), before)),
        permitted(committed(run(root_set(state, root_page), before)), later),
        forall|i: int| 0 <= i < later.len() ==> !switches(#[trigger] later[i]),
    ensures
        slot_root(
            primary_slot(
                run(committed(run(root_set(state, root_page), before)), later).bytes,
            ),
        ) == root_of(root_page),
{
    let set = root_set(state, root_page);
    law_root_is_read_back(state, root_page);
    assert(sound(set));
    law_calls_keep_sound(set, before);
    lemma_secondary_root_is_kept(set, before);
    let transaction = run(set, before);
    law_commit(transaction);
    lemma_commit_keeps_sound(transaction);
    law_primary_is_kept(committed(transaction), later);
}

/// Two commits with nothing in between give back the primary bit and the primary
/// root page.
pub proof fn law_two_commits_cancel(state: MemoryState)
    requires
        sound(state),
        can_commit(state),
        can_commit(committed(state)),
    ensures
        ({
            let after = committed(committed(state));
            &&& after.bytes[PRIMARY_BIT_OFFSET as int] == state.bytes[PRIMARY_BIT_OFFSET as int]
            &&& primary_contents(after.bytes) == primary_contents(state.bytes)
            &&& slot_root(primary_slot(after.bytes)) == slot_root(primary_slot(state.bytes))
            &&& slot_root(secondary_slot(after.bytes)) == slot_root(secondary_slot(state.bytes))
        }),
{
    law_commit(state);
    law_commit(committed(state));
}

/// A second commit can always be made.
pub proof fn law_commit_can_follow_a_commit(state: MemoryState)
    requires
        sound(state),
        can_commit(state),
    ensures
        can_commit(committed(state)),
{
    law_commit(state);
    law_commit_switches(committed(state));
}

/// What a page holds stays through all calls that do not write it, if it overlaps no
/// allocator state: through commits and rollbacks, through freeing the page, and
/// through the allocation of other pages.
pub proof fn law_page_is_kept(state: MemoryState, page: PageNumber, calls: Seq<Call>)
    requires
        sound(state),
        permitted(state, calls),
        1 <= page.0 < state.num_pages,
        page_clear(state, page),
        forall|i: int| 0 <= i < calls.len() ==> written_page(#[trigger] calls[i]) != Some(page),
    ensures
        page_contents(run(state, calls), page) == page_contents(state, page),
    decreases calls.len(),
{
    if calls.len() > 0 {
        lemma_permitted_before(state, calls);
        assert(written_page(calls[calls.len() - 1]) != Some(page));
        assert forall|i: int| 0 <= i < calls.drop_last().len() implies written_page(
            #[trigger] calls.drop_last()[i],
        ) != Some(page) by {
            assert(calls.drop_last()[i] == calls[i]);
        }
        law_page_is_kept(state, page, calls.drop_last());
        law_calls_keep_sound(state, calls.drop_last());
        let middle = run(state, calls.drop_last());
        assert(page_clear(middle, page));
        lemma_call(middle, calls.last());
    }
}

/// What was left in a page is read back from it after all later calls, until the
/// page is written again.
pub proof fn law_written_page_is_read_back(
    state: MemoryState,
    call: Call,
    page: PageNumber,
    later: Seq<Call>,
)
    requires
        sound(state),
        callable(state, call),
        written_page(call) == Some(page),
        page.0 != DB_METADATA_PAGE,
        page_clear(state, page),
        permitted(after_call(state, call), later),
        forall|i: int| 0 <= i < later.len() ==> written_page(#[trigger] later[i]) != Some(page),
    ensures
        page_contents(run(after_call(state, call), later), page) == written_contents(call),
{
    lemma_call(state, call);
    assert(page_clear(after_call(state, call), page));
    law_page_is_kept(after_call(state, call), page, later);
}

/// What was committed survives closing the memory and opening the file again,
/// whatever was called: the file opens, its bytes stay as they were closed, and the
/// primary root page, the pages and both allocator states are those of the memory
/// that was closed. A root page that was set and not committed does not show: the
/// root page is that of the primary slot.
pub proof fn law_commit_survives_reopening(
    state: MemoryState,
    calls: Seq<Call>,
    page_size: usize,
    opened: Result<Opening, Error>,
)
    requires
        sound(state),
        permitted(state, calls),
        page_size == state.page_size,
        opens_with(opened, cleaned(run(state, calls)).bytes, page_size),
    ensures
        opened is Ok,
        opened->Ok_0 is Ready,
        ({
            let closed = run(state, calls);
            let reopened = opened->Ok_0->Ready_0@;
            &&& reopened.bytes == cleaned(closed).bytes
            &&& sound(reopened)
            &&& same_frame(reopened, state)
            &&& slot_root(primary_slot(reopened.bytes)) == slot_root(primary_slot(closed.bytes))
            &&& primary_contents(reopened.bytes) == primary_contents(closed.bytes)
            &&& primary_allocator_state(reopened.bytes) == primary_allocator_state(closed.bytes)
            &&& allocator_state(reopened.bytes) == allocator_state(closed.bytes)
            &&& forall|page: PageNumber|
                1 <= page.0 < state.num_pages ==> #[trigger] page_contents(reopened, page)
                    == page_contents(closed, page)
            &&& settled(closed) ==> settled(reopened)
        }),
{
    law_calls_keep_sound(state, calls);
    law_closed_file_reopens(run(state, calls), page_size, opened);
}

/// A rollback right after a rollback can be made and changes nothing.
pub proof fn law_second_rollback_changes_nothing(state: MemoryState)
    requires
        sound(state),
        callable(state, Call::Rollback),
    ensures
        callable(rolled_back(state), Call::Rollback),
        rolled_back(rolled_back(state)) == rolled_back(state),
{
    law_rollback(state);
    law_rollback_of_nothing(rolled_back(state));
}

/// A rollback right after a commit can be made and changes nothing.
pub proof fn law_rollback_after_commit_changes_nothing(state: MemoryState)
    requires
        sound(state),
        can_commit(state),
    ensures
        callable(committed(state), Call::Rollback),
        rolled_back(committed(state)) == committed(state),
{
    law_commit(state);
    law_rollback_of_nothing(committed(state));
}

/// Where the allocator states hold all pages and no page is open, a commit can always
/// be made, and so can a rollback.
pub proof fn law_transaction_can_end(state: MemoryState)
    requires
        sound(state),
        states_hold_all(state),
        state.open_pages.is_empty(),
    ensures
        can_commit(state),
        callable(state, Call::Rollback),
{
    law_commit_switches(state);
    let middle = commit_step(state, CommitStep::FlushPages, true).1;
    assert forall|i: int| 0 <= i < state.allocated_since_commit.len() implies (
    #[trigger] state.allocated_since_commit[i]).0 / 8 < state_size(state.num_pages) by {
        assert(state.allocated_since_commit[i].0 < state.num_pages);
    }
    assert forall|i: int| 0 <= i < state.freed_since_commit.len() implies (
    #[trigger] state.freed_since_commit[i]).0 / 8 < state_size(state.num_pages) by {
        assert(state.freed_since_commit[i].0 < state.num_pages);
    }
}

/// The calls of one transaction: no commit goes on and no rollback is made, and no
/// page is written that overlaps an allocator state.
pub open spec fn one_transaction(state: MemoryState, calls: Seq<Call>) -> bool {
    forall|i: int|
        0 <= i < calls.len() ==> !commits(#[trigger] calls[i]) && !(calls[i] is Rollback)
            && writes_clear(state, calls[i])
}

/// The calls of one transaction are so without the last.
proof fn lemma_one_transaction_before(state: MemoryState, calls: Seq<Call>)
    requires
        one_transaction(state, calls),
        calls.len() > 0,
    ensures
        one_transaction(state, calls.drop_last()),
        !commits(calls.last()),
        !(calls.last() is Rollback),
        writes_clear(state, calls.last()),
{
    assert(calls.last() == calls[calls.len() - 1]);
    assert forall|i: int| 0 <= i < calls.drop_last().len() implies !commits(
        #[trigger] calls.drop_last()[i],
    ) && !(calls.drop_last()[i] is Rollback) && writes_clear(state, calls.drop_last()[i]) by {
        assert(calls.drop_last()[i] == calls[i]);
    }
}

/// No page is allocated that was freed since the last commit.
pub open spec fn frees_for_good(state: MemoryState, calls: Seq<Call>) -> bool
    decreases calls.len(),
{
    calls.len() == 0 || (frees_for_good(state, calls.drop_last()) && (calls.last() is Allocate
        ==> !run(state, calls.drop_last()).freed_since_commit.contains(
        written_page(calls.last())->Some_0,
    )))
}

/// Every page that is freed was allocated in `allocator_bytes`.
pub open spec fn frees_only(calls: Seq<Call>, allocator_bytes: Seq<u8>) -> bool {
    forall|i: int|
        0 <= i < calls.len() && (#[trigger] calls[i]) is Free ==> is_allocated(
            allocator_bytes,
            calls[i]->Free_0.0,
        )
}

/// Through the calls of one transaction the primary slot records the same pages, and
/// a commit still agrees or a rollback still restores.
proof fn lemma_transaction(state: MemoryState, calls: Seq<Call>)
    requires
        sound(state),
        states_hold_all(state),
        permitted(state, calls),
        one_transaction(state, calls),
    ensures
        primary_allocator_state(run(state, calls).bytes) == primary_allocator_state(state.bytes),
        commit_agrees(state) && frees_for_good(state, calls) ==> commit_agrees(run(state, calls)),
        rollback_restores(state) && frees_only(calls, primary_allocator_state(state.bytes))
            ==> rollback_restores(run(state, calls)),
    decreases calls.len(),
{
    if calls.len() > 0 {
        let rest = calls.drop_last();
        let middle = run(state, rest);
        lemma_permitted_before(state, calls);
        lemma_one_transaction_before(state, calls);
        lemma_transaction(state, rest);
        law_calls_keep_sound(state, rest);
        if frees_only(calls, primary_allocator_state(state.bytes)) {
            assert forall|i: int| 0 <= i < rest.len() && (#[trigger] rest[i]) is Free implies
                is_allocated(primary_allocator_state(state.bytes), rest[i]->Free_0.0) by {
                assert(rest[i] == calls[i]);
            }
            assert(calls.last() == calls[calls.len() - 1]);
        }
        lemma_transaction_call(middle, calls.last());
    }
}

/// One call of a transaction keeps what the primary slot records, and what a commit
/// agrees on and a rollback restores.
proof fn lemma_transaction_call(state: MemoryState, call: Call)
    requires
        sound(state),
        states_hold_all(state),
        callable(state, call),
        spares_metapage(call),
        !commits(call),
        !(call is Rollback),
        writes_clear(state, call),
    ensures
        ({
            let after = after_call(state, call);
            &&& primary_allocator_state(after.bytes) == primary_allocator_state(state.bytes)
            &&& commit_agrees(state) && (call is Allocate ==> !state.freed_since_commit.contains(
                written_page(call)->Some_0,
            )) ==> commit_agrees(after)
            &&& rollback_restores(state) && (call is Free ==> is_allocated(
                primary_allocator_state(state.bytes),
                call->Free_0.0,
            )) ==> rollback_restores(after)
        }),
{
    match call {
        Call::SetRoot(root_page) => {
            law_root_is_read_back(state, root_page);
        },
        Call::Allocate { page, contents, open_pages } => {
            law_allocate(state, page, contents, open_pages);
        },
        Call::Write { page, contents, open_pages } => {
            law_page_is_read_back(state, page, contents, open_pages);
        },
        Call::Free(page) => {
            law_free(state, page);
        },
        _ => {},
    }
}

/// After a commit both slots record the same pages: those that were recorded when the
/// commit began, which are those of the last commit, and those allocated since, but
/// for those freed since. Nothing is left to be committed. This holds of every
/// transaction that starts settled and allocates no page that it freed before.
pub proof fn law_commit_brings_states_together(state: MemoryState, calls: Seq<Call>)
    requires
        sound(state),
        states_hold_all(state),
        settled(state),
        permitted(state, calls),
        one_transaction(state, calls),
        frees_for_good(state, calls),
        run(state, calls).open_pages.is_empty(),
    ensures
        ({
            let transaction = run(state, calls);
            let after = committed(transaction);
            &&& can_commit(transaction)
            &&& settled(after)
            &&& forall|page: u64|
                page < state.num_pages ==> (#[trigger] is_allocated(
                    primary_allocator_state(after.bytes),
                    page,
                ) <==> is_allocated(allocator_state(transaction.bytes), page))
            &&& forall|page: u64|
                page < state.num_pages ==> (#[trigger] is_allocated(
                    allocator_state(after.bytes),
                    page,
                ) <==> is_allocated(allocator_state(transaction.bytes), page))
            &&& forall|page: u64|
                page < state.num_pages ==> (#[trigger] is_allocated(
                    allocator_state(transaction.bytes),
                    page,
                ) <==> !transaction.freed_since_commit.contains(PageNumber(page)) && (
                transaction.allocated_since_commit.contains(PageNumber(page)) || is_allocated(
                    allocator_state(state.bytes),
                    page,
                )))
        }),
{
    let transaction = run(state, calls);
    law_settled(state);
    lemma_transaction(state, calls);
    law_calls_keep_sound(state, calls);
    law_transaction_can_end(transaction);
    law_commit(transaction);
    let after = committed(transaction);
    assert forall|page: u64| page < state.num_pages implies (#[trigger] is_allocated(
        allocator_state(after.bytes),
        page,
    ) <==> is_allocated(allocator_state(transaction.bytes), page)) by {
        assert(is_allocated(allocator_state(after.bytes), page) == is_allocated(
            primary_allocator_state(after.bytes),
            page,
        ));
    }
    assert forall|page: u64| page < state.num_pages implies (#[trigger] is_allocated(
        allocator_state(transaction.bytes),
        page,
    ) <==> !transaction.freed_since_commit.contains(PageNumber(page)) && (
    transaction.allocated_since_commit.contains(PageNumber(page)) || is_allocated(
        allocator_state(state.bytes),
        page,
    ))) by {
        assert(is_allocated(allocator_state(state.bytes), page) == is_allocated(
            primary_allocator_state(state.bytes),
            page,
        ));
    }
}

/// A rollback gives back exactly what was allocated when the transaction started, in
/// both slots, and leaves nothing to be committed. This holds of every transaction
/// that starts settled and frees only pages that were allocated at its start.
pub proof fn law_rollback_gives_back(state: MemoryState, calls: Seq<Call>)
    requires
        sound(state),
        states_hold_all(state),
        settled(state),
        permitted(state, calls),
        one_transaction(state, calls),
        frees_only(calls, allocator_state(state.bytes)),
        run(state, calls).open_pages.is_empty(),
    ensures
        ({
            let transaction = run(state, calls);
            let after = rolled_back(transaction);
            &&& callable(transaction, Call::Rollback)
            &&& settled(after)
            &&& same_pages(
                allocator_state(after.bytes),
                allocator_state(state.bytes),
                state.num_pages,
            )
        }),
{
    let transaction = run(state, calls);
    law_settled(state);
    lemma_frees_only_same_pages(state, calls);
    lemma_transaction(state, calls);
    law_calls_keep_sound(state, calls);
    law_transaction_can_end(transaction);
    law_rollback(transaction);
    let after = rolled_back(transaction);
    assert forall|page: u64| page < state.num_pages implies #[trigger] is_allocated(
        allocator_state(after.bytes),
        page,
    ) == is_allocated(allocator_state(state.bytes), page) by {
        assert(is_allocated(allocator_state(after.bytes), page) == is_allocated(
            primary_allocator_state(after.bytes),
            page,
        ));
        assert(is_allocated(allocator_state(state.bytes), page) == is_allocated(
            primary_allocator_state(state.bytes),
            page,
        ));
    }
}

/// Pages that are freed were allocated in the one slot if they were in the other, of
/// a memory that is settled.
proof fn lemma_frees_only_same_pages(state: MemoryState, calls: Seq<Call>)
    requires
        sound(state),
        settled(state),
        permitted(state, calls),
        frees_only(calls, allocator_state(state.bytes)),
    ensures
        frees_only(calls, primary_allocator_state(state.bytes)),
{
    assert forall|i: int| 0 <= i < calls.len() && (#[trigger] calls[i]) is Free implies
        is_allocated(primary_allocator_state(state.bytes), calls[i]->Free_0.0) by {
        lemma_permitted_up_to(state, calls, i + 1);
        let up_to = calls.take(i + 1);
        lemma_permitted_before(state, up_to);
        law_calls_keep_sound(state, up_to.drop_last());
        assert(up_to.last() == calls[i]);
        assert(is_allocated(allocator_state(state.bytes), calls[i]->Free_0.0) == is_allocated(
            primary_allocator_state(state.bytes),
            calls[i]->Free_0.0,
        ));
    }
}

/// A page that was allocated stays recorded as allocated in the secondary slot while
/// it is not freed, no commit goes on and no rollback is made.
proof fn lemma_page_stays_allocated(state: MemoryState, page: PageNumber, calls: Seq<Call>)
    requires
        sound(state),
        permitted(state, calls),
        one_transaction(state, calls),
        forall|i: int| 0 <= i < calls.len() ==> #[trigger] calls[i] != Call::Free(page),
        page.0 / 8 < allocator_end(state.bytes) - allocator_start(state.bytes),
        is_allocated(allocator_state(state.bytes), page.0),
    ensures
        is_allocated(allocator_state(run(state, calls).bytes), page.0),
        run(state, calls).bytes[PRIMARY_BIT_OFFSET as int]
            == state.bytes[PRIMARY_BIT_OFFSET as int],
    decreases calls.len(),
{
    if calls.len() > 0 {
        let rest = calls.drop_last();
        let middle = run(state, rest);
        let call = calls.last();
        lemma_permitted_before(state, calls);
        lemma_one_transaction_before(state, calls);
        assert forall|i: int| 0 <= i < rest.len() implies #[trigger] rest[i] != Call::Free(
            page,
        ) by {
            assert(rest[i] == calls[i]);
        }
        assert(call == calls[calls.len() - 1]);
        lemma_page_stays_allocated(state, page, rest);
        law_calls_keep_sound(state, rest);
        lemma_call(middle, call);
        assert(writes_clear(middle, call));
        match call {
            Call::SetRoot(root_page) => {
                law_root_is_read_back(middle, root_page);
            },
            Call::Allocate { page: other, contents, open_pages } => {
                law_allocate(middle, other, contents, open_pages);
                lemma_with_page(allocator_state(middle.bytes), other.0, page.0);
            },
            Call::Write { page: other, contents, open_pages } => {
                law_page_is_read_back(middle, other, contents, open_pages);
            },
            Call::Free(other) => {
                law_free(middle, other);
            },
            _ => {},
        }
    }
}

/// A page that is allocated is not handed out again while it is not freed, no commit
/// goes on and no rollback is made: the next page that is allocated is another one,
/// does not overlap it, and leaves its contents alone.
pub proof fn law_allocated_pages_differ(
    state: MemoryState,
    first: Call,
    calls: Seq<Call>,
    second: Call,
)
    requires
        sound(state),
        first is Allocate,
        callable(state, first),
        spares_metapage(first),
        writes_clear(state, first),
        permitted(after_call(state, first), calls),
        one_transaction(after_call(state, first), calls),
        forall|i: int|
            0 <= i < calls.len() ==> #[trigger] calls[i] != Call::Free(
                written_page(first)->Some_0,
            ),
        second is Allocate,
        callable(run(after_call(state, first), calls), second),
        spares_metapage(second),
    ensures
        ({
            let page = written_page(first)->Some_0;
            let other = written_page(second)->Some_0;
            let middle = run(after_call(state, first), calls);
            &&& page != other
            &&& page_start(page, state.page_size) + state.page_size <= page_start(
                other,
                state.page_size,
            ) || page_start(other, state.page_size) + state.page_size <= page_start(
                page,
                state.page_size,
            )
            &&& page_contents(after_call(middle, second), page) == page_contents(middle, page)
        }),
{
    let page = written_page(first)->Some_0;
    let other = written_page(second)->Some_0;
    let started = after_call(state, first);
    let middle = run(started, calls);
    lemma_call(state, first);
    law_allocate(state, page, first->Allocate_contents, first->Allocate_open_pages);
    assert(is_allocated(allocator_state(started.bytes), page.0));
    lemma_page_stays_allocated(started, page, calls);
    law_calls_keep_sound(started, calls);
    lemma_call(middle, second);
    law_allocate(middle, other, second->Allocate_contents, second->Allocate_open_pages);
    assert(page != other);
    law_pages_are_apart(state, page, other);
    assert(page_clear(middle, page));
}

/// A page that is recorded as allocated when a transaction starts, and is not open, is
/// neither handed out nor written before it is freed: it is not opened, and what it
/// holds stays. No commit goes on and no rollback is made.
pub proof fn law_allocated_page_is_left_alone(
    state: MemoryState,
    page: PageNumber,
    calls: Seq<Call>,
)
    requires
        sound(state),
        permitted(state, calls),
        one_transaction(state, calls),
        1 <= page.0 < state.num_pages,
        page_clear(state, page),
        page.0 / 8 < allocator_end(state.bytes) - allocator_start(state.bytes),
        is_allocated(allocator_state(state.bytes), page.0),
        !state.open_pages.contains(page.0),
        forall|i: int| 0 <= i < calls.len() ==> #[trigger] calls[i] != Call::Free(page),
    ensures
        forall|i: int| 0 <= i < calls.len() ==> written_page(#[trigger] calls[i]) != Some(page),
        !run(state, calls).open_pages.contains(page.0),
        page_contents(run(state, calls), page) == page_contents(state, page),
    decreases calls.len(),
{
    if calls.len() > 0 {
        let rest = calls.drop_last();
        let middle = run(state, rest);
        lemma_permitted_before(state, calls);
        lemma_one_transaction_before(state, calls);
        assert forall|i: int| 0 <= i < rest.len() implies #[trigger] rest[i] != Call::Free(
            page,
        ) by {
            assert(rest[i] == calls[i]);
        }
        law_allocated_page_is_left_alone(state, page, rest);
        lemma_page_stays_allocated(state, page, rest);
        law_calls_keep_sound(state, rest);
        law_dirty_flag_is_read_back(middle, true);
        assert(written_page(calls.last()) != Some(page));
        assert forall|i: int| 0 <= i < calls.len() implies written_page(#[trigger] calls[i])
            != Some(page) by {
            if i < rest.len() {
                assert(rest[i] == calls[i]);
            }
        }
        law_page_is_kept(state, page, calls);
    }
}

/// A page is recorded as allocated in both slots, is not open, and was neither
/// allocated nor freed since the last commit.
pub open spec fn page_is_reserved(state: MemoryState, page: PageNumber) -> bool {
    &&& is_allocated(allocator_state(state.bytes), page.0)
    &&& is_allocated(primary_allocator_state(state.bytes), page.0)
    &&& !state.open_pages.contains(page.0)
    &&& !state.allocated_since_commit.contains(page)
    &&& !state.freed_since_commit.contains(page)
}

/// One call keeps a page reserved and does not write it, if it does not free it.
proof fn lemma_call_keeps_reserved(state: MemoryState, page: PageNumber, call: Call)
    requires
        sound(state),
        states_hold_all(state),
        page.0 < state.num_pages,
        page_is_reserved(state, page),
        callable(state, call),
        spares_metapage(call) || page.0 == DB_METADATA_PAGE,
        call != Call::Free(page),
        writes_clear(state, call),
    ensures
        written_page(call) != Some(page),
        page_is_reserved(after_call(state, call), page),
{
    assert(page.0 / 8 < allocator_state(state.bytes).len());
    assert(page.0 / 8 < primary_allocator_state(state.bytes).len());
    match call {
        Call::SetRoot(root_page) => {
            law_root_is_read_back(state, root_page);
        },
        Call::Allocate { page: other, contents, open_pages } => {
            law_dirty_flag_is_read_back(state, true);
            assert(other != page);
            law_allocate(state, other, contents, open_pages);
            lemma_with_page(allocator_state(state.bytes), other.0, page.0);
            lemma_contains_push(state.allocated_since_commit, other, page);
        },
        Call::Write { page: other, contents, open_pages } => {
            assert(other != page);
            law_page_is_read_back(state, other, contents, open_pages);
        },
        Call::Free(other) => {
            law_free(state, other);
            lemma_without_page(allocator_state(state.bytes), other.0, page.0);
            lemma_contains_push(state.freed_since_commit, other, page);
        },
        Call::Rollback => {
            law_rollback(state);
            assert(is_allocated(allocator_state(after_call(state, call).bytes), page.0));
        },
        Call::Commit { step, flushed } => {
            if flushed && step == CommitStep::FlushPages {
                law_commit_switches(state);
            } else if flushed {
                law_commit_replays(state);
                assert(is_allocated(allocator_state(after_call(state, call).bytes), page.0));
            }
        },
    }
}

/// A page that is reserved is neither handed out nor written before it is freed, and
/// what it holds stays: through any number of transactions, whether they are committed
/// or rolled back.
pub proof fn law_reserved_page_is_left_alone(
    state: MemoryState,
    page: PageNumber,
    calls: Seq<Call>,
)
    requires
        sound(state),
        states_hold_all(state),
        1 <= page.0 < state.num_pages,
        page_clear(state, page),
        page_is_reserved(state, page),
        permitted(state, calls),
        forall|i: int|
            0 <= i < calls.len() ==> #[trigger] calls[i] != Call::Free(page) && writes_clear(
                state,
                calls[i],
            ),
    ensures
        forall|i: int| 0 <= i < calls.len() ==> written_page(#[trigger] calls[i]) != Some(page),
        page_is_reserved(run(state, calls), page),
        page_contents(run(state, calls), page) == page_contents(state, page),
    decreases calls.len(),
{
    if calls.len() > 0 {
        let rest = calls.drop_last();
        let middle = run(state, rest);
        lemma_permitted_before(state, calls);
        assert forall|i: int| 0 <= i < rest.len() implies #[trigger] rest[i] != Call::Free(page)
            && writes_clear(state, rest[i]) by {
            assert(rest[i] == calls[i]);
        }
        law_reserved_page_is_left_alone(state, page, rest);
        law_calls_keep_sound(state, rest);
        assert(calls.last() == calls[calls.len() - 1]);
        assert(writes_clear(middle, calls.last()));
        lemma_call_keeps_reserved(middle, page, calls.last());
        assert forall|i: int| 0 <= i < calls.len() implies written_page(#[trigger] calls[i])
            != Some(page) by {
            if i < rest.len() {
                assert(rest[i] == calls[i]);
            }
        }
        law_page_is_kept(state, page, calls);
    }
}

/// Once a transaction was committed no more writes happen to the pages that it
/// allocated: a page that it allocated and did not free is reserved from then on, is
/// neither handed out nor written by any later call before it is freed, and holds what
/// the transaction left in it. This holds of every transaction that starts settled and
/// allocates no page that it freed before.
#[verifier::rlimit(30)]
pub proof fn law_committed_page_is_left_alone(
    state: MemoryState,
    calls: Seq<Call>,
    page: PageNumber,
    later: Seq<Call>,
)
    requires
        sound(state),
        states_hold_all(state),
        settled(state),
        permitted(state, calls),
        one_transaction(state, calls),
        frees_for_good(state, calls),
        run(state, calls).open_pages.is_empty(),
        run(state, calls).allocated_since_commit.contains(page),
        !run(state, calls).freed_since_commit.contains(page),
        page.0 != DB_METADATA_PAGE,
        page_clear(state, page),
        permitted(committed(run(state, calls)), later),
        forall|i: int|
            0 <= i < later.len() ==> #[trigger] later[i] != Call::Free(page) && writes_clear(
                state,
                later[i],
            ),
    ensures
        page_is_reserved(committed(run(state, calls)), page),
        forall|i: int| 0 <= i < later.len() ==> written_page(#[trigger] later[i]) != Some(page),
        page_is_reserved(run(committed(run(state, calls)), later), page),
        page_contents(run(committed(run(state, calls)), later), page) == page_contents(
            run(state, calls),
            page,
        ),
{
    let transaction = run(state, calls);
    let after = committed(transaction);
    law_calls_keep_sound(state, calls);
    law_commit_brings_states_together(state, calls);
    law_commit(transaction);
    lemma_commit_keeps_sound(transaction);
    assert(page.0 < state.num_pages) by {
        let i = choose|i: int|
            0 <= i < transaction.allocated_since_commit.len()
                && transaction.allocated_since_commit[i] == page;
        assert(transaction.allocated_since_commit[i].0 < transaction.num_pages);
    }
    assert(PageNumber(page.0) == page);
    assert(is_allocated(allocator_state(transaction.bytes), page.0));
    assert(is_allocated(allocator_state(after.bytes), page.0));
    assert(is_allocated(primary_allocator_state(after.bytes), page.0));
    assert(page_clear(transaction, page));
    assert(page_clear(after, page));
    assert forall|i: int| 0 <= i < later.len() implies #[trigger] later[i] != Call::Free(page)
        && writes_clear(after, later[i]) by {
        assert(writes_clear(state, later[i]));
    }
    law_reserved_page_is_left_alone(after, page, later);
    assert(page_contents(after, page) == page_contents(transaction, page));
}

/// The metapage is never handed out: where it is reserved, as in a new file, all calls
/// that can be made one after the other spare it, if none frees it and no page is
/// written that overlaps an allocator state.
pub proof fn law_metapage_is_spared(state: MemoryState, calls: Seq<Call>)
    requires
        sound(state),
        states_hold_all(state),
        1 <= state.num_pages,
        page_is_reserved(state, PageNumber(DB_METADATA_PAGE)),
        all_callable(state, calls),
        forall|i: int|
            0 <= i < calls.len() ==> #[trigger] calls[i] != Call::Free(
                PageNumber(DB_METADATA_PAGE),
            ) && writes_clear(state, calls[i]),
    ensures
        permitted(state, calls),
        page_is_reserved(run(state, calls), PageNumber(DB_METADATA_PAGE)),
    decreases calls.len(),
{
    if calls.len() > 0 {
        let rest = calls.drop_last();
        let middle = run(state, rest);
        assert forall|i: int| 0 <= i < rest.len() implies #[trigger] rest[i] != Call::Free(
            PageNumber(DB_METADATA_PAGE),
        ) && writes_clear(state, rest[i]) by {
            assert(rest[i] == calls[i]);
        }
        law_metapage_is_spared(state, rest);
        law_calls_keep_sound(state, rest);
        assert(calls.last() == calls[calls.len() - 1]);
        assert(writes_clear(middle, calls.last()));
        lemma_call_keeps_reserved(middle, PageNumber(DB_METADATA_PAGE), calls.last());
        assert forall|i: int| 0 <= i < calls.len() implies spares_metapage(#[trigger] calls[i]) by {
            if i < rest.len() {
                assert(rest[i] == calls[i]);
            }
        }
    }
}

/// On a new file any calls can be made, as long as none frees the metapage and, where
/// the pages do not fit beside the allocator states, none writes the last page. When
/// the memory is closed after them the file opens again, with the bytes and with the
/// primary root page that it was closed with.
pub proof fn law_new_file_survives_reopening(
    bytes: Seq<u8>,
    state: MemoryState,
    calls: Seq<Call>,
    page_size: usize,
    opened: Result<Opening, Error>,
)
    requires
        DB_METAPAGE_SIZE <= state.page_size <= bytes.len(),
        bytes.len() == state.bytes.len(),
        page_size == state.page_size,
        is_fresh(
            state,
            with_magic_number(formatted(bytes, state.page_size, state.num_pages)),
            state.page_size,
        ),
        all_callable(state, calls),
        forall|i: int|
            0 <= i < calls.len() ==> #[trigger] calls[i] != Call::Free(
                PageNumber(DB_METADATA_PAGE),
            ) && (pages_fit(bytes.len() as int, state.page_size, state.num_pages) || written_page(
                calls[i],
            ) != Some(PageNumber((state.num_pages - 1) as u64))),
        opens_with(opened, cleaned(run(state, calls)).bytes, page_size),
    ensures
        permitted(state, calls),
        opened is Ok,
        opened->Ok_0 is Ready,
        opened->Ok_0->Ready_0@.bytes == cleaned(run(state, calls)).bytes,
        slot_root(primary_slot(opened->Ok_0->Ready_0@.bytes)) == slot_root(
            primary_slot(run(state, calls).bytes),
        ),
{
    law_new_file(bytes, state);
    lemma_usable_pages_in_file(bytes.len() as int, state.page_size, state.num_pages);
    assert forall|i: int| 0 <= i < calls.len() implies writes_clear(state, #[trigger] calls[i]) by {
        lemma_written_page_is_in_file(state, calls, i);
    }
    law_metapage_is_spared(state, calls);
    law_commit_survives_reopening(state, calls, page_size, opened);
}

/// The calls up to one of them can be made, and so can that one.
proof fn lemma_callable_up_to(state: MemoryState, calls: Seq<Call>, i: int)
    requires
        all_callable(state, calls),
        0 <= i < calls.len(),
    ensures
        all_callable(state, calls.take(i)),
        callable(run(state, calls.take(i)), calls[i]),
    decreases calls.len(),
{
    assert(calls.drop_last() =~= calls.take(calls.len() - 1));
    if i < calls.len() - 1 {
        lemma_callable_up_to(state, calls.drop_last(), i);
        assert(calls.drop_last().take(i) =~= calls.take(i));
        assert(calls.drop_last()[i] == calls[i]);
    }
}

/// No call changes how many pages there are.
proof fn lemma_page_count_is_kept(state: MemoryState, calls: Seq<Call>)
    ensures
        run(state, calls).num_pages == state.num_pages,
    decreases calls.len(),
{
    if calls.len() > 0 {
        lemma_page_count_is_kept(state, calls.drop_last());
    }
}

/// A page that is written is one of the file.
proof fn lemma_written_page_is_in_file(state: MemoryState, calls: Seq<Call>, i: int)
    requires
        all_callable(state, calls),
        0 <= i < calls.len(),
    ensures
        written_page(calls[i]) is Some ==> written_page(calls[i])->Some_0.0 < state.num_pages,
{
    lemma_callable_up_to(state, calls, i);
    lemma_page_count_is_kept(state, calls.take(i));
}

/// The pages that calls allocate, in order.
pub open spec fn allocated_by(calls: Seq<Call>) -> Seq<PageNumber>
    decreases calls.len(),
{
    if calls.len() == 0 {
        Seq::empty()
    } else if calls.last() is Allocate {
        allocated_by(calls.drop_last()).push(written_page(calls.last())->Some_0)
    } else {
        allocated_by(calls.drop_last())
    }
}

/// The pages that calls free, in order.
pub open spec fn freed_by(calls: Seq<Call>) -> Seq<PageNumber>
    decreases calls.len(),
{
    if calls.len() == 0 {
        Seq::empty()
    } else if calls.last() is Free {
        freed_by(calls.drop_last()).push(calls.last()->Free_0)
    } else {
        freed_by(calls.drop_last())
    }
}

/// While no commit goes on and no rollback is made, the pages that count as allocated
/// since the last commit, and those that count as freed, are those that were and those
/// that the calls allocated and freed, in order: whatever the slots record.
pub proof fn law_transaction_is_listed(state: MemoryState, calls: Seq<Call>)
    requires
        forall|i: int|
            0 <= i < calls.len() ==> !commits(#[trigger] calls[i]) && !(calls[i] is Rollback),
    ensures
        run(state, calls).allocated_since_commit == state.allocated_since_commit + allocated_by(
            calls,
        ),
        run(state, calls).freed_since_commit == state.freed_since_commit + freed_by(calls),
    decreases calls.len(),
{
    if calls.len() > 0 {
        let rest = calls.drop_last();
        let middle = run(state, rest);
        assert forall|i: int| 0 <= i < rest.len() implies !commits(#[trigger] rest[i]) && !(
        rest[i] is Rollback) by {
            assert(rest[i] == calls[i]);
        }
        law_transaction_is_listed(state, rest);
        let call = calls.last();
        assert(call == calls[calls.len() - 1]);
        match call {
            Call::Allocate { page, contents, open_pages } => {
                law_allocation_is_listed(middle, page);
            },
            Call::Free(page) => {
                law_free_is_listed(middle, page);
            },
            Call::Commit { step, flushed } => {
                law_commit_steps(middle, step);
            },
            _ => {},
        }
    }
    assert(run(state, calls).allocated_since_commit =~= state.allocated_since_commit
        + allocated_by(calls));
    assert(run(state, calls).freed_since_commit =~= state.freed_since_commit + freed_by(calls));
}

/// A page that was listed as allocated stays so, and one that was not listed as freed
/// and is not freed is not listed as freed.
proof fn lemma_stays_listed(state: MemoryState, page: PageNumber, calls: Seq<Call>)
    requires
        forall|i: int|
            0 <= i < calls.len() ==> !commits(#[trigger] calls[i]) && !(calls[i] is Rollback),
    ensures
        state.allocated_since_commit.contains(page) ==> run(
            state,
            calls,
        ).allocated_since_commit.contains(page),
        state.freed_since_commit.contains(page) ==> run(state, calls).freed_since_commit.contains(
            page,
        ),
        !state.freed_since_commit.contains(page) && (forall|i: int|
            0 <= i < calls.len() ==> #[trigger] calls[i] != Call::Free(page)) ==> !run(
            state,
            calls,
        ).freed_since_commit.contains(page),
    decreases calls.len(),
{
    if calls.len() > 0 {
        let rest = calls.drop_last();
        let middle = run(state, rest);
        assert forall|i: int| 0 <= i < rest.len() implies !commits(#[trigger] rest[i]) && !(
        rest[i] is Rollback) by {
            assert(rest[i] == calls[i]);
        }
        lemma_stays_listed(state, page, rest);
        if forall|i: int| 0 <= i < calls.len() ==> #[trigger] calls[i] != Call::Free(page) {
            assert forall|i: int| 0 <= i < rest.len() implies #[trigger] rest[i] != Call::Free(
                page,
            ) by {
                assert(rest[i] == calls[i]);
            }
        }
        let call = calls.last();
        assert(call == calls[calls.len() - 1]);
        match call {
            Call::Allocate { page: other, contents, open_pages } => {
                law_allocation_is_listed(middle, other);
                lemma_contains_push(middle.allocated_since_commit, other, page);
            },
            Call::Free(other) => {
                law_free_is_listed(middle, other);
                lemma_contains_push(middle.freed_since_commit, other, page);
            },
            Call::Commit { step, flushed } => {
                law_commit_steps(middle, step);
            },
            _ => {},
        }
    }
}

/// What a commit records, whatever the slots recorded before: the primary slot records
/// the pages that the secondary did, and the secondary those that the primary did, with
/// those allocated since the last commit and without those freed since then. Nothing
/// counts as allocated or freed afterwards.
pub proof fn law_commit_records(state: MemoryState)
    requires
        sound(state),
        states_hold_all(state),
        can_commit(state),
    ensures
        ({
            let after = committed(state);
            &&& forall|page: u64|
                page < state.num_pages ==> (#[trigger] is_allocated(
                    primary_allocator_state(after.bytes),
                    page,
                ) <==> is_allocated(allocator_state(state.bytes), page))
            &&& forall|page: u64|
                page < state.num_pages ==> (#[trigger] is_allocated(
                    allocator_state(after.bytes),
                    page,
                ) <==> !state.freed_since_commit.contains(PageNumber(page)) && (
                state.allocated_since_commit.contains(PageNumber(page)) || is_allocated(
                    primary_allocator_state(state.bytes),
                    page,
                )))
            &&& after.allocated_since_commit.len() == 0
            &&& after.freed_since_commit.len() == 0
        }),
{
    let middle = commit_step(state, CommitStep::FlushPages, true).1;
    let after = committed(state);
    law_commit(state);
    law_commit_switches(state);
    law_commit_steps(state, CommitStep::FlushPages);
    law_commit_replays(middle);
    assert forall|page: u64| page < state.num_pages implies (#[trigger] is_allocated(
        allocator_state(after.bytes),
        page,
    ) <==> !state.freed_since_commit.contains(PageNumber(page)) && (
    state.allocated_since_commit.contains(PageNumber(page)) || is_allocated(
        primary_allocator_state(state.bytes),
        page,
    ))) by {
        assert(page / 8 < allocator_state(middle.bytes).len());
    }
}

/// Whatever the slots record: a page that a transaction allocates and does not free is
/// recorded as allocated in both slots once the transaction is committed, unless it was
/// freed before, since the last commit. From then on it is neither handed out nor
/// written before it is freed, and holds what the transaction left in it.
#[verifier::rlimit(30)]
pub proof fn law_committed_allocation_is_left_alone(
    state: MemoryState,
    first: Call,
    calls: Seq<Call>,
    later: Seq<Call>,
)
    requires
        sound(state),
        states_hold_all(state),
        first is Allocate,
        callable(state, first),
        spares_metapage(first),
        writes_clear(state, first),
        !state.freed_since_commit.contains(written_page(first)->Some_0),
        permitted(after_call(state, first), calls),
        one_transaction(after_call(state, first), calls),
        forall|i: int|
            0 <= i < calls.len() ==> #[trigger] calls[i] != Call::Free(
                written_page(first)->Some_0,
            ),
        run(after_call(state, first), calls).open_pages.is_empty(),
        permitted(committed(run(after_call(state, first), calls)), later),
        forall|i: int|
            0 <= i < later.len() ==> #[trigger] later[i] != Call::Free(written_page(first)->Some_0)
                && writes_clear(state, later[i]),
    ensures
        ({
            let page = written_page(first)->Some_0;
            let transaction = run(after_call(state, first), calls);
            let after = committed(transaction);
            &&& transaction.allocated_since_commit.contains(page)
            &&& can_commit(transaction)
            &&& is_allocated(allocator_state(after.bytes), page.0)
            &&& is_allocated(primary_allocator_state(after.bytes), page.0)
            &&& page_is_reserved(after, page)
            &&& forall|i: int|
                0 <= i < later.len() ==> written_page(#[trigger] later[i]) != Some(page)
            &&& page_contents(run(after, later), page) == page_contents(transaction, page)
            &&& page_is_reserved(run(after, later), page)
        }),
{
    let page = written_page(first)->Some_0;
    let started = after_call(state, first);
    let transaction = run(started, calls);
    let after = committed(transaction);
    lemma_call(state, first);
    law_allocate(state, page, first->Allocate_contents, first->Allocate_open_pages);
    law_allocation_is_listed(state, page);
    assert(is_allocated(allocator_state(started.bytes), page.0));
    lemma_page_stays_allocated(started, page, calls);
    lemma_stays_listed(started, page, calls);
    law_calls_keep_sound(started, calls);
    law_transaction_can_end(transaction);
    law_commit(transaction);
    law_commit_records(transaction);
    lemma_commit_keeps_sound(transaction);
    law_commit_steps(transaction, CommitStep::FlushPages);
    assert(PageNumber(page.0) == page);
    assert(is_allocated(primary_allocator_state(after.bytes), page.0));
    assert(is_allocated(allocator_state(after.bytes), page.0));
    assert(page_is_reserved(after, page));
    assert(page_clear(transaction, page));
    assert(page_clear(after, page));
    assert forall|i: int| 0 <= i < later.len() implies #[trigger] later[i] != Call::Free(page)
        && writes_clear(after, later[i]) by {
        assert(writes_clear(state, later[i]));
    }
    law_reserved_page_is_left_alone(after, page, later);
    assert(page_contents(after, page) == page_contents(transaction, page));
}

/// A page that is recorded as free in the secondary slot stays so while it is not
/// allocated, no commit goes on and no rollback is made.
proof fn lemma_page_stays_free(state: MemoryState, page: PageNumber, calls: Seq<Call>)
    requires
        sound(state),
        permitted(state, calls),
        one_transaction(state, calls),
        forall|i: int|
            0 <= i < calls.len() && (#[trigger] calls[i]) is Allocate ==> written_page(calls[i])
                != Some(page),
        page.0 / 8 < allocator_end(state.bytes) - allocator_start(state.bytes),
        !is_allocated(allocator_state(state.bytes), page.0),
    ensures
        !is_allocated(allocator_state(run(state, calls).bytes), page.0),
        run(state, calls).bytes[PRIMARY_BIT_OFFSET as int]
            == state.bytes[PRIMARY_BIT_OFFSET as int],
    decreases calls.len(),
{
    if calls.len() > 0 {
        let rest = calls.drop_last();
        let middle = run(state, rest);
        let call = calls.last();
        lemma_permitted_before(state, calls);
        lemma_one_transaction_before(state, calls);
        assert forall|i: int| 0 <= i < rest.len() && (#[trigger] rest[i]) is Allocate implies
            written_page(rest[i]) != Some(page) by {
            assert(rest[i] == calls[i]);
        }
        assert(call == calls[calls.len() - 1]);
        lemma_page_stays_free(state, page, rest);
        law_calls_keep_sound(state, rest);
        lemma_call(middle, call);
        assert(writes_clear(middle, call));
        match call {
            Call::SetRoot(root_page) => {
                law_root_is_read_back(middle, root_page);
            },
            Call::Allocate { page: other, contents, open_pages } => {
                law_allocate(middle, other, contents, open_pages);
                lemma_with_page(allocator_state(middle.bytes), other.0, page.0);
            },
            Call::Write { page: other, contents, open_pages } => {
                law_page_is_read_back(middle, other, contents, open_pages);
            },
            Call::Free(other) => {
                law_free(middle, other);
            },
            _ => {},
        }
    }
}

/// Whatever the slots record: a page that a transaction frees is recorded as allocated
/// again once the transaction is rolled back. Once it is committed instead, the page is
/// recorded as free in the secondary slot, and in the primary slot too unless the
/// transaction allocated it again.
pub proof fn law_freed_page_is_given_back_or_reusable(
    state: MemoryState,
    page: PageNumber,
    calls: Seq<Call>,
)
    requires
        sound(state),
        states_hold_all(state),
        callable(state, Call::Free(page)),
        permitted(page_freed(state, page), calls),
        one_transaction(page_freed(state, page), calls),
        run(page_freed(state, page), calls).open_pages.is_empty(),
    ensures
        ({
            let transaction = run(page_freed(state, page), calls);
            let after = committed(transaction);
            &&& transaction.freed_since_commit.contains(page)
            &&& callable(transaction, Call::Rollback)
            &&& is_allocated(allocator_state(rolled_back(transaction).bytes), page.0)
            &&& can_commit(transaction)
            &&& !is_allocated(allocator_state(after.bytes), page.0)
            &&& (forall|i: int|
                0 <= i < calls.len() && (#[trigger] calls[i]) is Allocate ==> written_page(calls[i])
                    != Some(page)) ==> !is_allocated(primary_allocator_state(after.bytes), page.0)
        }),
{
    let freed = page_freed(state, page);
    let transaction = run(freed, calls);
    lemma_call(state, Call::Free(page));
    law_free(state, page);
    law_free_is_listed(state, page);
    lemma_stays_listed(freed, page, calls);
    law_calls_keep_sound(freed, calls);
    law_transaction_can_end(transaction);
    law_rollback(transaction);
    law_commit_records(transaction);
    assert(PageNumber(page.0) == page);
    assert(page.0 / 8 < allocator_state(transaction.bytes).len());
    assert(is_allocated(allocator_state(rolled_back(transaction).bytes), page.0));
    assert(!is_allocated(allocator_state(committed(transaction).bytes), page.0));
    if forall|i: int|
        0 <= i < calls.len() && (#[trigger] calls[i]) is Allocate ==> written_page(calls[i])
            != Some(page) {
        assert(!is_allocated(allocator_state(freed.bytes), page.0));
        lemma_page_stays_free(freed, page, calls);
        assert(!is_allocated(primary_allocator_state(committed(transaction).bytes), page.0));
    }
}

/// Whatever the slots record: a page that a transaction allocates and does not free is
/// recorded as free again once the transaction is rolled back, unless it was freed
/// before, since the last commit. Nothing counts as allocated or freed afterwards.
pub proof fn law_allocation_is_taken_back(state: MemoryState, first: Call, calls: Seq<Call>)
    requires
        sound(state),
        states_hold_all(state),
        first is Allocate,
        callable(state, first),
        spares_metapage(first),
        !state.freed_since_commit.contains(written_page(first)->Some_0),
        permitted(after_call(state, first), calls),
        one_transaction(after_call(state, first), calls),
        forall|i: int|
            0 <= i < calls.len() ==> #[trigger] calls[i] != Call::Free(
                written_page(first)->Some_0,
            ),
        run(after_call(state, first), calls).open_pages.is_empty(),
    ensures
        ({
            let page = written_page(first)->Some_0;
            let transaction = run(after_call(state, first), calls);
            let after = rolled_back(transaction);
            &&& callable(transaction, Call::Rollback)
            &&& !is_allocated(allocator_state(after.bytes), page.0)
            &&& after.allocated_since_commit.len() == 0
            &&& after.freed_since_commit.len() == 0
        }),
{
    let page = written_page(first)->Some_0;
    let started = after_call(state, first);
    let transaction = run(started, calls);
    lemma_call(state, first);
    law_allocation_is_listed(state, page);
    lemma_stays_listed(started, page, calls);
    law_calls_keep_sound(started, calls);
    law_transaction_can_end(transaction);
    law_rollback(transaction);
    law_rollback_empties_lists(transaction);
    assert(PageNumber(page.0) == page);
    assert(page.0 / 8 < allocator_state(transaction.bytes).len());
}

/// Whatever the slots record: a page that a transaction neither allocates nor frees is
/// recorded as it was, in both slots, and a rollback leaves it so if it was not allocated
/// or freed before, since the last commit.
pub proof fn law_other_pages_stay_recorded(state: MemoryState, page: PageNumber, calls: Seq<Call>)
    requires
        sound(state),
        states_hold_all(state),
        page.0 < state.num_pages,
        permitted(state, calls),
        one_transaction(state, calls),
        forall|i: int|
            0 <= i < calls.len() ==> #[trigger] calls[i] != Call::Free(page) && !(
            calls[i] is Allocate && written_page(calls[i]) == Some(page)),
    ensures
        ({
            let transaction = run(state, calls);
            &&& is_allocated(allocator_state(transaction.bytes), page.0) == is_allocated(
                allocator_state(state.bytes),
                page.0,
            )
            &&& primary_allocator_state(transaction.bytes) == primary_allocator_state(state.bytes)
            &&& callable(transaction, Call::Rollback)
                && !transaction.allocated_since_commit.contains(page)
                && !transaction.freed_since_commit.contains(page) ==> is_allocated(
                allocator_state(rolled_back(transaction).bytes),
                page.0,
            ) == is_allocated(allocator_state(state.bytes), page.0)
        }),
{
    let transaction = run(state, calls);
    law_calls_keep_sound(state, calls);
    lemma_transaction(state, calls);
    if is_allocated(allocator_state(state.bytes), page.0) {
        lemma_page_stays_allocated(state, page, calls);
    } else {
        lemma_page_stays_free(state, page, calls);
    }
    if callable(transaction, Call::Rollback) {
        law_rollback(transaction);
        assert(PageNumber(page.0) == page);
        assert(page.0 / 8 < allocator_state(transaction.bytes).len());
    }
}

/// A file that was closed by a memory with the page size of the machine is opened again
/// with that page size, where the machine has one page size: the pages and the root page
/// are found where they were left.
pub proof fn law_machine_finds_its_pages(
    state: MemoryState,
    calls: Seq<Call>,
    page_size: usize,
    opened: Result<Opening, Error>,
)
    requires
        sound(state),
        permitted(state, calls),
        page_size == state.page_size,
        is_machine_page_size(page_size),
        forall|a: usize, b: usize| #[trigger]
            is_machine_page_size(a) && #[trigger] is_machine_page_size(b) ==> a == b,
        exists|size: usize|
            is_machine_page_size(size) && #[trigger] opens_with(
                opened,
                cleaned(run(state, calls)).bytes,
                size,
            ),
    ensures
        opened is Ok,
        opened->Ok_0 is Ready,
        ({
            let closed = run(state, calls);
            let reopened = opened->Ok_0->Ready_0@;
            &&& reopened.page_size == state.page_size
            &&& reopened.num_pages == state.num_pages
            &&& slot_root(primary_slot(reopened.bytes)) == slot_root(primary_slot(closed.bytes))
            &&& forall|page: PageNumber|
                1 <= page.0 < state.num_pages ==> #[trigger] page_contents(reopened, page)
                    == page_contents(closed, page)
        }),
{
    let size = choose|size: usize|
        is_machine_page_size(size) && #[trigger] opens_with(
            opened,
            cleaned(run(state, calls)).bytes,
            size,
        );
    assert(size == page_size);
    law_commit_survives_reopening(state, calls, page_size, opened);
}

} // verus!
