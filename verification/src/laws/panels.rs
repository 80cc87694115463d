//! What the provider of completions and the panels promise.
use vstd::pervasive::cloned;
use vstd::prelude::*;

use crate::completion::{CompletionView, InlineCompletion};
use crate::path;
use crate::pattern;
use crate::provider::{self, CompletionProposal, InlayProposal, ProviderView, RefreshId};
use crate::tasks::{self, ConnectionState, ResolvedTask, ScheduledTask};
use crate::thread_history::{self, DateTime, Thread, MAX_TIMESTAMP, MIN_TIMESTAMP};

verus! {

// --- The provider ------------------------------------------------------------------------------

/// Starting a refresh puts the next number under way, and leaves on offer what is on offer.
pub proof fn law_a_refresh_leaves_the_offer(before: ProviderView)
    requires
        before.next_refresh_id.0 < u64::MAX,
    ensures
        before.refreshing().current_completion == before.current_completion,
        before.refreshing().pending_refresh == Some(before.next_refresh_id),
        before.refreshing().next_refresh_id.0 == before.next_refresh_id.0 + 1,
{
}

/// What comes of the refresh that is under way is on offer from then on, also if it is nothing, and
/// no refresh is under way any more. What comes of another one changes nothing.
pub proof fn law_the_outcome_is_on_offer(
    before: ProviderView,
    id: RefreshId,
    completion: Option<CompletionView>,
)
    ensures
        before.pending_refresh == Some(id) ==> {
            let after = before.finished(id, completion);
            &&& after.current_completion == completion
            &&& after.pending_refresh is None
            &&& after.next_refresh_id == before.next_refresh_id
        },
        before.pending_refresh != Some(id) ==> before.finished(id, completion) == before,
{
}

/// A refresh that waits for the user to go on typing waits for 75 milliseconds.
pub proof fn law_the_wait_is_short()
    ensures
        provider::DEBOUNCE_TIMEOUT_MILLIS == 75,
{
}

/// What is taken or turned down is no longer on offer; refreshes go on.
pub proof fn law_a_cleared_offer_is_empty(before: ProviderView)
    ensures
        before.cleared().current_completion is None,
        before.cleared().pending_refresh == before.pending_refresh,
        before.cleared().next_refresh_id == before.next_refresh_id,
{
}

/// A refresh brings the completion that was made; an error, no completion and no request all bring
/// nothing.
pub proof fn law_only_completions_are_offered<E>(made: InlineCompletion, error: E)
    ensures
        provider::refreshed::<E>(Some(Ok(Some(made)))) == Some(made@),
        provider::refreshed::<E>(Some(Ok(None))) is None,
        provider::refreshed::<E>(Some(Err(error))) is None,
        provider::refreshed::<E>(None) is None,
        provider::optional_view(Some(made)) == Some(made@),
        provider::optional_view(None) is None,
{
}

/// A proposal shows every edit of the completion: its text at the end of what it replaces. It
/// deletes what the first edit replaces, and inserts the text of that edit.
pub proof fn law_proposals_show_every_edit(
    proposal: CompletionProposal,
    completion: CompletionView,
    i: int,
)
    requires
        provider::shows(proposal, completion),
        0 <= i < completion.edits.len(),
    ensures
        proposal.inlays@.len() == completion.edits.len(),
        proposal.inlays@[i] matches InlayProposal::Suggestion(position, text) && position
            == completion.edits[i].end && text@ == completion.edits[i].text,
        proposal.delete_range matches Some(range) && range.start == completion.edits[0].start
            && range.end == completion.edits[0].end,
        proposal.text@ == completion.edits[0].text,
{
}

// --- Tasks -------------------------------------------------------------------------------------

/// Tasks run unless the project is on a host that is not connected.
pub proof fn law_only_lost_connections_stop_tasks()
    ensures
        tasks::is_reachable(None),
        tasks::is_reachable(Some(ConnectionState::Connected)),
        !tasks::is_reachable(Some(ConnectionState::Connecting)),
        !tasks::is_reachable(Some(ConnectionState::HeartbeatMissed)),
        !tasks::is_reachable(Some(ConnectionState::Reconnecting)),
        !tasks::is_reachable(Some(ConnectionState::Disconnected)),
{
}

/// A task is run as it was resolved. If it is kept, the history gets it with its source, and with a
/// copy of what is run; if not, the history gets nothing.
pub proof fn law_tasks_are_run_and_kept<K, T, S: Clone>(
    scheduled: ScheduledTask<K, T, S>,
    kind: K,
    task: ResolvedTask<T, S>,
    keep: bool,
)
    requires
        tasks::is_schedule_of(scheduled, kind, task, keep),
    ensures
        task.resolved == Some(scheduled.spawn),
        scheduled.history is Some == keep,
        scheduled.history matches Some((source, kept)) ==> {
            &&& source == kind
            &&& kept.task == task.task
            &&& kept.resolved matches Some(copy) && cloned::<S>(scheduled.spawn, copy)
        },
{
}

// --- Past conversations --------------------------------------------------------------------------

/// A conversation is viewed by its fields.
pub proof fn law_conversations_are_viewed_in_full(thread: Thread)
    ensures
        thread@.id == thread.id@,
        thread.summary matches Some(summary) ==> thread@.summary == Some(summary@),
        thread.summary is None ==> thread@.summary is None,
        thread@.updated_at == thread.updated_at,
{
}

/// What stands in place of an empty list, and of a summary.
pub proof fn law_labels()
    ensures
        thread_history::EMPTY_LABEL@ == "You don't have any past threads yet."@,
        thread_history::DEFAULT_SUMMARY@ == "New Thread"@,
{
}

/// Seconds are counted from the start of 1970: each minute has sixty, each hour sixty minutes, each
/// day twenty-four hours, and the years follow each other without a gap.
pub proof fn law_seconds_are_counted_from_1970(at: DateTime)
    ensures
        (DateTime { year: 1970, ordinal: 1, hour: 0, minute: 0, second: 0 }).timestamp() == 0,
        at.timestamp() == (DateTime { hour: 0, minute: 0, second: 0, ..at }).timestamp() + at.hour
            * 3600 + at.minute * 60 + at.second,
        (DateTime { hour: 0, minute: 0, second: 0, ..at }).timestamp() == (DateTime {
            ordinal: 1,
            hour: 0,
            minute: 0,
            second: 0,
            ..at
        }).timestamp() + (at.ordinal - 1) * 86400,
        at.year < i32::MAX ==> (DateTime {
            year: (at.year + 1) as i32,
            ordinal: 1,
            hour: 0,
            minute: 0,
            second: 0,
        }).timestamp() == (DateTime { ordinal: 1, hour: 0, minute: 0, second: 0, ..at }).timestamp()
            + 86400 * if at.year % 4 == 0 && (at.year % 100 != 0 || at.year % 400 == 0) {
            366int
        } else {
            365
        },
{
    crate::laws::lemma_year_length(at.year as int);
}

/// The days of a year, and the seconds of a day.
pub proof fn law_moments_exist(at: DateTime)
    requires
        1 <= at.ordinal <= 365,
        at.hour < 24,
        at.minute < 60,
        at.second < 60,
    ensures
        at.wf(),
        (DateTime { ordinal: 366, ..at }).wf() == (at.year % 4 == 0 && (at.year % 100 != 0
            || at.year % 400 == 0)),
        !(DateTime { ordinal: 367, ..at }).wf(),
        !(DateTime { ordinal: 0, ..at }).wf(),
        !(DateTime { hour: 24, ..at }).wf(),
        !(DateTime { minute: 60, ..at }).wf(),
        !(DateTime { second: 60, ..at }).wf(),
{
}

/// The moments that can be shown are those of the years -9999 to 9999.
pub proof fn law_years_that_can_be_shown()
    ensures
        MIN_TIMESTAMP == (DateTime {
            year: (-9999) as i32,
            ordinal: 1,
            hour: 0,
            minute: 0,
            second: 0,
        }).timestamp(),
        MAX_TIMESTAMP == (DateTime {
            year: 9999,
            ordinal: 365,
            hour: 23,
            minute: 59,
            second: 59,
        }).timestamp(),
{
}

// --- Paths -------------------------------------------------------------------------------------

/// The parts of a path are those before a slash and those behind it. A part counts unless it is
/// empty, or a dot that does not come first.
pub proof fn law_slashes_separate_parts(part: Seq<char>, rest: Seq<char>, first: bool)
    requires
        !part.contains('/'),
    ensures
        path::path_names(part + seq!['/'] + rest, first) == path::path_names(part, first)
            + path::path_names(rest, false),
        path::path_names(part, first) == if part.len() == 0 || (!first && part == seq!['.']) {
            Seq::<Seq<char>>::empty()
        } else {
            seq![part]
        },
{
    let all = part + seq!['/'] + rest;
    let n = part.len() as int;
    crate::laws::texts::law_first_index(all, '/');
    crate::laws::texts::law_first_index(part, '/');
    assert(all[n] == '/');
    assert forall|k: int| 0 <= k < n implies all[k] != '/' by {
        assert(part.contains(part[k]));
    }
    assert(pattern::first_index(all, '/') == n);
    assert(pattern::first_index(part, '/') == n) by {
        if pattern::first_index(part, '/') < n {
            assert(part.contains(part[pattern::first_index(part, '/')]));
        }
    }
    assert(all.take(n) =~= part);
    assert(all.skip(n + 1) =~= rest);
}

/// A path that starts with a slash starts at the root; other paths are their parts alone.
pub proof fn law_rooted_paths(rest: Seq<char>, other: Seq<char>)
    requires
        other.len() == 0 || other[0] != '/',
    ensures
        path::path_components(seq!['/'] + rest) == seq![seq!['/']] + path::path_names(rest, false),
        path::path_components(other) == path::path_names(other, true),
{
    let none = Seq::<char>::empty();
    law_slashes_separate_parts(none, rest, true);
    assert(none + seq!['/'] + rest =~= seq!['/'] + rest);
    assert(path::path_names(none, true) + path::path_names(rest, false) =~= path::path_names(
        rest,
        false,
    ));
}

} // verus!
