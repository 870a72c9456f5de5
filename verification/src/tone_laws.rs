//! How serious what a user is told is: what a user asked for in vain is news, what could
//! not be had any more is a warning, and what is broken is an error.

use vstd::prelude::*;

use crate::baseline::{BaselineView, EntryView};
use crate::commands::{first_unloaded, sort_message, sort_query, sort_word};
use crate::desk::{
    feedback_step, root_change_step, undo_request_step, DeskView, LoaderKindView, StartView,
    UndoRequestView,
};
use crate::directory_commands::{
    bookmark_step, current_text, fold_request, go_step, rescanned, sort_request, BookmarkStepView,
    FoldStepView, GoView, RescanView, SortStepView,
};
use crate::folding::{find_path, FoldOp};
use crate::fs_path::FsPathView;
use crate::loading::{
    candidate_chosen, directory_loaded, reveal_loaded, root_loaded, LoadView, RevealLoadView,
};
use crate::notices::{nothing_left_text, save_notices, MessageKind, MessageView, SaveNoticeView};
use crate::nvim_locate::{bundled_line, editor_file};
use crate::options::SortKey;
use crate::pane::{PaneId, PaneLayout};
use crate::pane_book::{
    created_step, pane_step, BookView, CreatedView, PaneAction, PaneFacts, PaneStepView,
};
use crate::save_flow::{reveal_step, toggle_step, ReconciledView, SaveView};
use crate::save_result::SaveFlowResult;
use crate::startup::{lone_warning, warnings_under};
use crate::text::{joined_texts, texts};
use crate::transfer_flow::{selection, SelectionError, TransferKind};
use crate::transfer_request::{
    selection_refusal, transfer_request_step, TransferRequestView, TransferSideView,
};
use crate::tree_commands::{
    activate_failure, activate_step, clipboard_refusal, line_kind, line_target, navigate_step,
    open_with_step, picker_failure, picker_step, remove_step, rename_step, ActivateView, EditView,
    LineKind, PathStepView, PickerAction, PickerView,
};
use crate::undo::{UndoStepStatusView, UndoTransactionView};
use crate::undo_format::report_lines;

verus! {

/// A line that has not been saved is news. One that is missing, broken or unknown is an
/// error, told in the words for it.
pub proof fn broken_lines_are_errors(
    entries: Seq<EntryView>,
    lines: Seq<Seq<char>>,
    line: int,
    missing: Seq<char>,
    broken: Seq<char>,
)
    ensures
        line_target(entries, lines, line, missing, broken) matches Err(told) ==> {
            &&& told.kind == MessageKind::Info <==> line_kind(lines, line) == LineKind::Unsaved
            &&& told.kind == MessageKind::Error <==> line_kind(lines, line) != LineKind::Unsaved
            &&& line_kind(lines, line) == LineKind::Missing ==> told.text == missing
            &&& line_kind(lines, line) == LineKind::Broken ==> told.text == broken
        },
{
}

/// What cannot be done with a line of the wrong kind is news, and so are edits in the way.
pub proof fn wrong_kinds_are_news(
    before: SaveView,
    lines: Seq<Seq<char>>,
    root: FsPathView,
    line: nat,
    rejection: Option<Seq<char>>,
    number: usize,
)
    ensures
        open_with_step(before, lines, root, line as int) is Tell && line_target(
            before.baseline.entries,
            lines,
            line as int,
            Seq::empty(),
            Seq::empty(),
        ) is Ok ==> open_with_step(before, lines, root, line as int)->Tell_0.kind
            == MessageKind::Info,
        navigate_step(before, lines, root, line as int) matches PathStepView::Tell(told) ==> (
        told.kind == MessageKind::Error <==> line_kind(lines, line as int) == LineKind::Missing)
            && (told.kind == MessageKind::Info <==> line_kind(lines, line as int)
            != LineKind::Missing),
        rename_step(lines, number, rejection) matches EditView::Tell(told) ==> {
            &&& rejection matches Some(text) ==> told == (MessageView {
                kind: MessageKind::Info,
                text,
            })
            &&& rejection is None ==> (told.kind == MessageKind::Info <==> line_kind(
                lines,
                number as int,
            ) == LineKind::Unsaved)
            &&& told.kind != MessageKind::Warn
        },
        remove_step(lines, number, rejection) matches EditView::Tell(told) ==> {
            &&& rejection matches Some(text) ==> told == (MessageView {
                kind: MessageKind::Info,
                text,
            })
            &&& rejection is None ==> told.kind == MessageKind::Error
        },
        (activate_step(before, lines, true, root, line).1 is Tell && line_target(
            before.baseline.entries,
            lines,
            line as int,
            Seq::empty(),
            Seq::empty(),
        ) is Ok) ==> activate_step(before, lines, true, root, line).1->Tell_0.kind
            == MessageKind::Info,
        (activate_step(before, lines, false, root, line).1 is Tell && line_target(
            before.baseline.entries,
            lines,
            line as int,
            Seq::empty(),
            Seq::empty(),
        ) is Ok) ==> {
            let told = activate_step(before, lines, false, root, line).1->Tell_0;
            let toggled = toggle_step(before, lines, line as int).1;
            &&& told.kind == MessageKind::Info <==> toggled is CannotExpandIncomplete
            &&& told.kind == MessageKind::Error <==> !(toggled is CannotExpandIncomplete)
        },
{
}

/// A selection that is empty or not saved is news; one with a missing or an unknown line is
/// an error.
pub proof fn broken_selections_are_errors(error: SelectionError)
    ensures
        ({
            let calm = error is UnsavedLine || error is Empty;
            &&& clipboard_refusal(error).kind == MessageKind::Info <==> calm
            &&& clipboard_refusal(error).kind == MessageKind::Error <==> !calm
            &&& selection_refusal(error).kind == MessageKind::Info <==> calm
            &&& selection_refusal(error).kind == MessageKind::Error <==> !calm
        }),
{
}

/// A transfer that is refused is told of no more seriously than what stands in its way: a
/// broken selection or an unknown destination is an error, all else is news.
pub proof fn refused_transfers_are_news(
    kind: TransferKind,
    source: TransferSideView,
    target: TransferSideView,
    lines: Seq<usize>,
    busy: bool,
)
    ensures
        transfer_request_step(kind, source, target, lines, busy) matches TransferRequestView::Tell(
            told,
        ) ==> {
            let picked = selection(source.save.baseline.entries, source.lines, lines);
            &&& told.kind != MessageKind::Warn
            &&& busy ==> told.kind == MessageKind::Info
            &&& picked matches Err(error) ==> (told.kind == MessageKind::Error
                ==> error is MissingLine || error is UnknownId)
        },
{
}

/// Folds that cannot be changed are news.
pub proof fn refused_folds_are_news(
    before: SaveView,
    lines: Seq<Seq<char>>,
    dirty: bool,
    line: int,
    op: FoldOp,
)
    ensures
        fold_request(before, lines, dirty, line, op).1 matches FoldStepView::Tell(told)
            ==> told.kind == MessageKind::Info,
{
}

/// A wish for an order that is not understood is an error; any other answer is news.
pub proof fn orders_not_understood_are_errors(
    view: SaveView,
    query: Option<Seq<char>>,
    dirty: bool,
    failed: Seq<char>,
    error: Seq<char>,
)
    ensures
        sort_request(view, query, dirty) matches SortStepView::Tell(told) ==> {
            let misunderstood = query matches Some(text) && sort_query(text) is Err;
            &&& told.kind == MessageKind::Error <==> misunderstood
            &&& told.kind == MessageKind::Info <==> !misunderstood
        },
        rescanned(Err(error), failed) == RescanView::Tell(
            MessageView { kind: MessageKind::Error, text: failed + error },
        ),
{
}

/// Where a user is, and which bookmarks there are, is news; a place that is not found is an
/// error.
pub proof fn places_not_found_are_errors(
    query: Option<Seq<char>>,
    root: FsPathView,
    root_text: Seq<char>,
    drives: Seq<Seq<char>>,
    home: Option<FsPathView>,
    absolute: bool,
    bookmarks: Seq<(Seq<char>, Seq<char>)>,
    recent: Seq<Seq<char>>,
)
    ensures
        go_step(query, root, root_text, drives, home, absolute) matches GoView::Tell(told) ==> (
        told.kind == MessageKind::Info <==> query is None) && (told.kind == MessageKind::Error
            <==> query is Some),
        bookmark_step(query, bookmarks, recent) matches BookmarkStepView::Tell(told) ==> (told.kind
            == MessageKind::Info <==> query is None) && (told.kind == MessageKind::Error
            <==> query is Some),
        query is None ==> go_step(query, root, root_text, drives, home, absolute) == GoView::Tell(
            MessageView { kind: MessageKind::Info, text: current_text(root_text, drives) },
        ),
        drives.len() < 2 ==> current_text(root_text, drives) == "Current: "@ + root_text,
        drives.len() >= 2 ==> current_text(root_text, drives) == "Current: "@ + root_text
            + " | Drives: "@ + joined_texts(drives, " "@),
{
}

/// Directories that changed while they were loaded are a warning; a root that cannot be
/// shown is an error.
pub proof fn loads_come_too_late(
    before: SaveView,
    kind: LoaderKindView,
    loaded: Result<ReconciledView, Seq<char>>,
    lines: Seq<Seq<char>>,
    root: FsPathView,
    root_text: Seq<char>,
    baseline: BaselineView,
    same: bool,
    name: Option<Seq<char>>,
    unwatched: Option<Seq<char>>,
)
    ensures
        kind is Directory || kind is Recursive ==> (directory_loaded(
            before,
            kind,
            loaded,
            lines,
        ).1 matches LoadView::Tell(told) ==> told.kind == MessageKind::Warn),
        root_loaded(
            before,
            root,
            root_text,
            baseline,
            same,
            name,
            unwatched,
        ).1 matches LoadView::Tell(told) ==> told.kind == MessageKind::Error,
{
}

/// A search candidate that is not there any more is a warning; one that cannot be shown yet
/// is news.
pub proof fn lost_candidates_are_warnings(
    before: SaveView,
    path: Seq<Seq<char>>,
    action: PickerAction,
    lines: Seq<Seq<char>>,
    dirty: bool,
    root: FsPathView,
)
    ensures
        picker_step(before, path, action, lines, dirty, root).1 matches PickerView::Tell(told) ==> {
            let found = find_path(before.baseline.entries, path);
            let lost = found is None || reveal_step(before, found->Some_0.id).1 is NotFound;
            &&& told.kind == MessageKind::Warn ==> lost
            &&& found is None ==> told.kind == MessageKind::Warn
            &&& found is Some && dirty ==> told.kind == MessageKind::Info
            &&& told.kind != MessageKind::Error
        },
{
}

/// The same holds where a directory had to be loaded on the way.
pub proof fn late_candidates_are_warnings(
    before: SaveView,
    path: Seq<Seq<char>>,
    action: PickerAction,
    loaded: Result<ReconciledView, Seq<char>>,
    unloaded: Seq<Seq<Seq<char>>>,
    lines: Seq<Seq<char>>,
    dirty: bool,
    root: FsPathView,
    busy: bool,
    crashed: bool,
)
    ensures
        loaded is Err ==> (reveal_loaded(
            before,
            path,
            action,
            loaded,
            unloaded,
            lines,
            dirty,
            root,
        ).1 matches RevealLoadView::Done(PickerView::Tell(told)) && told.kind
            == MessageKind::Warn),
        (loaded matches Ok(reconciled) && find_path(reconciled.baseline.entries, path) is None) ==> (
        reveal_loaded(before, path, action, loaded, unloaded, lines, dirty, root).1 matches
            RevealLoadView::Done(PickerView::Tell(told)) ==> told.kind == MessageKind::Warn),
        candidate_chosen(
            before,
            path,
            action,
            unloaded,
            lines,
            dirty,
            root,
            busy,
            crashed,
        ).1 matches RevealLoadView::Done(PickerView::Tell(told)) ==> told.kind
            != MessageKind::Error && (busy && first_unloaded(path, unloaded, 1) is Some
            ==> told.kind == MessageKind::Info || find_path(before.baseline.entries, path) is Some),
{
}

/// What stands in the way of an undo, of feedback or of another root is news; that there is
/// nowhere for feedback to go is a warning.
pub proof fn refused_wishes_are_news(
    desk: DeskView,
    pane: PaneId,
    dirty: bool,
    offline: bool,
    slot: Option<UndoTransactionView>,
    save: SaveView,
    statuses: Seq<UndoStepStatusView>,
    known: bool,
    root: FsPathView,
    name: Option<Seq<char>>,
    idle: bool,
)
    ensures
        undo_request_step(desk, pane, dirty, offline, slot, save, statuses).3 matches
            UndoRequestView::Tell(told) ==> told.kind == MessageKind::Info,
        feedback_step(desk, known).1 matches StartView::Tell(told) ==> {
            let taken = desk.dialog_owner is Some || desk.feedback_open;
            &&& told.kind == MessageKind::Info <==> taken
            &&& told.kind == MessageKind::Warn <==> !taken
        },
        root_change_step(desk, pane, root, name, dirty, offline, idle).1 matches StartView::Tell(
            told,
        ) ==> told.kind == MessageKind::Info,
{
}

/// What stands in the way of a wish about panes is news; a pane that could not be made is an
/// error.
pub proof fn panes_not_made_are_errors(
    book: BookView,
    action: PaneAction,
    source: PaneId,
    facts: PaneFacts,
    made: Result<(), Seq<char>>,
    split: Option<PaneLayout>,
)
    ensures
        pane_step(book, action, source, facts).1 matches PaneStepView::Tell(told) ==> told.kind
            == MessageKind::Info,
        created_step(book, source, made, split).1 matches CreatedView::Tell(told) ==> told.kind
            == MessageKind::Error,
{
}

/// What a start warns of are warnings: all under a heading together, and a single one by
/// itself.
pub proof fn start_warnings_are_warnings(
    heading: Seq<char>,
    warnings: Seq<Seq<char>>,
    text: Seq<char>,
)
    ensures
        warnings.len() == 0 <==> warnings_under(heading, warnings).len() == 0,
        warnings.len() > 0 ==> warnings_under(heading, warnings) == seq![
            MessageView {
                kind: MessageKind::Warn,
                text: heading + joined_texts(warnings, " / "@),
            },
        ],
        lone_warning(Some(text)) == seq![MessageView { kind: MessageKind::Warn, text }],
        lone_warning(None).len() == 0,
{
}

/// What the editor or the system could not do is an error, told with its reason.
pub proof fn failures_are_errors(activated: ActivateView, picked: PickerView, error: Seq<char>)
    ensures
        activate_failure(activated, error) is Some <==> activated is Open || activated is Show,
        activate_failure(activated, error) matches Some(told) ==> told.kind == MessageKind::Error
            && told.text == activate_failure(activated, Seq::empty())->Some_0.text + error,
        picker_failure(picked, error) is None <==> picked is Tell,
        picker_failure(picked, error) matches Some(told) ==> told.kind == MessageKind::Error
            && told.text == picker_failure(picked, Seq::empty())->Some_0.text + error,
{
    if let Some(told) = activate_failure(activated, error) {
        assert(told.text =~= activate_failure(activated, Seq::empty())->Some_0.text + error);
    }
    if let Some(told) = picker_failure(picked, error) {
        assert(told.text =~= picker_failure(picked, Seq::empty())->Some_0.text + error);
    }
}

/// The editor's file is named as programs are on the system.
pub proof fn editor_is_named_as_programs_are()
    ensures
        editor_file(true) == editor_file(false) + ".exe"@,
        editor_file(false) == "nvim"@,
{
    reveal_strlit("nvim");
    reveal_strlit("nvim.exe");
    reveal_strlit(".exe");
    assert(editor_file(true) =~= editor_file(false) + ".exe"@);
}

/// What a save or an undo is answered has its tone: a folder that cannot be reached and a
/// plan that does not hold any more are warnings, changes that could not be followed are an
/// error, and the rest is news. Each is told in its own words.
pub proof fn answers_have_their_tone(result: SaveFlowResult)
    ensures
        result is NoChanges || result is UndoNothingLeft ==> (
        save_notices(result)[0] matches SaveNoticeView::Tell(told) && told.kind
            == MessageKind::Info),
        result matches SaveFlowResult::UndoNothingLeft { reasons } ==> (
        save_notices(result)[0] matches SaveNoticeView::Tell(told) && told.text
            == nothing_left_text(texts(reasons@))),
        result matches SaveFlowResult::ExternalChangeNotified(text) ==> save_notices(result)[0]
            == SaveNoticeView::Tell(MessageView { kind: MessageKind::Info, text: text@ }),
        result matches SaveFlowResult::Reconnected(text) ==> save_notices(result)[0]
            == SaveNoticeView::Tell(MessageView { kind: MessageKind::Info, text: text@ }),
        result matches SaveFlowResult::OfflineRejected(text) ==> save_notices(result)[0]
            == SaveNoticeView::Tell(MessageView { kind: MessageKind::Info, text: text@ }),
        result matches SaveFlowResult::ExternalChangeFailed(text) ==> save_notices(result)[0]
            == SaveNoticeView::Tell(MessageView { kind: MessageKind::Error, text: text@ }),
        result matches SaveFlowResult::PlanInvalidated(text) ==> save_notices(result)[1]
            == SaveNoticeView::Tell(MessageView { kind: MessageKind::Warn, text: text@ }),
        result matches SaveFlowResult::UndoInvalidated { message, .. } ==> save_notices(result)[1]
            == SaveNoticeView::Tell(MessageView { kind: MessageKind::Warn, text: message@ }),
        result is WentOffline ==> (save_notices(result)[0] matches SaveNoticeView::Tell(told)
            && told.kind == MessageKind::Warn),
        result is ReconcileFailed || result is UndoReconcileFailed ==> save_notices(result).len()
            == 2 && (save_notices(result)[1] matches SaveNoticeView::Tell(told) && told.kind
            == MessageKind::Warn),
        result matches SaveFlowResult::UndoReconcileFailed { report, .. } ==> (
        save_notices(result)[0] matches SaveNoticeView::ShowUndoReport { any_failed, lines }
            && lines == report_lines(report.results@) && any_failed == exists|i: int|
            0 <= i < report.results@.len() && (#[trigger] report.results@[i]).outcome is Failed),
{
}

/// The reasons why nothing is left to undo are told behind one another.
pub proof fn reasons_are_told(reasons: Seq<Seq<char>>)
    ensures
        reasons.len() > 0 ==> nothing_left_text(reasons) == "No operations are available to undo: "@
            + joined_texts(reasons, " / "@),
        reasons.len() == 0 ==> nothing_left_text(reasons) == "No operations are available to undo"@,
{
}

/// The order that entries are shown in is told in its word, and that it is reversed where
/// it is.
pub proof fn reversed_orders_are_told(key: SortKey)
    ensures
        sort_message(key, true) == sort_message(key, false) + " (reverse)"@,
        sort_message(key, false) == "sort: "@ + sort_word(key),
{
    assert(sort_message(key, false) =~= "sort: "@ + sort_word(key));
    assert(sort_message(key, true) =~= sort_message(key, false) + " (reverse)"@);
}

/// The bundled editor is told to be in use just where it was looked for and found.
pub proof fn bundled_editor_is_told(display: Seq<char>, is_file: bool)
    ensures
        bundled_line(Some((display, true)), true) == "Bundled version "@ + display + ": using"@,
        bundled_line(Some((display, false)), true) == "Bundled version "@ + display
            + ": not found"@,
        bundled_line(Some((display, is_file)), false) == "Bundled version "@ + display
            + ": not searched"@,
{
}

} // verus!
