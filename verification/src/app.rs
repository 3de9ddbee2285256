//! The state machine of the TUI: from a key press to the jj command it
//! runs. Independent of drawing and of the terminal, so that what a key
//! does can be checked without opening a terminal.
//!
//! Each step takes the state and an event and gives the next state and an
//! [`Effect`]: the jj command to run, the log to reload, or the message to
//! generate. The caller performs the effect and hands its outcome back
//! ([`App::report`], [`App::finish_reload`], [`App::finish_ai`]).
use vstd::prelude::*;

use ratatui::text::Text;

use crate::ai::AI_CMD_ENV;
use crate::cache::{
    cached_entry, entries_wf, key_index, spec_insert, spec_touch, CommitCache, DiffStore,
};
use crate::rich::{
    ansi_lines, colored, empty_text, line_count, raw_lines, text_clone,
    text_extend, text_lines, text_of,
};
use crate::jj::{
    spec_target_path,
    files_view, parse_diff_summary, parse_log, rows_view, spec_label, spec_next,
    spec_parse_diff_summary, spec_parse_log, spec_summary, Change, ChangeView, DiffFile,
    DiffFileView, Jj, JjCall, JjCallView, RebaseMode, Row, RowView,
};
use crate::text::{
    cat, chars_of, fold_lines, folded, lemma_concat_no_newline, lemma_folded_one_line, lines,
    lines_of, opt_str_view, opt_string_view, pop_char, push_char, result_view, str_eq,
    string_of_all, trim, trim_bounds, trim_str, views,
};

verus! {

/// How many rows Ctrl-d / Ctrl-u move.
pub const PAGE: usize = 10;

/// Which pane keys act on.
#[derive(Debug, Clone, Copy, PartialEq, Eq, Structural)]
pub enum Focus {
    Log,
    /// The files changed by the selected change.
    Files,
    Diff,
}

/// How the panes share the screen.
#[derive(Debug, Clone, Copy, PartialEq, Eq, Structural)]
pub enum PaneLayout {
    /// The log on the left; the files over the diff on the right.
    Stacked,
    /// The log and the files side by side on top; the diff below them,
    /// the full width of the screen.
    DiffBelow,
}

/// What a confirmed text input does.
#[derive(Debug, PartialEq, Eq)]
pub enum InputAction {
    /// `jj describe -r <rev> -m <input>`
    Describe { rev: String },
    /// `jj new <rev> -m <input>` (no `-m` for an empty input)
    NewChild { rev: String },
    /// `jj bookmark set <input> -r <rev>`
    Bookmark { rev: String },
    /// `jj rebase <mode> <rev> --onto <input>`
    RebaseOnto { rev: String, mode: RebaseMode },
    /// Replaces the revset of the log pane.
    Revset,
}

pub enum InputActionView {
    Describe { rev: Seq<char> },
    NewChild { rev: Seq<char> },
    Bookmark { rev: Seq<char> },
    RebaseOnto { rev: Seq<char>, mode: RebaseMode },
    Revset,
}

impl View for InputAction {
    type V = InputActionView;

    open spec fn view(&self) -> InputActionView {
        match self {
            InputAction::Describe { rev } => InputActionView::Describe { rev: rev@ },
            InputAction::NewChild { rev } => InputActionView::NewChild { rev: rev@ },
            InputAction::Bookmark { rev } => InputActionView::Bookmark { rev: rev@ },
            InputAction::RebaseOnto { rev, mode } => InputActionView::RebaseOnto { rev: rev@, mode: *mode },
            InputAction::Revset => InputActionView::Revset,
        }
    }
}

/// The revision whose diff a generated message describes: the inputs
/// that describe a change have one, the others (a bookmark name, a
/// destination, a revset) have none.
pub open spec fn spec_ai_rev(a: InputActionView) -> Option<Seq<char>> {
    match a {
        InputActionView::Describe { rev } => Some(rev),
        InputActionView::NewChild { rev } => Some(rev),
        _ => None,
    }
}

impl InputAction {
    /// The revision whose diff a generated message would describe; `None`
    /// where the input has nothing to do with a diff.
    pub fn ai_rev(&self) -> (r: Option<&str>)
        ensures
            match r {
                Some(s) => spec_ai_rev(self@) == Some(s@),
                None => spec_ai_rev(self@) is None,
            },
    {
        match self {
            InputAction::Describe { rev } => Some(rev.as_str()),
            InputAction::NewChild { rev } => Some(rev.as_str()),
            InputAction::Bookmark { .. } => None,
            InputAction::RebaseOnto { .. } => None,
            InputAction::Revset => None,
        }
    }
}

/// What a confirmed dialog does.
#[derive(Debug, PartialEq, Eq)]
pub enum ConfirmAction {
    Abandon { rev: String },
    Squash { from: String, into: String },
    Rebase { rev: String, onto: String, mode: RebaseMode },
    /// `jj restore --changes-in <rev> <path>`: discards the file's change.
    Restore { rev: String, path: String },
    /// `jj absorb --from <rev> <path>`: moves the file's change into the
    /// ancestors that last touched its lines.
    Absorb { rev: String, path: String },
    Undo,
    Redo,
}

pub enum ConfirmActionView {
    Abandon { rev: Seq<char> },
    Squash { from: Seq<char>, into: Seq<char> },
    Rebase { rev: Seq<char>, onto: Seq<char>, mode: RebaseMode },
    Restore { rev: Seq<char>, path: Seq<char> },
    Absorb { rev: Seq<char>, path: Seq<char> },
    Undo,
    Redo,
}

impl View for ConfirmAction {
    type V = ConfirmActionView;

    open spec fn view(&self) -> ConfirmActionView {
        match self {
            ConfirmAction::Abandon { rev } => ConfirmActionView::Abandon { rev: rev@ },
            ConfirmAction::Squash { from, into } => ConfirmActionView::Squash { from: from@, into: into@ },
            ConfirmAction::Rebase { rev, onto, mode } => ConfirmActionView::Rebase {
                rev: rev@,
                onto: onto@,
                mode: *mode,
            },
            ConfirmAction::Restore { rev, path } => ConfirmActionView::Restore { rev: rev@, path: path@ },
            ConfirmAction::Absorb { rev, path } => ConfirmActionView::Absorb { rev: rev@, path: path@ },
            ConfirmAction::Undo => ConfirmActionView::Undo,
            ConfirmAction::Redo => ConfirmActionView::Redo,
        }
    }
}

/// A one-line text input.
#[derive(Debug, PartialEq, Eq)]
pub struct Input {
    pub prompt: String,
    pub value: String,
    pub action: InputAction,
}

pub struct InputView {
    pub prompt: Seq<char>,
    pub value: Seq<char>,
    pub action: InputActionView,
}

impl View for Input {
    type V = InputView;

    open spec fn view(&self) -> InputView {
        InputView { prompt: self.prompt@, value: self.value@, action: self.action@ }
    }
}

/// A yes/no dialog.
#[derive(Debug, PartialEq, Eq)]
pub struct Confirm {
    pub prompt: String,
    pub action: ConfirmAction,
}

pub struct ConfirmView {
    pub prompt: Seq<char>,
    pub action: ConfirmActionView,
}

impl View for Confirm {
    type V = ConfirmView;

    open spec fn view(&self) -> ConfirmView {
        ConfirmView { prompt: self.prompt@, action: self.action@ }
    }
}

#[derive(Debug, PartialEq, Eq)]
pub enum Mode {
    Normal,
    Help,
    Input(Input),
    Confirm(Confirm),
}

pub enum ModeView {
    Normal,
    Help,
    Input(InputView),
    Confirm(ConfirmView),
}

impl View for Mode {
    type V = ModeView;

    open spec fn view(&self) -> ModeView {
        match self {
            Mode::Normal => ModeView::Normal,
            Mode::Help => ModeView::Help,
            Mode::Input(i) => ModeView::Input(i@),
            Mode::Confirm(c) => ModeView::Confirm(c@),
        }
    }
}

/// How the status bar shows its text.
#[derive(Debug, Clone, Copy, PartialEq, Eq, Structural)]
pub enum StatusKind {
    Info,
    Error,
}

#[derive(Debug, PartialEq, Eq)]
pub struct Status {
    pub text: String,
    pub kind: StatusKind,
}

pub struct StatusView {
    pub text: Seq<char>,
    pub kind: StatusKind,
}

impl View for Status {
    type V = StatusView;

    open spec fn view(&self) -> StatusView {
        StatusView { text: self.text@, kind: self.kind }
    }
}

impl Status {
    /// An informative status.
    pub fn info(text: String) -> (r: Self)
        ensures
            r@ == (StatusView { text: text@, kind: StatusKind::Info }),
    {
        Status { text, kind: StatusKind::Info }
    }

    /// An error status.
    pub fn error(text: String) -> (r: Self)
        ensures
            r@ == (StatusView { text: text@, kind: StatusKind::Error }),
    {
        Status { text, kind: StatusKind::Error }
    }
}

/// The key of a key event.
#[derive(Debug, Clone, Copy, PartialEq, Eq, Structural)]
pub enum KeyCode {
    Char(char),
    Enter,
    Esc,
    Tab,
    /// Shift-Tab.
    BackTab,
    Backspace,
    Up,
    Down,
    Home,
    End,
    /// Any key this state machine does not act on.
    Other,
}

/// A key event: the key, whether Ctrl was held, and whether it is a
/// press (terminals may also report releases and repeats).
#[derive(Debug, Clone, Copy, PartialEq, Eq, Structural)]
pub struct Key {
    pub code: KeyCode,
    pub ctrl: bool,
    pub press: bool,
}

/// Why the log is reloaded, which decides what the status bar says.
#[derive(Debug, Clone, Copy, PartialEq, Eq, Structural)]
pub enum ReloadPurpose {
    /// After a jj command succeeded; its report stays in the status bar.
    AfterCommand,
    /// Ctrl-r.
    Manual,
    /// The revset changed.
    Revset,
}

/// What the caller has to do after a step of the state machine.
#[derive(Debug)]
pub enum Effect {
    Nothing,
    /// Run a rewriting jj command and hand its outcome to [`App::report`]
    /// with `label`.
    Run { label: String, call: JjCall },
    /// Run `log` and then `status`, and hand their outcome to
    /// [`App::finish_reload`] with `purpose`.
    Reload { purpose: ReloadPurpose, log: JjCall, status: JjCall },
    /// Run `diff`, pipe its output through the shell command `cmd`, and
    /// hand the message to [`App::finish_ai`].
    Ai { cmd: String, diff: JjCall },
    /// Hand the terminal to the editor command `editor` on the file `path`,
    /// and then report to [`App::editor_closed`].
    OpenEditor { editor: String, path: String },
}

pub enum EffectView {
    Nothing,
    Run { label: Seq<char>, call: JjCallView },
    Reload { purpose: ReloadPurpose, log: JjCallView, status: JjCallView },
    Ai { cmd: Seq<char>, diff: JjCallView },
    OpenEditor { editor: Seq<char>, path: Seq<char> },
}

impl View for Effect {
    type V = EffectView;

    open spec fn view(&self) -> EffectView {
        match self {
            Effect::Nothing => EffectView::Nothing,
            Effect::Run { label, call } => EffectView::Run { label: label@, call: call@ },
            Effect::Reload { purpose, log, status } => EffectView::Reload {
                purpose: *purpose,
                log: log@,
                status: status@,
            },
            Effect::Ai { cmd, diff } => EffectView::Ai { cmd: cmd@, diff: diff@ },
            Effect::OpenEditor { editor, path } => EffectView::OpenEditor { editor: editor@, path: path@ },
        }
    }
}

/// What the caller has to fetch so that the diff pane shows the selection.
#[derive(Debug)]
pub enum DiffRequest {
    /// Nothing is selected: the header and the diff are to be emptied.
    Clear,
    /// Run `call` (the files of the selected change) and hand its outcome
    /// to [`App::files_loaded`] with `commit_id`.
    Files { commit_id: String, call: JjCall },
    /// The header of the selected change, from `source`, for
    /// [`App::header_loaded`] with `commit_id`.
    Header { commit_id: String, source: Source },
    /// The diff of the selected file (of the whole change when `path` is
    /// `None`), from `source`, for [`App::diff_loaded`]; when `filter` is
    /// set, its text is also piped through that command.
    Diff { commit_id: String, path: Option<String>, source: Source, filter: Option<String> },
    /// The diff pane already shows the selection.
    Done,
}

/// Where the output that a request needs comes from.
#[derive(Debug)]
pub enum Source {
    /// Run this jj command.
    Run(JjCall),
    /// The output of an earlier run, from the cache.
    Cached(String),
}

pub enum SourceView {
    Run(JjCallView),
    Cached(Seq<char>),
}

impl View for Source {
    type V = SourceView;

    open spec fn view(&self) -> SourceView {
        match self {
            Source::Run(c) => SourceView::Run(c@),
            Source::Cached(s) => SourceView::Cached(s@),
        }
    }
}

/// Whether a row shows a change (connector rows are never selected).
pub open spec fn is_change_row(r: RowView) -> bool {
    r is Change
}

/// Whether some row shows a change.
pub open spec fn has_change(rows: Seq<RowView>) -> bool {
    exists|i: int| 0 <= i < rows.len() && is_change_row(#[trigger] rows[i])
}

/// The change shown by a row.
pub open spec fn row_change(r: RowView) -> ChangeView
    recommends
        r is Change,
{
    match r {
        RowView::Change { change, .. } => change,
        RowView::Connector(_) => arbitrary(),
    }
}

/// The index of the first change row.
pub open spec fn first_change(rows: Seq<RowView>) -> Option<int>
    decreases rows.len(),
{
    if rows.len() == 0 {
        None
    } else if is_change_row(rows[0]) {
        Some(0)
    } else {
        match first_change(rows.drop_first()) {
            Some(i) => Some(i + 1),
            None => None,
        }
    }
}

/// The index of the last change row.
pub open spec fn last_change(rows: Seq<RowView>) -> Option<int>
    decreases rows.len(),
{
    if rows.len() == 0 {
        None
    } else if is_change_row(rows.last()) {
        Some(rows.len() - 1)
    } else {
        last_change(rows.drop_last())
    }
}

/// The index of the first row that shows the change `id`.
pub open spec fn index_of_id(rows: Seq<RowView>, id: Seq<char>) -> Option<int>
    decreases rows.len(),
{
    if rows.len() == 0 {
        None
    } else if is_change_row(rows[0]) && row_change(rows[0]).id == id {
        Some(0)
    } else {
        match index_of_id(rows.drop_first(), id) {
            Some(i) => Some(i + 1),
            None => None,
        }
    }
}

/// The indices of the change rows, ascending.
pub open spec fn change_positions(rows: Seq<RowView>) -> Seq<int>
    decreases rows.len(),
{
    if rows.len() == 0 {
        Seq::empty()
    } else if is_change_row(rows.last()) {
        change_positions(rows.drop_last()).push(rows.len() - 1)
    } else {
        change_positions(rows.drop_last())
    }
}

/// The first position of `x` in `s`.
pub open spec fn position(s: Seq<int>, x: int) -> Option<int>
    decreases s.len(),
{
    if s.len() == 0 {
        None
    } else if s[0] == x {
        Some(0)
    } else {
        match position(s.drop_first(), x) {
            Some(i) => Some(i + 1),
            None => None,
        }
    }
}

/// `x` limited to `lo..=hi`.
pub open spec fn clamp(x: int, lo: int, hi: int) -> int {
    if x < lo {
        lo
    } else if x > hi {
        hi
    } else {
        x
    }
}

/// The selection after moving `delta` change rows from `selected`: connector
/// rows are skipped, and the move stops at the first and last change.
pub open spec fn spec_move_selection(rows: Seq<RowView>, selected: int, delta: int) -> int {
    let cs = change_positions(rows);
    if cs.len() == 0 {
        selected
    } else {
        let cur = match position(cs, selected) {
            Some(p) => p,
            None => 0,
        };
        cs[clamp(cur + delta, 0, cs.len() - 1)]
    }
}

/// The change at `selected`, if that row shows one.
pub open spec fn spec_selected(rows: Seq<RowView>, selected: int) -> Option<ChangeView> {
    if 0 <= selected < rows.len() && is_change_row(rows[selected]) {
        Some(row_change(rows[selected]))
    } else {
        None
    }
}

/// What the selection becomes when the rows are replaced: the row of the
/// same change if it is still there, else the first change, else 0.
pub open spec fn spec_reselect(rows: Seq<RowView>, keep: Option<ChangeView>) -> int {
    match keep {
        Some(c) => match index_of_id(rows, c.id) {
            Some(i) => i,
            None => match first_change(rows) {
                Some(i) => i,
                None => 0,
            },
        },
        None => match first_change(rows) {
            Some(i) => i,
            None => 0,
        },
    }
}

/// Characterises `first_change`.
pub proof fn lemma_first_change(rows: Seq<RowView>)
    ensures
        first_change(rows) matches Some(i) ==> 0 <= i < rows.len() && is_change_row(rows[i])
            && forall|j: int| 0 <= j < i ==> !is_change_row(#[trigger] rows[j]),
        first_change(rows) is None ==> forall|j: int|
            0 <= j < rows.len() ==> !is_change_row(#[trigger] rows[j]),
    decreases rows.len(),
{
    if rows.len() > 0 && !is_change_row(rows[0]) {
        lemma_first_change(rows.drop_first());
        assert forall|j: int| 0 < j < rows.len() implies rows[j] == rows.drop_first()[j - 1] by {}
    }
}

/// Characterises `last_change`.
pub proof fn lemma_last_change(rows: Seq<RowView>)
    ensures
        last_change(rows) matches Some(i) ==> 0 <= i < rows.len() && is_change_row(rows[i])
            && forall|j: int| i < j < rows.len() ==> !is_change_row(#[trigger] rows[j]),
        last_change(rows) is None ==> forall|j: int|
            0 <= j < rows.len() ==> !is_change_row(#[trigger] rows[j]),
    decreases rows.len(),
{
    if rows.len() > 0 && !is_change_row(rows.last()) {
        lemma_last_change(rows.drop_last());
        assert forall|j: int| 0 <= j < rows.len() - 1 implies rows[j] == rows.drop_last()[j] by {}
    }
}

/// Characterises `index_of_id`.
pub proof fn lemma_index_of_id(rows: Seq<RowView>, id: Seq<char>)
    ensures
        index_of_id(rows, id) matches Some(i) ==> 0 <= i < rows.len() && is_change_row(rows[i])
            && row_change(rows[i]).id == id && forall|j: int|
            0 <= j < i ==> !(is_change_row(#[trigger] rows[j]) && row_change(rows[j]).id == id),
        index_of_id(rows, id) is None ==> forall|j: int|
            0 <= j < rows.len() ==> !(is_change_row(#[trigger] rows[j]) && row_change(rows[j]).id
                == id),
    decreases rows.len(),
{
    if rows.len() > 0 && !(is_change_row(rows[0]) && row_change(rows[0]).id == id) {
        lemma_index_of_id(rows.drop_first(), id);
        assert forall|j: int| 0 < j < rows.len() implies rows[j] == rows.drop_first()[j - 1] by {}
    }
}

/// The change positions are exactly the indices of the change rows, in
/// ascending order.
pub proof fn lemma_change_positions(rows: Seq<RowView>)
    ensures
        forall|k: int|
            0 <= k < change_positions(rows).len() ==> 0 <= #[trigger] change_positions(rows)[k]
                < rows.len() && is_change_row(rows[change_positions(rows)[k]]),
        forall|a: int, b: int|
            0 <= a < b < change_positions(rows).len() ==> #[trigger] change_positions(rows)[a]
                < #[trigger] change_positions(rows)[b],
        forall|i: int|
            0 <= i < rows.len() && is_change_row(#[trigger] rows[i]) ==> change_positions(
                rows,
            ).contains(i),
        has_change(rows) ==> change_positions(rows).len() > 0,
    decreases rows.len(),
{
    if rows.len() > 0 {
        let d = rows.drop_last();
        lemma_change_positions(d);
        assert forall|j: int| 0 <= j < d.len() implies rows[j] == d[j] by {}
        let cs = change_positions(rows);
        let cd = change_positions(d);
        assert forall|i: int| 0 <= i < rows.len() && is_change_row(#[trigger] rows[i]) implies cs.contains(i) by {
            if i < d.len() {
                assert(is_change_row(d[i]));
                assert(cd.contains(i));
                let k = choose|k: int| 0 <= k < cd.len() && cd[k] == i;
                assert(cs[k] == i);
            } else {
                assert(cs[cs.len() - 1] == i);
            }
        }
        if has_change(rows) {
            let i = choose|i: int| 0 <= i < rows.len() && is_change_row(#[trigger] rows[i]);
            assert(cs.contains(i));
        }
    }
}

/// Where a value stands in a strictly increasing sequence.
pub proof fn lemma_position(s: Seq<int>, x: int)
    ensures
        position(s, x) matches Some(p) ==> 0 <= p < s.len() && s[p] == x && forall|j: int|
            0 <= j < p ==> #[trigger] s[j] != x,
        position(s, x) is None ==> !s.contains(x),
    decreases s.len(),
{
    if s.len() > 0 && s[0] != x {
        lemma_position(s.drop_first(), x);
        assert forall|j: int| 0 < j < s.len() implies s[j] == s.drop_first()[j - 1] by {}
        if s.contains(x) {
            let k = choose|k: int| 0 <= k < s.len() && s[k] == x;
            assert(s.drop_first()[k - 1] == x);
        }
    }
}

/// The state of the TUI.
pub struct App {
    pub jj: Jj,
    pub rows: Vec<Row>,
    /// An index into `rows`; it points at a change row whenever there is
    /// one (connector rows are skipped).
    pub selected: usize,
    pub revset: Option<String>,
    pub focus: Focus,
    pub mode: Mode,
    pub status: Status,
    /// The destination of squash and rebase, set with `m`.
    pub marked: Option<Change>,
    pub rebase_mode: RebaseMode,
    /// The files changed by the selected change.
    pub files: Vec<DiffFile>,
    /// An index into `files`; only that file's diff is shown.
    pub file_selected: usize,
    /// The commit whose files `files` lists.
    pub files_of: Option<String>,
    /// The commit whose header the diff pane shows.
    pub header_of: Option<String>,
    /// The commit and file (`None`: the whole change) whose diff the diff
    /// pane shows.
    pub diff_rendered: Option<(String, Option<String>)>,
    /// The header of the selected commit (`jj show`), coloured.
    pub header: Text<'static>,
    /// What the diff pane shows: the header and then the diff.
    pub diff: Text<'static>,
    pub diff_scroll: u16,
    pub working_copy: String,
    /// The command that generates messages (Ctrl-g); `None` when unset.
    pub ai_cmd: Option<String>,
    /// The editor command (`o`); `None` when unset.
    pub editor_cmd: Option<String>,
    /// The command the diff is piped through; `None` when unset.
    pub filter_cmd: Option<String>,
    pub layout: PaneLayout,
    /// The raw jj output of the commits looked at, most recently used
    /// last.
    pub store: DiffStore,
    /// Whether `files` was read successfully (a failure leaves it empty,
    /// and that is not cached).
    pub files_ok: bool,
    pub should_quit: bool,
}

pub struct AppView {
    pub root: Seq<char>,
    pub rows: Seq<RowView>,
    pub selected: int,
    pub revset: Option<Seq<char>>,
    pub focus: Focus,
    pub mode: ModeView,
    pub status: StatusView,
    pub marked: Option<ChangeView>,
    pub rebase_mode: RebaseMode,
    pub files: Seq<DiffFileView>,
    pub file_selected: int,
    pub files_of: Option<Seq<char>>,
    pub header_of: Option<Seq<char>>,
    pub diff_rendered: Option<(Seq<char>, Option<Seq<char>>)>,
    pub header: Seq<Seq<char>>,
    pub diff: Seq<Seq<char>>,
    pub diff_scroll: int,
    pub working_copy: Seq<char>,
    pub ai_cmd: Option<Seq<char>>,
    pub editor_cmd: Option<Seq<char>>,
    pub filter_cmd: Option<Seq<char>>,
    pub layout: PaneLayout,
    pub store: Seq<(String, CommitCache)>,
    pub files_ok: bool,
    pub should_quit: bool,
}

/// The view of an optional change.
pub open spec fn opt_change_view(c: Option<Change>) -> Option<ChangeView> {
    match c {
        Some(c) => Some(c@),
        None => None,
    }
}

/// The view of what the diff pane shows.
pub open spec fn rendered_view(d: Option<(String, Option<String>)>) -> Option<(Seq<char>, Option<Seq<char>>)> {
    match d {
        Some((c, p)) => Some((c@, opt_string_view(p))),
        None => None,
    }
}

impl View for App {
    type V = AppView;

    open spec fn view(&self) -> AppView {
        AppView {
            root: self.jj.spec_root(),
            rows: rows_view(self.rows@),
            selected: self.selected as int,
            revset: opt_string_view(self.revset),
            focus: self.focus,
            mode: self.mode@,
            status: self.status@,
            marked: opt_change_view(self.marked),
            rebase_mode: self.rebase_mode,
            files: files_view(self.files@),
            file_selected: self.file_selected as int,
            files_of: opt_string_view(self.files_of),
            header_of: opt_string_view(self.header_of),
            diff_rendered: rendered_view(self.diff_rendered),
            header: text_lines(self.header),
            diff: text_lines(self.diff),
            diff_scroll: self.diff_scroll as int,
            working_copy: self.working_copy@,
            ai_cmd: opt_string_view(self.ai_cmd),
            editor_cmd: opt_string_view(self.editor_cmd),
            filter_cmd: opt_string_view(self.filter_cmd),
            layout: self.layout,
            store: self.store.spec_entries(),
            files_ok: self.files_ok,
            should_quit: self.should_quit,
        }
    }
}

// ---------------------------------------------------------------------------
// The state machine, stated over views
// ---------------------------------------------------------------------------

/// The selection points at a change row whenever there is one, and the
/// file selection is inside the file list.
pub open spec fn spec_wf(v: AppView) -> bool {
    &&& has_change(v.rows) ==> 0 <= v.selected < v.rows.len() && is_change_row(v.rows[v.selected])
    &&& v.files.len() == 0 ==> v.file_selected == 0
    &&& v.files.len() > 0 ==> 0 <= v.file_selected < v.files.len()
}

/// The selected change.
pub open spec fn sel(v: AppView) -> Option<ChangeView> {
    spec_selected(v.rows, v.selected)
}

pub open spec fn info(t: Seq<char>) -> StatusView {
    StatusView { text: t, kind: StatusKind::Info }
}

pub open spec fn error(t: Seq<char>) -> StatusView {
    StatusView { text: t, kind: StatusKind::Error }
}

/// Reloading the log (and the working-copy status) of `v`.
pub open spec fn reload_effect(v: AppView, purpose: ReloadPurpose) -> EffectView {
    EffectView::Reload {
        purpose,
        log: crate::jj::log_call(v.root, v.revset),
        status: crate::jj::status_line_call(v.root),
    }
}

/// Running a rewriting command.
pub open spec fn run(label: Seq<char>, call: JjCallView) -> EffectView {
    EffectView::Run { label, call }
}

/// The diff scroll after scrolling `delta` lines.
pub open spec fn spec_scroll(v: AppView, delta: int) -> int {
    (clamp(v.diff_scroll + delta, 0, if v.diff.len() > 0 { v.diff.len() - 1 } else { 0 }) as u16) as int
}

/// The file selection after moving it `delta` entries.
pub open spec fn spec_move_file(v: AppView, delta: int) -> int {
    if v.files.len() == 0 {
        v.file_selected
    } else {
        clamp(v.file_selected + delta, 0, v.files.len() - 1)
    }
}

/// Moving whatever the focused pane moves: the log selection, the file
/// selection or the diff scroll.
pub open spec fn spec_step(v: AppView, delta: int) -> AppView {
    match v.focus {
        Focus::Log => AppView { selected: spec_move_selection(v.rows, v.selected, delta), ..v },
        Focus::Files => AppView { file_selected: spec_move_file(v, delta), ..v },
        Focus::Diff => AppView { diff_scroll: spec_scroll(v, delta), ..v },
    }
}

/// `g`: the first change, the first file, or the top of the diff.
pub open spec fn spec_first(v: AppView) -> AppView {
    match v.focus {
        Focus::Log => AppView {
            selected: match first_change(v.rows) {
                Some(i) => i,
                None => v.selected,
            },
            ..v
        },
        Focus::Files => AppView { file_selected: 0, ..v },
        Focus::Diff => AppView { diff_scroll: 0, ..v },
    }
}

/// `G`: the last change, the last file, or the bottom of the diff.
pub open spec fn spec_last(v: AppView) -> AppView {
    match v.focus {
        Focus::Log => AppView {
            selected: match last_change(v.rows) {
                Some(i) => i,
                None => v.selected,
            },
            ..v
        },
        Focus::Files => AppView {
            file_selected: if v.files.len() > 0 {
                v.files.len() - 1
            } else {
                0
            },
            ..v
        },
        Focus::Diff => AppView { diff_scroll: spec_scroll(v, (isize::MAX / 2) as int), ..v },
    }
}

/// The status that reports the revset in use.
pub open spec fn revset_text(r: Option<Seq<char>>) -> Seq<char> {
    match r {
        Some(x) => "revset: "@ + x,
        None => "revset: (jj default)"@,
    }
}

/// `A`: switches the revset between `all()` and jj's default.
pub open spec fn toggled_revset(r: Option<Seq<char>>) -> Option<Seq<char>> {
    match r {
        Some(x) => if x == "all()"@ {
            None
        } else {
            Some("all()"@)
        },
        None => Some("all()"@),
    }
}

/// `m`: marks the selected change as the destination, or clears the mark
/// when it is already the marked one.
pub open spec fn spec_toggle_mark(v: AppView) -> AppView {
    match sel(v) {
        None => v,
        Some(c) => match v.marked {
            Some(m) => if m.id == c.id {
                AppView { marked: None, status: info("mark cleared"@), ..v }
            } else {
                AppView { marked: Some(c), status: info("marked "@ + c.short_id + " as target"@), ..v }
            },
            None => AppView { marked: Some(c), status: info("marked "@ + c.short_id + " as target"@), ..v },
        },
    }
}

/// An input prompt.
pub open spec fn input_mode(prompt: Seq<char>, value: Seq<char>, action: InputActionView) -> ModeView {
    ModeView::Input(InputView { prompt, value, action })
}

/// A confirmation dialog.
pub open spec fn confirm_mode(prompt: Seq<char>, action: ConfirmActionView) -> ModeView {
    ModeView::Confirm(ConfirmView { prompt, action })
}

/// `s`: asks to squash the selected change into the marked one.
pub open spec fn spec_confirm_squash(v: AppView) -> AppView {
    match sel(v) {
        None => v,
        Some(c) => match v.marked {
            None => AppView { status: error("squash: mark a destination with `m` first"@), ..v },
            Some(m) => if m.id == c.id {
                AppView { status: error("squash: source and destination are the same change"@), ..v }
            } else {
                AppView {
                    mode: confirm_mode(
                        "squash "@ + c.short_id + " into "@ + m.short_id + " ("@ + spec_summary(
                            m.description,
                        ) + ")?"@,
                        ConfirmActionView::Squash { from: c.id, into: m.id },
                    ),
                    ..v
                }
            },
        },
    }
}

/// `x`: asks to rebase the selected change onto the marked one, or, with
/// no mark, asks for a destination revset.
pub open spec fn spec_confirm_rebase(v: AppView) -> AppView {
    match sel(v) {
        None => v,
        Some(c) => match v.marked {
            Some(m) => AppView {
                mode: confirm_mode(
                    "rebase "@ + c.short_id + " onto "@ + m.short_id + " ["@ + spec_label(v.rebase_mode)
                        + "]?"@,
                    ConfirmActionView::Rebase { rev: c.id, onto: m.id, mode: v.rebase_mode },
                ),
                ..v
            },
            None => AppView {
                mode: input_mode(
                    "rebase "@ + c.short_id + " onto (revset) ["@ + spec_label(v.rebase_mode) + "]"@,
                    Seq::empty(),
                    InputActionView::RebaseOnto { rev: c.id, mode: v.rebase_mode },
                ),
                ..v
            },
        },
    }
}

/// The name of a pane layout.
pub open spec fn layout_name(l: PaneLayout) -> Seq<char> {
    match l {
        PaneLayout::Stacked => "stacked"@,
        PaneLayout::DiffBelow => "diff-below"@,
    }
}

/// The other pane layout.
pub open spec fn toggled_layout(l: PaneLayout) -> PaneLayout {
    match l {
        PaneLayout::Stacked => PaneLayout::DiffBelow,
        PaneLayout::DiffBelow => PaneLayout::Stacked,
    }
}

/// The selected change and the path (the new side of a rename) of the
/// selected file, when the files pane has the focus and both exist.
pub open spec fn file_target(v: AppView) -> Option<(ChangeView, Seq<char>)> {
    if v.focus == Focus::Files && sel(v) is Some && selected_path(v) is Some {
        Some((sel(v)->0, spec_target_path(selected_path(v)->0)))
    } else {
        None
    }
}

/// `r` in the files pane: asks to discard the selected file's change.
pub open spec fn spec_confirm_restore(v: AppView) -> AppView {
    match file_target(v) {
        Some((c, p)) => AppView {
            mode: confirm_mode(
                "restore "@ + p + " in "@ + c.short_id + " (discard its change)?"@,
                ConfirmActionView::Restore { rev: c.id, path: p },
            ),
            ..v
        },
        None => v,
    }
}

/// `p` in the files pane: asks to absorb the selected file's change into
/// the ancestors.
pub open spec fn spec_confirm_absorb(v: AppView) -> AppView {
    match file_target(v) {
        Some((c, p)) => AppView {
            mode: confirm_mode(
                "absorb "@ + p + " from "@ + c.short_id + " into its ancestors?"@,
                ConfirmActionView::Absorb { rev: c.id, path: p },
            ),
            ..v
        },
        None => v,
    }
}

/// `o` in the files pane: opens the selected file in the editor, or says
/// that no editor is set.
pub open spec fn spec_open_file(v: AppView) -> (AppView, EffectView) {
    match file_target(v) {
        Some((_c, p)) => match v.editor_cmd {
            Some(e) => (v, EffectView::OpenEditor { editor: e, path: v.root + "/"@ + p }),
            None => (AppView { status: error("open: set $EDITOR or $VISUAL"@), ..v }, EffectView::Nothing),
        },
        None => (v, EffectView::Nothing),
    }
}

/// A key in normal mode.
pub open spec fn spec_normal(v: AppView, k: Key) -> (AppView, EffectView) {
    if k.code == KeyCode::Char('q') || k.code == KeyCode::Esc {
        (AppView { should_quit: true, ..v }, EffectView::Nothing)
    } else if k.code == KeyCode::Char('c') && k.ctrl {
        (AppView { should_quit: true, ..v }, EffectView::Nothing)
    } else if k.code == KeyCode::Char('?') {
        (AppView { mode: ModeView::Help, ..v }, EffectView::Nothing)
    } else if k.code == KeyCode::Tab {
        (
            AppView {
                focus: match v.focus {
                    Focus::Log => Focus::Files,
                    Focus::Files => Focus::Diff,
                    Focus::Diff => Focus::Log,
                },
                ..v
            },
            EffectView::Nothing,
        )
    } else if k.code == KeyCode::Char('d') && k.ctrl {
        (spec_step(v, PAGE as int), EffectView::Nothing)
    } else if k.code == KeyCode::Char('u') && k.ctrl {
        (spec_step(v, -(PAGE as int)), EffectView::Nothing)
    } else if k.code == KeyCode::Char('j') || k.code == KeyCode::Down {
        (spec_step(v, 1), EffectView::Nothing)
    } else if k.code == KeyCode::Char('k') || k.code == KeyCode::Up {
        (spec_step(v, -1), EffectView::Nothing)
    } else if k.code == KeyCode::Char('g') || k.code == KeyCode::Home {
        (spec_first(v), EffectView::Nothing)
    } else if k.code == KeyCode::Char('G') || k.code == KeyCode::End {
        (spec_last(v), EffectView::Nothing)
    } else if k.code == KeyCode::Char('r') && k.ctrl {
        (v, reload_effect(v, ReloadPurpose::Manual))
    } else if k.code == KeyCode::Char('/') {
        (
            AppView {
                mode: input_mode(
                    "revset"@,
                    match v.revset {
                        Some(r) => r,
                        None => Seq::empty(),
                    },
                    InputActionView::Revset,
                ),
                ..v
            },
            EffectView::Nothing,
        )
    } else if k.code == KeyCode::Char('A') {
        let v1 = AppView { revset: toggled_revset(v.revset), ..v };
        (v1, reload_effect(v1, ReloadPurpose::Revset))
    } else if k.code == KeyCode::Char('m') {
        (spec_toggle_mark(v), EffectView::Nothing)
    } else if k.code == KeyCode::BackTab {
        (
            AppView {
                focus: match v.focus {
                    Focus::Log => Focus::Diff,
                    Focus::Files => Focus::Log,
                    Focus::Diff => Focus::Files,
                },
                ..v
            },
            EffectView::Nothing,
        )
    } else if k.code == KeyCode::Char('L') {
        (
            AppView {
                layout: toggled_layout(v.layout),
                status: info("layout: "@ + layout_name(toggled_layout(v.layout))),
                ..v
            },
            EffectView::Nothing,
        )
    } else if k.code == KeyCode::Char('R') {
        (
            AppView {
                rebase_mode: spec_next(v.rebase_mode),
                status: info("rebase mode: "@ + spec_label(spec_next(v.rebase_mode))),
                ..v
            },
            EffectView::Nothing,
        )
    } else {
        spec_change_key(v, k)
    }
}

/// The keys of normal mode that act on the selected change or file.
pub open spec fn spec_change_key(v: AppView, k: Key) -> (AppView, EffectView) {
    if k.code == KeyCode::Enter {
        match sel(v) {
            Some(c) => (v, run("edit"@, crate::jj::edit_call(v.root, c.id))),
            None => (v, EffectView::Nothing),
        }
    } else if k.code == KeyCode::Char('n') {
        match sel(v) {
            Some(c) => (
                AppView {
                    mode: input_mode(
                        "new child of "@ + c.short_id + " (description, may be empty)"@,
                        Seq::empty(),
                        InputActionView::NewChild { rev: c.id },
                    ),
                    ..v
                },
                EffectView::Nothing,
            ),
            None => (v, EffectView::Nothing),
        }
    } else if k.code == KeyCode::Char('e') {
        match sel(v) {
            Some(c) => (
                AppView {
                    mode: input_mode(
                        "describe "@ + c.short_id,
                        c.description,
                        InputActionView::Describe { rev: c.id },
                    ),
                    ..v
                },
                EffectView::Nothing,
            ),
            None => (v, EffectView::Nothing),
        }
    } else if k.code == KeyCode::Char('s') {
        (spec_confirm_squash(v), EffectView::Nothing)
    } else if k.code == KeyCode::Char('b') {
        match sel(v) {
            Some(c) => (
                AppView {
                    mode: input_mode(
                        "bookmark name for "@ + c.short_id,
                        if c.bookmarks.len() > 0 {
                            c.bookmarks[0]
                        } else {
                            Seq::empty()
                        },
                        InputActionView::Bookmark { rev: c.id },
                    ),
                    ..v
                },
                EffectView::Nothing,
            ),
            None => (v, EffectView::Nothing),
        }
    } else if k.code == KeyCode::Char('a') {
        match sel(v) {
            Some(c) => (
                AppView {
                    mode: confirm_mode(
                        "abandon "@ + c.short_id + " ("@ + spec_summary(c.description) + ")?"@,
                        ConfirmActionView::Abandon { rev: c.id },
                    ),
                    ..v
                },
                EffectView::Nothing,
            ),
            None => (v, EffectView::Nothing),
        }
    } else if k.code == KeyCode::Char('x') {
        (spec_confirm_rebase(v), EffectView::Nothing)
    } else if k.code == KeyCode::Char('u') {
        (
            AppView {
                mode: confirm_mode("undo the last jj operation?"@, ConfirmActionView::Undo),
                ..v
            },
            EffectView::Nothing,
        )
    } else if k.code == KeyCode::Char('U') {
        (
            AppView {
                mode: confirm_mode("redo the undone jj operation?"@, ConfirmActionView::Redo),
                ..v
            },
            EffectView::Nothing,
        )
    } else if k.code == KeyCode::Char('r') {
        (spec_confirm_restore(v), EffectView::Nothing)
    } else if k.code == KeyCode::Char('p') {
        (spec_confirm_absorb(v), EffectView::Nothing)
    } else if k.code == KeyCode::Char('o') {
        spec_open_file(v)
    } else {
        (v, EffectView::Nothing)
    }
}

/// Runs a confirmed action.
pub open spec fn spec_submit_confirm(v: AppView, a: ConfirmActionView) -> (AppView, EffectView) {
    match a {
        ConfirmActionView::Abandon { rev } => (v, run("abandon"@, crate::jj::abandon_call(v.root, rev))),
        ConfirmActionView::Squash { from, into } => (
            v,
            run("squash"@, crate::jj::squash_call(v.root, from, into)),
        ),
        ConfirmActionView::Rebase { rev, onto, mode } => (
            v,
            run("rebase"@, crate::jj::rebase_call(v.root, rev, onto, mode)),
        ),
        ConfirmActionView::Restore { rev, path } => (
            v,
            run("restore"@, crate::jj::restore_file_call(v.root, rev, path)),
        ),
        ConfirmActionView::Absorb { rev, path } => (
            v,
            run("absorb"@, crate::jj::absorb_file_call(v.root, rev, path)),
        ),
        ConfirmActionView::Undo => (v, run("undo"@, crate::jj::undo_call(v.root))),
        ConfirmActionView::Redo => (v, run("redo"@, crate::jj::redo_call(v.root))),
    }
}

/// Runs a confirmed input.
pub open spec fn spec_submit_input(v: AppView, i: InputView) -> (AppView, EffectView) {
    match i.action {
        InputActionView::Describe { rev } => (
            v,
            run("describe"@, crate::jj::describe_call(v.root, rev, i.value)),
        ),
        InputActionView::NewChild { rev } => (
            v,
            run(
                "new"@,
                crate::jj::new_child_call(
                    v.root,
                    rev,
                    if i.value.len() > 0 {
                        Some(i.value)
                    } else {
                        None
                    },
                ),
            ),
        ),
        InputActionView::Bookmark { rev } => if trim(i.value).len() == 0 {
            (AppView { status: error("bookmark: empty name"@), ..v }, EffectView::Nothing)
        } else {
            (v, run("bookmark set"@, crate::jj::bookmark_set_call(v.root, trim(i.value), rev)))
        },
        InputActionView::RebaseOnto { rev, mode } => if trim(i.value).len() == 0 {
            (AppView { status: error("rebase: empty destination"@), ..v }, EffectView::Nothing)
        } else {
            (v, run("rebase"@, crate::jj::rebase_call(v.root, rev, trim(i.value), mode)))
        },
        InputActionView::Revset => {
            let v1 = AppView {
                revset: if trim(i.value).len() == 0 {
                    None
                } else {
                    Some(trim(i.value))
                },
                ..v
            };
            (v1, reload_effect(v1, ReloadPurpose::Revset))
        },
    }
}

/// Ctrl-g in an input: asks for a message generated from the diff of the
/// revision the input describes.
pub open spec fn spec_fill_ai(v: AppView, i: InputView) -> (AppView, EffectView) {
    match spec_ai_rev(i.action) {
        None => (
            AppView {
                status: error("ai: not available for this prompt"@),
                mode: ModeView::Input(i),
                ..v
            },
            EffectView::Nothing,
        ),
        Some(rev) => match v.ai_cmd {
            None => (
                AppView {
                    status: error("ai: "@ + AI_CMD_ENV@ + " is not set"@),
                    mode: ModeView::Input(i),
                    ..v
                },
                EffectView::Nothing,
            ),
            Some(cmd) => (
                AppView { mode: ModeView::Input(i), ..v },
                EffectView::Ai { cmd, diff: crate::jj::diff_plain_call(v.root, rev) },
            ),
        },
    }
}

/// The input with its value replaced.
pub open spec fn with_value(i: InputView, value: Seq<char>) -> ModeView {
    ModeView::Input(InputView { value, ..i })
}

/// A key in an input.
pub open spec fn spec_input(v: AppView, k: Key, i: InputView) -> (AppView, EffectView) {
    if k.code == KeyCode::Esc {
        (AppView { status: info("cancelled"@), ..v }, EffectView::Nothing)
    } else if k.code == KeyCode::Enter {
        spec_submit_input(v, i)
    } else if k.code == KeyCode::Backspace {
        (
            AppView {
                mode: with_value(
                    i,
                    if i.value.len() > 0 {
                        i.value.drop_last()
                    } else {
                        i.value
                    },
                ),
                ..v
            },
            EffectView::Nothing,
        )
    } else if k.code == KeyCode::Char('u') && k.ctrl {
        (AppView { mode: with_value(i, Seq::empty()), ..v }, EffectView::Nothing)
    } else if k.code == KeyCode::Char('g') && k.ctrl {
        spec_fill_ai(v, i)
    } else {
        match k.code {
            KeyCode::Char(c) => (AppView { mode: with_value(i, i.value.push(c)), ..v }, EffectView::Nothing),
            _ => (AppView { mode: ModeView::Input(i), ..v }, EffectView::Nothing),
        }
    }
}

/// A key in a confirmation dialog: only `y`, `Y` and Enter confirm; any
/// other key cancels.
pub open spec fn spec_confirm(v: AppView, k: Key, c: ConfirmView) -> (AppView, EffectView) {
    if k.code == KeyCode::Char('y') || k.code == KeyCode::Char('Y') || k.code == KeyCode::Enter {
        spec_submit_confirm(v, c.action)
    } else {
        (AppView { status: info("cancelled"@), ..v }, EffectView::Nothing)
    }
}

/// A key event. Only presses count; a dialog or input closes before the
/// key is handled, and the help overlay closes on any key (`?` and Esc do
/// nothing more; other keys act as in normal mode).
pub open spec fn spec_handle_key(v: AppView, k: Key) -> (AppView, EffectView) {
    if !k.press {
        (v, EffectView::Nothing)
    } else {
        let v0 = AppView { mode: ModeView::Normal, ..v };
        match v.mode {
            ModeView::Normal => spec_normal(v0, k),
            ModeView::Help => if k.code != KeyCode::Char('?') && k.code != KeyCode::Esc {
                spec_normal(v0, k)
            } else {
                (v0, EffectView::Nothing)
            },
            ModeView::Input(i) => spec_input(v0, k, i),
            ModeView::Confirm(c) => spec_confirm(v0, k, c),
        }
    }
}

/// The first line that is not blank.
pub open spec fn first_nonblank(ls: Seq<Seq<char>>) -> Option<Seq<char>>
    decreases ls.len(),
{
    if ls.len() == 0 {
        None
    } else if trim(ls[0]).len() > 0 {
        Some(ls[0])
    } else {
        first_nonblank(ls.drop_first())
    }
}

/// A multi-line error folded onto the one line of the status bar: its
/// non-blank lines, trimmed, joined with ` | `.
pub open spec fn folded_error(e: Seq<char>) -> Seq<char> {
    folded(e, " | "@)
}

/// The report of a jj command: on success the first non-blank line of
/// its output (which says what happened) and a reload; on failure the
/// folded error.
pub open spec fn spec_report(v: AppView, label: Seq<char>, result: Result<Seq<char>, Seq<char>>) -> (
    AppView,
    EffectView,
) {
    match result {
        Ok(out) => (
            AppView {
                status: info(
                    match first_nonblank(lines(out)) {
                        Some(d) => label + ": "@ + d,
                        None => label,
                    },
                ),
                ..v
            },
            reload_effect(v, ReloadPurpose::AfterCommand),
        ),
        Err(e) => (
            AppView { status: error(label + " failed: "@ + folded_error(e)), ..v },
            EffectView::Nothing,
        ),
    }
}

/// The state after the log is replaced by `log` (the output of `jj log`)
/// and the working-copy status by `status` (`None` when it could not be
/// read): the selection follows the change it was on, and a mark on a
/// change that is gone is dropped.
pub open spec fn spec_apply_reload(v: AppView, log: Seq<char>, status: Option<Seq<char>>) -> AppView {
    let rows = spec_parse_log(log);
    AppView {
        rows,
        selected: spec_reselect(rows, sel(v)),
        working_copy: match status {
            Some(s) => trim(s),
            None => Seq::empty(),
        },
        marked: match v.marked {
            Some(m) => if index_of_id(rows, m.id) is Some {
                Some(m)
            } else {
                None
            },
            None => None,
        },
        files_of: None,
        header_of: None,
        ..v
    }
}

/// The state after a reload finished with `outcome`.
pub open spec fn spec_finish_reload(
    v: AppView,
    purpose: ReloadPurpose,
    outcome: Result<(Seq<char>, Option<Seq<char>>), Seq<char>>,
) -> AppView {
    match outcome {
        Ok((log, status)) => {
            let v1 = spec_apply_reload(v, log, status);
            match purpose {
                ReloadPurpose::AfterCommand => v1,
                ReloadPurpose::Manual => AppView { status: info("reloaded"@), ..v1 },
                ReloadPurpose::Revset => AppView { status: info(revset_text(v1.revset)), ..v1 },
            }
        },
        Err(e) => match purpose {
            ReloadPurpose::Revset => AppView { status: error("revset failed: "@ + e), ..v },
            _ => AppView { status: error("reload failed: "@ + e), ..v },
        },
    }
}

/// The state after message generation finished: the message replaces
/// the value of the input.
pub open spec fn spec_finish_ai(v: AppView, result: Result<Seq<char>, Seq<char>>) -> AppView {
    match result {
        Ok(msg) => AppView {
            mode: match v.mode {
                ModeView::Input(i) => with_value(i, msg),
                m => m,
            },
            status: info("ai: message generated"@),
            ..v
        },
        Err(e) => AppView { status: error("ai: "@ + e), ..v },
    }
}

pub enum DiffRequestView {
    Clear,
    Files { commit_id: Seq<char>, call: JjCallView },
    Header { commit_id: Seq<char>, source: SourceView },
    Diff { commit_id: Seq<char>, path: Option<Seq<char>>, source: SourceView, filter: Option<Seq<char>> },
    Done,
}

impl View for DiffRequest {
    type V = DiffRequestView;

    open spec fn view(&self) -> DiffRequestView {
        match self {
            DiffRequest::Clear => DiffRequestView::Clear,
            DiffRequest::Files { commit_id, call } => DiffRequestView::Files {
                commit_id: commit_id@,
                call: call@,
            },
            DiffRequest::Header { commit_id, source } => DiffRequestView::Header {
                commit_id: commit_id@,
                source: source@,
            },
            DiffRequest::Diff { commit_id, path, source, filter } => DiffRequestView::Diff {
                commit_id: commit_id@,
                path: opt_string_view(*path),
                source: source@,
                filter: opt_string_view(*filter),
            },
            DiffRequest::Done => DiffRequestView::Done,
        }
    }
}

/// The path of the selected file.
pub open spec fn selected_path(v: AppView) -> Option<Seq<char>> {
    if 0 <= v.file_selected < v.files.len() {
        Some(v.files[v.file_selected].path)
    } else {
        None
    }
}

/// What the diff pane still needs for the selection: first the file list
/// and the header of a newly selected commit, then the diff of the
/// selected file. Each is fetched once per commit (and file), so moving
/// between files runs one jj command, not three.
pub open spec fn spec_sync(v: AppView) -> (AppView, DiffRequestView) {
    match sel(v) {
        None => (
            AppView {
                files: Seq::empty(),
                file_selected: 0,
                files_of: None,
                files_ok: false,
                header_of: None,
                header: Seq::empty(),
                diff_rendered: None,
                diff: Seq::empty(),
                ..v
            },
            DiffRequestView::Clear,
        ),
        Some(c) => if v.files_of != Some(c.commit_id) {
            match cached_entry(v.store, c.commit_id) {
                Some(e) => sync_listed(
                    AppView {
                        files: files_view(e.files@),
                        file_selected: 0,
                        files_of: Some(c.commit_id),
                        files_ok: true,
                        store: spec_touch(v.store, c.commit_id),
                        ..v
                    },
                    c,
                ),
                None => (
                    v,
                    DiffRequestView::Files {
                        commit_id: c.commit_id,
                        call: crate::jj::diff_summary_call(v.root, c.id),
                    },
                ),
            }
        } else {
            sync_listed(v, c)
        },
    }
}

/// The rest of [`spec_sync`] once the files of the selected change `c`
/// are listed: its header, then the diff of the selected file, each from
/// the cache when it is there.
pub open spec fn sync_listed(v: AppView, c: ChangeView) -> (AppView, DiffRequestView) {
    if v.header_of != Some(c.commit_id) {
        (
            v,
            DiffRequestView::Header {
                commit_id: c.commit_id,
                source: match cached_entry(v.store, c.commit_id) {
                    Some(e) => SourceView::Cached(e.header_raw@),
                    None => SourceView::Run(crate::jj::show_call(v.root, c.id)),
                },
            },
        )
    } else if v.diff_rendered == Some((c.commit_id, selected_path(v))) {
        (v, DiffRequestView::Done)
    } else {
        (
            v,
            DiffRequestView::Diff {
                commit_id: c.commit_id,
                path: selected_path(v),
                source: match cached_entry(v.store, c.commit_id) {
                    Some(e) => match e.cached_diff(selected_path(v)) {
                        Some(d) => SourceView::Cached(d),
                        None => SourceView::Run(crate::jj::diff_call(v.root, c.id, selected_path(v))),
                    },
                    None => SourceView::Run(crate::jj::diff_call(v.root, c.id, selected_path(v))),
                },
                filter: v.filter_cmd,
            },
        )
    }
}

/// The state once the file list of `commit_id` is read (`Err`: jj failed,
/// which leaves the list empty).
pub open spec fn spec_files_loaded(v: AppView, commit_id: Seq<char>, out: Result<Seq<char>, Seq<char>>) -> AppView {
    AppView {
        files: match out {
            Ok(o) => spec_parse_diff_summary(o),
            Err(_) => Seq::empty(),
        },
        file_selected: 0,
        files_of: Some(commit_id),
        files_ok: out is Ok,
        ..v
    }
}

/// The state once the header of `commit_id` is shown as `text`.
pub open spec fn spec_header_loaded(v: AppView, commit_id: Seq<char>, text: Seq<Seq<char>>) -> AppView {
    AppView { header_of: Some(commit_id), header: text, ..v }
}

/// The state once the diff of `path` in `commit_id` is shown as `text`:
/// it is scrolled to the top.
pub open spec fn spec_diff_loaded(v: AppView, commit_id: Seq<char>, path: Option<Seq<char>>, text: Seq<Seq<char>>) -> AppView {
    AppView { diff_rendered: Some((commit_id, path)), diff_scroll: 0, diff: text, ..v }
}

/// `text` is what the header pane shows for what `jj show` gave: the
/// coloured output, or the error.
pub open spec fn header_text(out: Result<Seq<char>, Seq<char>>, text: Seq<Seq<char>>) -> bool {
    match out {
        Ok(s) => text == ansi_lines(s),
        Err(e) => text == raw_lines(e),
    }
}

/// `store` is the cache after the header of `commit_id` came as `out`: a
/// new entry with the listed files and the header, when both were read
/// and the commit is not cached yet; otherwise the cache as it was.
pub open spec fn header_cached(
    v: AppView,
    commit_id: Seq<char>,
    out: Result<Seq<char>, Seq<char>>,
    store: Seq<(String, CommitCache)>,
) -> bool {
    match out {
        Ok(raw) => if v.files_of == Some(commit_id) && v.files_ok && cached_entry(v.store, commit_id) is None {
            exists|k: String, e: CommitCache|
                #![trigger spec_insert(v.store, (k, e))]
                k@ == commit_id && files_view(e.files@) == v.files && e.header_raw@ == raw
                    && e.diffs_raw@.len() == 0 && store == spec_insert(v.store, (k, e))
        } else {
            store == v.store
        },
        Err(_) => store == v.store,
    }
}

/// `store` is the cache after the diff of `path` in `commit_id` came as
/// `out`: when the commit is cached and the diff was read, its entry
/// keeps the diff for `path`, and nothing else changes.
pub open spec fn diff_cached(
    es: Seq<(String, CommitCache)>,
    commit_id: Seq<char>,
    path: Option<Seq<char>>,
    out: Result<Seq<char>, Seq<char>>,
    store: Seq<(String, CommitCache)>,
) -> bool {
    match (out, key_index(es, commit_id)) {
        (Ok(raw), Some(i)) => store.len() == es.len() && (forall|j: int|
            0 <= j < es.len() && j != i ==> #[trigger] store[j] == es[j]) && store[i].0 == es[i].0
            && store[i].1.files == es[i].1.files && store[i].1.header_raw == es[i].1.header_raw
            && store[i].1.cached_diff(path) == Some(raw) && (forall|p: Option<Seq<char>>|
            p != path ==> #[trigger] store[i].1.cached_diff(p) == es[i].1.cached_diff(p)),
        _ => store == es,
    }
}

/// What the diff pane shows of a diff read as `raw` and, with a filter,
/// filtered as `filtered`: the filtered text, or, when the filter failed
/// or there is none, the raw one.
pub open spec fn shown_diff(
    raw: Result<Seq<char>, Seq<char>>,
    filtered: Option<Result<Seq<char>, Seq<char>>>,
) -> Result<Seq<char>, Seq<char>> {
    match (raw, filtered) {
        (Ok(_), Some(Ok(t))) => Ok(t),
        _ => raw,
    }
}

/// The status after a diff was shown: a failed filter is reported (the
/// raw diff is shown in its place).
pub open spec fn diff_status(
    v: AppView,
    raw: Result<Seq<char>, Seq<char>>,
    filtered: Option<Result<Seq<char>, Seq<char>>>,
) -> StatusView {
    match (raw, filtered) {
        (Ok(_), Some(Err(e))) => error("diff filter: "@ + folded(e, " | "@)),
        _ => v.status,
    }
}

/// `text` is what the diff pane shows below `header` for what `jj diff`
/// gave: `(no changes)` for a blank diff, the coloured diff, or the error
/// alone.
pub open spec fn diff_text(header: Seq<Seq<char>>, out: Result<Seq<char>, Seq<char>>, text: Seq<Seq<char>>) -> bool {
    match out {
        Ok(d) => if trim(d).len() == 0 {
            text == header.push("(no changes)"@)
        } else {
            text == header + ansi_lines(d)
        },
        Err(e) => text == raw_lines(e),
    }
}


impl App {
    /// The invariant of the state: see [`spec_wf`]; the cache keeps its
    /// own.
    pub open spec fn wf(&self) -> bool {
        spec_wf(self@) && self.store.wf()
    }

    /// A state with an empty log, before the first reload; `ai_cmd` is
    /// kept only when it is not blank.
    pub fn new(
        jj: Jj,
        revset: Option<String>,
        ai_cmd: Option<String>,
        editor_cmd: Option<String>,
        filter_cmd: Option<String>,
        store: DiffStore,
    ) -> (r: App)
        requires
            store.wf(),
        ensures
            r.wf(),
            r.jj == jj,
            r@.rows.len() == 0,
            r@.selected == 0,
            r@.revset == opt_string_view(revset),
            r@.focus == Focus::Log,
            r@.mode == ModeView::Normal,
            r@.status == info("? for help"@),
            r@.marked is None,
            r@.rebase_mode == RebaseMode::Revision,
            r@.files.len() == 0,
            r@.file_selected == 0,
            r@.files_of is None,
            r@.header_of is None,
            r@.diff_rendered is None,
            r@.header.len() == 0,
            r@.diff.len() == 0,
            r@.diff_scroll == 0,
            r@.working_copy.len() == 0,
            r@.ai_cmd == (match opt_string_view(ai_cmd) {
                Some(c) => if trim(c).len() == 0 {
                    None
                } else {
                    Some(c)
                },
                None => None,
            }),
            r@.editor_cmd == opt_string_view(editor_cmd),
            r@.filter_cmd == opt_string_view(filter_cmd),
            r@.layout == PaneLayout::Stacked,
            r.store == store,
            !r@.files_ok,
            !r@.should_quit,
    {
        let ai_cmd = match ai_cmd {
            Some(c) => {
                let t = trim_str(c.as_str());
                if t.as_str().is_empty() {
                    None
                } else {
                    Some(c)
                }
            },
            None => None,
        };
        let r = App {
            jj,
            rows: Vec::new(),
            selected: 0,
            revset,
            focus: Focus::Log,
            mode: Mode::Normal,
            status: Status::info(String::from_str("? for help")),
            marked: None,
            rebase_mode: RebaseMode::Revision,
            files: Vec::new(),
            file_selected: 0,
            files_of: None,
            header_of: None,
            diff_rendered: None,
            header: empty_text(),
            diff: empty_text(),
            diff_scroll: 0,
            working_copy: String::new(),
            ai_cmd,
            editor_cmd,
            filter_cmd,
            layout: PaneLayout::Stacked,
            store,
            files_ok: false,
            should_quit: false,
        };
        assert(r@.rows =~= Seq::<RowView>::empty());
        assert(r@.files =~= Seq::<DiffFileView>::empty());
        r
    }

    /// The selected change.
    pub fn selected_change(&self) -> (r: Option<&Change>)
        ensures
            match r {
                Some(c) => sel(self@) == Some(c@),
                None => sel(self@) is None,
            },
    {
        if self.selected < self.rows.len() {
            match &self.rows[self.selected] {
                Row::Change { change, .. } => {
                    assert(self@.rows[self.selected as int] == self.rows@[self.selected as int]@);
                    Some(change)
                },
                Row::Connector(_) => {
                    assert(self@.rows[self.selected as int] == self.rows@[self.selected as int]@);
                    None
                },
            }
        } else {
            None
        }
    }

    /// The index of the first change row.
    fn first_change_index(&self) -> (r: Option<usize>)
        ensures
            match r {
                Some(i) => first_change(self@.rows) == Some(i as int),
                None => first_change(self@.rows) is None,
            },
    {
        let ghost rv = self@.rows;
        let mut i: usize = 0;
        while i < self.rows.len()
            invariant
                i <= self.rows@.len(),
                rv == rows_view(self.rows@),
                forall|j: int| 0 <= j < i ==> !is_change_row(#[trigger] rv[j]),
            decreases self.rows@.len() - i,
        {
            assert(rv[i as int] == self.rows@[i as int]@);
            if let Row::Change { .. } = &self.rows[i] {
                proof {
                    lemma_first_change(rv);
                    match first_change(rv) {
                        Some(k) => {
                            if k < i {
                                assert(!is_change_row(rv[k]));
                            }
                            if k > i {
                                assert(is_change_row(rv[i as int]));
                            }
                        },
                        None => {
                            assert(is_change_row(rv[i as int]));
                        },
                    }
                }
                return Some(i);
            }
            i = i + 1;
        }
        proof {
            lemma_first_change(rv);
        }
        None
    }

    /// The index of the row of the change `id`.
    fn index_of(&self, id: &str) -> (r: Option<usize>)
        ensures
            match r {
                Some(i) => index_of_id(self@.rows, id@) == Some(i as int),
                None => index_of_id(self@.rows, id@) is None,
            },
    {
        let ghost rv = self@.rows;
        let target = chars_of(id);
        let mut i: usize = 0;
        while i < self.rows.len()
            invariant
                i <= self.rows@.len(),
                rv == rows_view(self.rows@),
                target@ == id@,
                forall|j: int|
                    0 <= j < i ==> !(is_change_row(#[trigger] rv[j]) && row_change(rv[j]).id == id@),
            decreases self.rows@.len() - i,
        {
            assert(rv[i as int] == self.rows@[i as int]@);
            if let Row::Change { change, .. } = &self.rows[i] {
                let cid = chars_of(change.id.as_str());
                if crate::text::chars_equal(cid.as_slice(), target.as_slice()) {
                    proof {
                        lemma_index_of_id(rv, id@);
                        match index_of_id(rv, id@) {
                            Some(k) => {
                                if k < i {
                                    assert(!(is_change_row(rv[k]) && row_change(rv[k]).id == id@));
                                }
                                if k > i {
                                    assert(is_change_row(rv[i as int]) && row_change(rv[i as int]).id == id@);
                                }
                            },
                            None => {
                                assert(is_change_row(rv[i as int]) && row_change(rv[i as int]).id == id@);
                            },
                        }
                    }
                    return Some(i);
                }
            }
            i = i + 1;
        }
        proof {
            lemma_index_of_id(rv, id@);
        }
        None
    }

    /// The index of the last change row.
    fn last_change_index(&self) -> (r: Option<usize>)
        ensures
            match r {
                Some(i) => last_change(self@.rows) == Some(i as int),
                None => last_change(self@.rows) is None,
            },
    {
        let ghost rv = self@.rows;
        let mut i: usize = self.rows.len();
        while i > 0
            invariant
                i <= self.rows@.len(),
                rv == rows_view(self.rows@),
                forall|j: int| i <= j < self.rows@.len() ==> !is_change_row(#[trigger] rv[j]),
            decreases i,
        {
            assert(rv[i - 1] == self.rows@[i - 1]@);
            if let Row::Change { .. } = &self.rows[i - 1] {
                proof {
                    lemma_last_change(rv);
                    match last_change(rv) {
                        Some(k) => {
                            if k > i - 1 {
                                assert(!is_change_row(rv[k]));
                            }
                            if k < i - 1 {
                                assert(is_change_row(rv[i - 1]));
                            }
                        },
                        None => {
                            assert(is_change_row(rv[i - 1]));
                        },
                    }
                }
                return Some(i - 1);
            }
            i = i - 1;
        }
        proof {
            lemma_last_change(rv);
        }
        None
    }

    /// The indices of the change rows, ascending.
    fn change_indices(&self) -> (r: Vec<usize>)
        ensures
            r@.len() == change_positions(self@.rows).len(),
            forall|k: int| 0 <= k < r@.len() ==> r@[k] as int == change_positions(self@.rows)[k],
    {
        let ghost rv = self@.rows;
        let mut r: Vec<usize> = Vec::new();
        let mut i: usize = 0;
        while i < self.rows.len()
            invariant
                i <= self.rows@.len(),
                rv == rows_view(self.rows@),
                r@.len() == change_positions(rv.take(i as int)).len(),
                forall|k: int| 0 <= k < r@.len() ==> r@[k] as int == change_positions(rv.take(i as int))[k],
            decreases self.rows@.len() - i,
        {
            assert(rv.take(i + 1).drop_last() =~= rv.take(i as int));
            assert(rv.take(i + 1).last() == self.rows@[i as int]@);
            if let Row::Change { .. } = &self.rows[i] {
                r.push(i);
            }
            i = i + 1;
        }
        assert(rv.take(self.rows@.len() as int) =~= rv);
        r
    }

    /// Moves the selection `delta` change rows; connector rows are skipped
    /// and the selection stops at the first and the last change.
    pub fn move_selection(&mut self, delta: isize)
        ensures
            final(self)@ == (AppView {
                selected: spec_move_selection(old(self)@.rows, old(self)@.selected, delta as int),
                ..old(self)@
            }),
            old(self).wf() ==> final(self).wf(),
    {
        let cs = self.change_indices();
        if cs.len() == 0 {
            return;
        }
        let mut cur: usize = 0;
        let mut p: usize = 0;
        let ghost ps = change_positions(self@.rows);
        while p < cs.len() && cs[p] != self.selected
            invariant
                p <= cs@.len(),
                cs@.len() == ps.len(),
                forall|k: int| 0 <= k < cs@.len() ==> cs@[k] as int == ps[k],
                forall|j: int| 0 <= j < p ==> #[trigger] ps[j] != self.selected as int,
            decreases cs@.len() - p,
        {
            p = p + 1;
        }
        proof {
            lemma_position(ps, self.selected as int);
            match position(ps, self.selected as int) {
                Some(q) => {
                    if q < p {
                        assert(ps[q] != self.selected);
                    }
                    if p < q {
                        assert(ps[p as int] == self.selected);
                    }
                },
                None => {
                    if p < cs@.len() {
                        assert(ps[p as int] == self.selected);
                    }
                },
            }
        }
        if p < cs.len() {
            cur = p;
        }
        let n = cs.len() as i128;
        let mut next = cur as i128 + delta as i128;
        if next < 0 {
            next = 0;
        }
        if next > n - 1 {
            next = n - 1;
        }
        let ghost old_v = self@;
        self.selected = cs[next as usize];
        proof {
            lemma_change_positions(old_v.rows);
            assert(ps[next as int] == cs@[next as int]);
        }
    }

    /// Selects the first change.
    pub fn select_first(&mut self)
        ensures
            final(self)@ == (AppView {
                selected: match first_change(old(self)@.rows) {
                    Some(i) => i,
                    None => old(self)@.selected,
                },
                ..old(self)@
            }),
            old(self).wf() ==> final(self).wf(),
    {
        if let Some(i) = self.first_change_index() {
            proof {
                lemma_first_change(self@.rows);
            }
            self.selected = i;
        }
    }

    /// Selects the last change.
    pub fn select_last(&mut self)
        ensures
            final(self)@ == (AppView {
                selected: match last_change(old(self)@.rows) {
                    Some(i) => i,
                    None => old(self)@.selected,
                },
                ..old(self)@
            }),
            old(self).wf() ==> final(self).wf(),
    {
        if let Some(i) = self.last_change_index() {
            proof {
                lemma_last_change(self@.rows);
            }
            self.selected = i;
        }
    }

    /// The file selected in the files pane.
    pub fn selected_file(&self) -> (r: Option<&DiffFile>)
        ensures
            match r {
                Some(f) => selected_path(self@) == Some(f@.path) && self.file_selected < self.files@.len()
                    && *f == self.files@[self.file_selected as int],
                None => selected_path(self@) is None,
            },
    {
        if self.file_selected < self.files.len() {
            assert(self@.files[self.file_selected as int] == self.files@[self.file_selected as int]@);
            Some(&self.files[self.file_selected])
        } else {
            None
        }
    }

    /// Moves the file selection `delta` entries, stopping at both ends.
    fn move_file_selection(&mut self, delta: isize)
        ensures
            final(self)@ == (AppView { file_selected: spec_move_file(old(self)@, delta as int), ..old(self)@ }),
            old(self).wf() ==> final(self).wf(),
    {
        if self.files.len() == 0 {
            return;
        }
        let n = self.files.len() as i128;
        let mut next = self.file_selected as i128 + delta as i128;
        if next < 0 {
            next = 0;
        }
        if next > n - 1 {
            next = n - 1;
        }
        self.file_selected = next as usize;
    }

    /// Scrolls the diff pane `delta` lines, between its first and its
    /// last line.
    pub fn scroll_diff(&mut self, delta: isize)
        ensures
            final(self)@ == (AppView { diff_scroll: spec_scroll(old(self)@, delta as int), ..old(self)@ }),
            old(self).wf() ==> final(self).wf(),
    {
        let lines = line_count(&self.diff);
        let max: i128 = if lines > 0 {
            lines as i128 - 1
        } else {
            0
        };
        let mut next = self.diff_scroll as i128 + delta as i128;
        if next < 0 {
            next = 0;
        }
        if next > max {
            next = max;
        }
        self.diff_scroll = next as u16;
    }

    /// Moves the log selection, the file selection or the diff scroll,
    /// whichever pane has the focus.
    fn step(&mut self, delta: isize)
        ensures
            final(self)@ == spec_step(old(self)@, delta as int),
            old(self).wf() ==> final(self).wf(),
    {
        match self.focus {
            Focus::Log => self.move_selection(delta),
            Focus::Files => self.move_file_selection(delta),
            Focus::Diff => self.scroll_diff(delta),
        }
    }

    /// Reads the log again with the current revset (and the working-copy
    /// status); its outcome goes to [`App::finish_reload`]. The selection
    /// then follows the change it was on.
    pub fn reload(&self) -> (e: Effect)
        ensures
            e@ == reload_effect(self@, ReloadPurpose::AfterCommand),
    {
        self.reload_effect(ReloadPurpose::AfterCommand)
    }

    /// The reload of the log with the current revset.
    fn reload_effect(&self, purpose: ReloadPurpose) -> (e: Effect)
        ensures
            e@ == reload_effect(self@, purpose),
    {
        let log = match &self.revset {
            Some(r) => self.jj.log(Some(r.as_str())),
            None => self.jj.log(None),
        };
        Effect::Reload { purpose, log, status: self.jj.status_line() }
    }

    /// Replaces the log with `log` (the output of `jj log`) and the
    /// working-copy status with `status` (`None` when it could not be
    /// read). The selection follows the change it was on; a mark on a
    /// change that is gone is dropped.
    pub fn apply_reload(&mut self, log: &str, status: Option<&str>)
        ensures
            final(self)@ == spec_apply_reload(old(self)@, log@, opt_str_view(status)),
            old(self).wf() ==> final(self).wf(),
    {
        let keep: Option<String> = match self.selected_change() {
            Some(c) => Some(c.id.clone()),
            None => None,
        };
        self.rows = parse_log(log);
        let first = self.first_change_index();
        let fallback: usize = match first {
            Some(i) => i,
            None => 0,
        };
        self.selected = match keep {
            Some(id) => match self.index_of(id.as_str()) {
                Some(i) => i,
                None => fallback,
            },
            None => fallback,
        };
        self.working_copy = match status {
            Some(s) => trim_str(s),
            None => String::new(),
        };
        let gone = match &self.marked {
            Some(m) => self.index_of(m.id.as_str()).is_none(),
            None => false,
        };
        if gone {
            self.marked = None;
        }
        self.files_of = None;
        self.header_of = None;
        proof {
            lemma_first_change(self@.rows);
            match sel(old(self)@) {
                Some(c) => lemma_index_of_id(self@.rows, c.id),
                None => {},
            }
            if has_change(self@.rows) {
                let w = choose|w: int| 0 <= w < self@.rows.len() && is_change_row(#[trigger] self@.rows[w]);
                assert(first_change(self@.rows) is Some);
            }
        }
    }

    /// Finishes a reload with its outcome: the output of `jj log` and of
    /// the status line (`None` when that one failed), or the error of
    /// `jj log`.
    pub fn finish_reload(&mut self, purpose: ReloadPurpose, outcome: Result<(String, Option<String>), String>)
        ensures
            final(self)@ == spec_finish_reload(
                old(self)@,
                purpose,
                match outcome {
                    Ok((l, s)) => Ok((l@, opt_string_view(s))),
                    Err(e) => Err(e@),
                },
            ),
            old(self).wf() ==> final(self).wf(),
    {
        match outcome {
            Ok((log, status)) => {
                match &status {
                    Some(s) => self.apply_reload(log.as_str(), Some(s.as_str())),
                    None => self.apply_reload(log.as_str(), None),
                }
                match purpose {
                    ReloadPurpose::AfterCommand => {},
                    ReloadPurpose::Manual => {
                        self.status = Status::info(String::from_str("reloaded"));
                    },
                    ReloadPurpose::Revset => {
                        let text = match &self.revset {
                            Some(r) => cat("revset: ", r.as_str()),
                            None => String::from_str("revset: (jj default)"),
                        };
                        self.status = Status::info(text);
                    },
                }
            },
            Err(e) => {
                let text = match purpose {
                    ReloadPurpose::Revset => cat("revset failed: ", e.as_str()),
                    _ => cat("reload failed: ", e.as_str()),
                };
                self.status = Status::error(text);
            },
        }
    }

    /// Reports the outcome of the jj command `label` in the status bar: on
    /// success the first non-blank line of its output, which says what
    /// happened, followed by a reload; on failure its error, folded onto
    /// one line.
    pub fn report(&mut self, label: &str, result: Result<String, String>) -> (e: Effect)
        ensures
            (final(self)@, e@) == spec_report(old(self)@, label@, result_view(result)),
            old(self).wf() ==> final(self).wf(),
    {
        match result {
            Ok(out) => {
                let text = match first_nonblank_line(out.as_str()) {
                    Some(d) => cat(cat(label, ": ").as_str(), d.as_str()),
                    None => String::from_str(label),
                };
                self.status = Status::info(text);
                self.reload_effect(ReloadPurpose::AfterCommand)
            },
            Err(err) => {
                let folded = fold_error(err.as_str());
                let text = cat(cat(label, " failed: ").as_str(), folded.as_str());
                self.status = Status::error(text);
                Effect::Nothing
            },
        }
    }
}

/// The first non-blank line of `s`.
pub fn first_nonblank_line(s: &str) -> (r: Option<String>)
    ensures
        opt_string_view(r) == first_nonblank(lines(s@)),
{
    let v = chars_of(s);
    let ls = lines_of(v.as_slice());
    let ghost lv = views(ls@);
    let mut k: usize = 0;
    assert(lv.skip(0) =~= lv);
    while k < ls.len()
        invariant
            k <= ls@.len(),
            lv == views(ls@),
            lv == lines(s@),
            first_nonblank(lv) == first_nonblank(lv.skip(k as int)),
        decreases ls@.len() - k,
    {
        let (lo, hi) = trim_bounds(ls[k].as_slice());
        assert(lv.skip(k as int)[0] == ls@[k as int]@);
        if lo < hi {
            return Some(string_of_all(ls[k].as_slice()));
        }
        assert(lv.skip(k as int).drop_first() =~= lv.skip(k + 1));
        k = k + 1;
    }
    assert(lv.skip(k as int).len() == 0);
    None
}

/// `e` folded onto one line: its non-blank lines, trimmed, joined with
/// ` | `.
pub fn fold_error(e: &str) -> (r: String)
    ensures
        r@ == folded_error(e@),
{
    fold_lines(e, " | ")
}

impl App {
    /// A run of a rewriting jj command.
    fn run_effect(label: &str, call: JjCall) -> (e: Effect)
        ensures
            e@ == run(label@, call@),
    {
        Effect::Run { label: String::from_str(label), call }
    }

    /// `m`: marks the selected change as the destination of squash and
    /// rebase, or clears the mark when it is already there.
    fn toggle_mark(&mut self)
        ensures
            final(self)@ == spec_toggle_mark(old(self)@),
            old(self).wf() ==> final(self).wf(),
    {
        let change = match self.selected_change() {
            Some(c) => c.clone(),
            None => return ,
        };
        let same = match &self.marked {
            Some(m) => str_eq(m.id.as_str(), change.id.as_str()),
            None => false,
        };
        if same {
            self.marked = None;
            self.status = Status::info(String::from_str("mark cleared"));
        } else {
            self.status = Status::info(cat(cat("marked ", change.short_id.as_str()).as_str(), " as target"));
            self.marked = Some(change);
        }
    }

    /// The selected change's id and short id and the selected file's path
    /// (its new side), when the files pane has the focus.
    fn file_target(&self) -> (r: Option<(String, String, String)>)
        ensures
            match r {
                Some((id, short, p)) => file_target(self@) == Some((sel(self@)->0, p@)) && id@ == sel(
                    self@,
                )->0.id && short@ == sel(self@)->0.short_id,
                None => file_target(self@) is None,
            },
    {
        if self.focus != Focus::Files {
            return None;
        }
        let c = match self.selected_change() {
            Some(c) => c,
            None => return None,
        };
        match self.selected_file() {
            Some(f) => Some((c.id.clone(), c.short_id.clone(), f.target_path())),
            None => None,
        }
    }

    /// Shift-Tab: the focus goes back one pane.
    fn focus_back(&mut self)
        ensures
            final(self)@ == (AppView {
                focus: match old(self)@.focus {
                    Focus::Log => Focus::Diff,
                    Focus::Files => Focus::Log,
                    Focus::Diff => Focus::Files,
                },
                ..old(self)@
            }),
            old(self).wf() ==> final(self).wf(),
    {
        self.focus = match self.focus {
            Focus::Log => Focus::Diff,
            Focus::Files => Focus::Log,
            Focus::Diff => Focus::Files,
        };
    }

    /// `L`: switches to the other pane layout and names it.
    fn toggle_layout(&mut self)
        ensures
            final(self)@ == (AppView {
                layout: toggled_layout(old(self)@.layout),
                status: info("layout: "@ + layout_name(toggled_layout(old(self)@.layout))),
                ..old(self)@
            }),
            old(self).wf() ==> final(self).wf(),
    {
        self.layout = match self.layout {
            PaneLayout::Stacked => PaneLayout::DiffBelow,
            PaneLayout::DiffBelow => PaneLayout::Stacked,
        };
        self.status = Status::info(
            match self.layout {
                PaneLayout::Stacked => cat("layout: ", "stacked"),
                PaneLayout::DiffBelow => cat("layout: ", "diff-below"),
            },
        );
    }

    /// `r` (`restore`) or `p` (`absorb`) in the files pane: asks first.
    fn confirm_file(&mut self, restore: bool)
        ensures
            final(self)@ == if restore {
                spec_confirm_restore(old(self)@)
            } else {
                spec_confirm_absorb(old(self)@)
            },
            old(self).wf() ==> final(self).wf(),
    {
        let (rev, short, path) = match self.file_target() {
            Some(t) => t,
            None => return ,
        };
        if restore {
            let mut prompt = cat("restore ", path.as_str());
            prompt.append(" in ");
            prompt.append(short.as_str());
            prompt.append(" (discard its change)?");
            self.mode = Mode::Confirm(Confirm { prompt, action: ConfirmAction::Restore { rev, path } });
        } else {
            let mut prompt = cat("absorb ", path.as_str());
            prompt.append(" from ");
            prompt.append(short.as_str());
            prompt.append(" into its ancestors?");
            self.mode = Mode::Confirm(Confirm { prompt, action: ConfirmAction::Absorb { rev, path } });
        }
    }

    /// `o` in the files pane: the editor on the selected file.
    fn open_file(&mut self) -> (e: Effect)
        ensures
            (final(self)@, e@) == spec_open_file(old(self)@),
            old(self).wf() ==> final(self).wf(),
    {
        let (_rev, _short, path) = match self.file_target() {
            Some(t) => t,
            None => return Effect::Nothing,
        };
        match &self.editor_cmd {
            Some(e) => {
                let mut full = cat(self.jj.root(), "/");
                full.append(path.as_str());
                Effect::OpenEditor { editor: e.clone(), path: full }
            },
            None => {
                self.status = Status::error(String::from_str("open: set $EDITOR or $VISUAL"));
                Effect::Nothing
            },
        }
    }

    /// Reports how the editor on `path` ended: `Ok` with whether it exited
    /// successfully and its exit status as text, or why it could not run.
    pub fn editor_closed(&mut self, path: &str, outcome: Result<(bool, String), String>)
        ensures
            final(self)@ == (AppView {
                status: match outcome {
                    Ok((true, _)) => info("closed editor for "@ + path@),
                    Ok((false, st)) => error("editor exited with "@ + st@),
                    Err(e) => error(e@),
                },
                ..old(self)@
            }),
            old(self).wf() ==> final(self).wf(),
    {
        self.status = match outcome {
            Ok((true, _)) => Status::info(cat("closed editor for ", path)),
            Ok((false, st)) => Status::error(cat("editor exited with ", st.as_str())),
            Err(e) => Status::error(e),
        };
    }

    /// `s`: asks to squash the selected change into the marked one.
    fn confirm_squash(&mut self)
        ensures
            final(self)@ == spec_confirm_squash(old(self)@),
            old(self).wf() ==> final(self).wf(),
    {
        let change = match self.selected_change() {
            Some(c) => c.clone(),
            None => return ,
        };
        let marked = match &self.marked {
            Some(m) => m.clone(),
            None => {
                self.status = Status::error(String::from_str("squash: mark a destination with `m` first"));
                return ;
            },
        };
        if str_eq(marked.id.as_str(), change.id.as_str()) {
            self.status = Status::error(
                String::from_str("squash: source and destination are the same change"),
            );
            return ;
        }
        let mut prompt = cat("squash ", change.short_id.as_str());
        prompt.append(" into ");
        prompt.append(marked.short_id.as_str());
        prompt.append(" (");
        prompt.append(marked.summary().as_str());
        prompt.append(")?");
        self.mode = Mode::Confirm(Confirm { prompt, action: ConfirmAction::Squash { from: change.id, into: marked.id } });
    }

    /// `x`: asks to rebase the selected change onto the marked one, or,
    /// with no mark, asks for a destination revset.
    fn confirm_rebase(&mut self)
        ensures
            final(self)@ == spec_confirm_rebase(old(self)@),
            old(self).wf() ==> final(self).wf(),
    {
        let change = match self.selected_change() {
            Some(c) => c.clone(),
            None => return ,
        };
        let mode = self.rebase_mode;
        match &self.marked {
            Some(m) => {
                let onto = m.id.clone();
                let mut prompt = cat("rebase ", change.short_id.as_str());
                prompt.append(" onto ");
                prompt.append(m.short_id.as_str());
                prompt.append(" [");
                prompt.append(mode.label());
                prompt.append("]?");
                self.mode = Mode::Confirm(Confirm { prompt, action: ConfirmAction::Rebase { rev: change.id, onto, mode } });
            },
            None => {
                let mut prompt = cat("rebase ", change.short_id.as_str());
                prompt.append(" onto (revset) [");
                prompt.append(mode.label());
                prompt.append("]");
                self.mode = Mode::Input(
                    Input { prompt, value: String::new(), action: InputAction::RebaseOnto { rev: change.id, mode } },
                );
            },
        }
    }

    /// Runs a confirmed action.
    pub fn submit_confirm(&mut self, action: ConfirmAction) -> (e: Effect)
        ensures
            (final(self)@, e@) == spec_submit_confirm(old(self)@, action@),
            *final(self) == *old(self),
    {
        match action {
            ConfirmAction::Abandon { rev } => Self::run_effect("abandon", self.jj.abandon(rev.as_str())),
            ConfirmAction::Squash { from, into } => Self::run_effect(
                "squash",
                self.jj.squash(from.as_str(), into.as_str()),
            ),
            ConfirmAction::Rebase { rev, onto, mode } => Self::run_effect(
                "rebase",
                self.jj.rebase(rev.as_str(), onto.as_str(), mode),
            ),
            ConfirmAction::Restore { rev, path } => Self::run_effect(
                "restore",
                self.jj.restore_file(rev.as_str(), path.as_str()),
            ),
            ConfirmAction::Absorb { rev, path } => Self::run_effect(
                "absorb",
                self.jj.absorb_file(rev.as_str(), path.as_str()),
            ),
            ConfirmAction::Undo => Self::run_effect("undo", self.jj.undo()),
            ConfirmAction::Redo => Self::run_effect("redo", self.jj.redo()),
        }
    }

    /// Runs a confirmed input.
    pub fn submit_input(&mut self, input: Input) -> (e: Effect)
        ensures
            (final(self)@, e@) == spec_submit_input(old(self)@, input@),
            old(self).wf() ==> final(self).wf(),
    {
        match input.action {
            InputAction::Describe { rev } => Self::run_effect(
                "describe",
                self.jj.describe(rev.as_str(), input.value.as_str()),
            ),
            InputAction::NewChild { rev } => {
                let message = if input.value.as_str().is_empty() {
                    None
                } else {
                    Some(input.value.as_str())
                };
                Self::run_effect("new", self.jj.new_child(rev.as_str(), message))
            },
            InputAction::Bookmark { rev } => {
                let name = trim_str(input.value.as_str());
                if name.as_str().is_empty() {
                    self.status = Status::error(String::from_str("bookmark: empty name"));
                    return Effect::Nothing;
                }
                Self::run_effect("bookmark set", self.jj.bookmark_set(name.as_str(), rev.as_str()))
            },
            InputAction::RebaseOnto { rev, mode } => {
                let onto = trim_str(input.value.as_str());
                if onto.as_str().is_empty() {
                    self.status = Status::error(String::from_str("rebase: empty destination"));
                    return Effect::Nothing;
                }
                Self::run_effect("rebase", self.jj.rebase(rev.as_str(), onto.as_str(), mode))
            },
            InputAction::Revset => {
                let trimmed = trim_str(input.value.as_str());
                self.revset = if trimmed.as_str().is_empty() {
                    None
                } else {
                    Some(trimmed)
                };
                self.reload_effect(ReloadPurpose::Revset)
            },
        }
    }

    /// Ctrl-g in an input: asks for a message generated from the diff of
    /// the revision that the input describes.
    fn fill_with_ai(&mut self, input: Input) -> (e: Effect)
        ensures
            (final(self)@, e@) == spec_fill_ai(old(self)@, input@),
            old(self).wf() ==> final(self).wf(),
    {
        let rev = match input.action.ai_rev() {
            Some(r) => String::from_str(r),
            None => {
                self.status = Status::error(String::from_str("ai: not available for this prompt"));
                self.mode = Mode::Input(input);
                return Effect::Nothing;
            },
        };
        let cmd = match &self.ai_cmd {
            Some(c) => c.clone(),
            None => {
                let mut text = cat("ai: ", AI_CMD_ENV);
                text.append(" is not set");
                self.status = Status::error(text);
                self.mode = Mode::Input(input);
                return Effect::Nothing;
            },
        };
        let diff = self.jj.diff_plain(rev.as_str());
        self.mode = Mode::Input(input);
        Effect::Ai { cmd, diff }
    }

    /// Finishes message generation: the message replaces the value of
    /// the input.
    pub fn finish_ai(&mut self, result: Result<String, String>)
        ensures
            final(self)@ == spec_finish_ai(old(self)@, result_view(result)),
            old(self).wf() ==> final(self).wf(),
    {
        match result {
            Ok(msg) => {
                let mut mode = Mode::Normal;
                std::mem::swap(&mut mode, &mut self.mode);
                match mode {
                    Mode::Input(input) => {
                        self.mode = Mode::Input(Input { prompt: input.prompt, value: msg, action: input.action });
                    },
                    other => {
                        self.mode = other;
                    },
                }
                self.status = Status::info(String::from_str("ai: message generated"));
            },
            Err(e) => {
                self.status = Status::error(cat("ai: ", e.as_str()));
            },
        }
    }

    /// A key in an input.
    fn handle_input(&mut self, key: Key, input: Input) -> (e: Effect)
        ensures
            (final(self)@, e@) == spec_input(old(self)@, key, input@),
            old(self).wf() ==> final(self).wf(),
    {
        let mut input = input;
        match key.code {
            KeyCode::Esc => {
                self.status = Status::info(String::from_str("cancelled"));
                Effect::Nothing
            },
            KeyCode::Enter => self.submit_input(input),
            KeyCode::Backspace => {
                pop_char(&mut input.value);
                self.mode = Mode::Input(input);
                Effect::Nothing
            },
            KeyCode::Char('u') if key.ctrl => {
                input.value = String::new();
                self.mode = Mode::Input(input);
                Effect::Nothing
            },
            KeyCode::Char('g') if key.ctrl => self.fill_with_ai(input),
            KeyCode::Char(c) => {
                push_char(&mut input.value, c);
                self.mode = Mode::Input(input);
                Effect::Nothing
            },
            _ => {
                self.mode = Mode::Input(input);
                Effect::Nothing
            },
        }
    }

    /// A key in a confirmation dialog: only `y`, `Y` and Enter confirm.
    fn handle_confirm(&mut self, key: Key, confirm: Confirm) -> (e: Effect)
        ensures
            (final(self)@, e@) == spec_confirm(old(self)@, key, confirm@),
            old(self).wf() ==> final(self).wf(),
    {
        match key.code {
            KeyCode::Char('y') | KeyCode::Char('Y') | KeyCode::Enter => self.submit_confirm(confirm.action),
            _ => {
                self.status = Status::info(String::from_str("cancelled"));
                Effect::Nothing
            },
        }
    }

    /// A key in normal mode.
    fn handle_normal(&mut self, key: Key) -> (e: Effect)
        ensures
            (final(self)@, e@) == spec_normal(old(self)@, key),
            old(self).wf() ==> final(self).wf(),
    {
        let ctrl = key.ctrl;
        match key.code {
            KeyCode::Char('q') | KeyCode::Esc => {
                self.should_quit = true;
                Effect::Nothing
            },
            KeyCode::Char('c') if ctrl => {
                self.should_quit = true;
                Effect::Nothing
            },
            KeyCode::Char('?') => {
                self.mode = Mode::Help;
                Effect::Nothing
            },
            KeyCode::Tab => {
                self.focus = match self.focus {
                    Focus::Log => Focus::Files,
                    Focus::Files => Focus::Diff,
                    Focus::Diff => Focus::Log,
                };
                Effect::Nothing
            },
            KeyCode::Char('d') if ctrl => {
                self.step(PAGE as isize);
                Effect::Nothing
            },
            KeyCode::Char('u') if ctrl => {
                self.step(-(PAGE as isize));
                Effect::Nothing
            },
            KeyCode::Char('j') | KeyCode::Down => {
                self.step(1);
                Effect::Nothing
            },
            KeyCode::Char('k') | KeyCode::Up => {
                self.step(-1);
                Effect::Nothing
            },
            KeyCode::Char('g') | KeyCode::Home => {
                match self.focus {
                    Focus::Log => self.select_first(),
                    Focus::Files => {
                        self.file_selected = 0;
                    },
                    Focus::Diff => {
                        self.diff_scroll = 0;
                    },
                }
                Effect::Nothing
            },
            KeyCode::Char('G') | KeyCode::End => {
                match self.focus {
                    Focus::Log => self.select_last(),
                    Focus::Files => {
                        self.file_selected = if self.files.len() > 0 {
                            self.files.len() - 1
                        } else {
                            0
                        };
                    },
                    Focus::Diff => self.scroll_diff(isize::MAX / 2),
                }
                Effect::Nothing
            },
            KeyCode::Char('r') if ctrl => self.reload_effect(ReloadPurpose::Manual),
            KeyCode::Char('/') => {
                let value = match &self.revset {
                    Some(r) => r.clone(),
                    None => String::new(),
                };
                self.mode = Mode::Input(Input { prompt: String::from_str("revset"), value, action: InputAction::Revset });
                Effect::Nothing
            },
            KeyCode::Char('A') => {
                self.revset = match &self.revset {
                    Some(r) => if str_eq(r.as_str(), "all()") {
                        None
                    } else {
                        Some(String::from_str("all()"))
                    },
                    None => Some(String::from_str("all()")),
                };
                self.reload_effect(ReloadPurpose::Revset)
            },
            KeyCode::Char('m') => {
                self.toggle_mark();
                Effect::Nothing
            },
            KeyCode::BackTab => {
                self.focus_back();
                Effect::Nothing
            },
            KeyCode::Char('L') => {
                self.toggle_layout();
                Effect::Nothing
            },
            KeyCode::Char('R') => {
                self.rebase_mode = self.rebase_mode.next();
                self.status = Status::info(cat("rebase mode: ", self.rebase_mode.label()));
                Effect::Nothing
            },
            _ => self.handle_change_key(key),
        }
    }

    /// The keys of normal mode that act on the selected change or file;
    /// see [`spec_change_key`].
    fn handle_change_key(&mut self, key: Key) -> (e: Effect)
        ensures
            (final(self)@, e@) == spec_change_key(old(self)@, key),
            old(self).wf() ==> final(self).wf(),
    {
        match key.code {
            KeyCode::Enter => match self.selected_change() {
                Some(c) => Self::run_effect("edit", self.jj.edit(c.id.as_str())),
                None => Effect::Nothing,
            },
            KeyCode::Char('n') => {
                if let Some(c) = self.selected_change() {
                    let mut prompt = cat("new child of ", c.short_id.as_str());
                    prompt.append(" (description, may be empty)");
                    let rev = c.id.clone();
                    self.mode = Mode::Input(
                        Input { prompt, value: String::new(), action: InputAction::NewChild { rev } },
                    );
                }
                Effect::Nothing
            },
            KeyCode::Char('e') => {
                if let Some(c) = self.selected_change() {
                    let prompt = cat("describe ", c.short_id.as_str());
                    let value = c.description.clone();
                    let rev = c.id.clone();
                    self.mode = Mode::Input(Input { prompt, value, action: InputAction::Describe { rev } });
                }
                Effect::Nothing
            },
            KeyCode::Char('s') => {
                self.confirm_squash();
                Effect::Nothing
            },
            KeyCode::Char('b') => {
                if let Some(c) = self.selected_change() {
                    let prompt = cat("bookmark name for ", c.short_id.as_str());
                    let value = if c.bookmarks.len() > 0 {
                        c.bookmarks[0].clone()
                    } else {
                        String::new()
                    };
                    let rev = c.id.clone();
                    self.mode = Mode::Input(Input { prompt, value, action: InputAction::Bookmark { rev } });
                }
                Effect::Nothing
            },
            KeyCode::Char('a') => {
                if let Some(c) = self.selected_change() {
                    let mut prompt = cat("abandon ", c.short_id.as_str());
                    prompt.append(" (");
                    prompt.append(c.summary().as_str());
                    prompt.append(")?");
                    let rev = c.id.clone();
                    self.mode = Mode::Confirm(Confirm { prompt, action: ConfirmAction::Abandon { rev } });
                }
                Effect::Nothing
            },
            KeyCode::Char('x') => {
                self.confirm_rebase();
                Effect::Nothing
            },
            KeyCode::Char('u') => {
                self.mode = Mode::Confirm(
                    Confirm { prompt: String::from_str("undo the last jj operation?"), action: ConfirmAction::Undo },
                );
                Effect::Nothing
            },
            KeyCode::Char('U') => {
                self.mode = Mode::Confirm(
                    Confirm { prompt: String::from_str("redo the undone jj operation?"), action: ConfirmAction::Redo },
                );
                Effect::Nothing
            },
            KeyCode::Char('r') => {
                self.confirm_file(true);
                Effect::Nothing
            },
            KeyCode::Char('p') => {
                self.confirm_file(false);
                Effect::Nothing
            },
            KeyCode::Char('o') => self.open_file(),
            _ => Effect::Nothing,
        }
    }

    /// Handles a key event and says what the caller has to do next.
    /// Only presses count; a dialog or input closes before its key is
    /// handled; the help overlay closes on any key.
    pub fn handle_key(&mut self, key: Key) -> (e: Effect)
        ensures
            (final(self)@, e@) == spec_handle_key(old(self)@, key),
            old(self).wf() ==> final(self).wf(),
    {
        if !key.press {
            return Effect::Nothing;
        }
        let mut mode = Mode::Normal;
        std::mem::swap(&mut mode, &mut self.mode);
        match mode {
            Mode::Normal => self.handle_normal(key),
            Mode::Help => {
                if key.code != KeyCode::Char('?') && key.code != KeyCode::Esc {
                    self.handle_normal(key)
                } else {
                    Effect::Nothing
                }
            },
            Mode::Input(input) => self.handle_input(key, input),
            Mode::Confirm(confirm) => self.handle_confirm(key, confirm),
        }
    }

    /// What the diff pane still needs for the current selection; see
    /// [`spec_sync`]. With nothing selected, the file list and the diff
    /// state are emptied here; a cached file list is taken from the cache
    /// here.
    pub fn sync_diff(&mut self) -> (r: DiffRequest)
        requires
            old(self).wf(),
        ensures
            (final(self)@, r@) == spec_sync(old(self)@),
            final(self).wf(),
    {
        let (rev, commit_id) = match self.selected_change() {
            Some(c) => (c.id.clone(), c.commit_id.clone()),
            None => {
                self.files = Vec::new();
                self.file_selected = 0;
                self.files_of = None;
                self.files_ok = false;
                self.header_of = None;
                self.header = empty_text();
                self.diff_rendered = None;
                self.diff = empty_text();
                assert(self@.files =~= Seq::<DiffFileView>::empty());
                return DiffRequest::Clear;
            },
        };
        let ghost c = sel(old(self)@)->0;
        let files_current = match &self.files_of {
            Some(f) => str_eq(f.as_str(), commit_id.as_str()),
            None => false,
        };
        if !files_current {
            proof {
                self.store.lemma_wf();
            }
            let files = match self.store.get(commit_id.as_str()) {
                Some(e) => Some(copy_files(&e.files)),
                None => None,
            };
            match files {
                Some(fs) => {
                    self.files = fs;
                    self.file_selected = 0;
                    self.files_of = Some(commit_id.clone());
                    self.files_ok = true;
                    self.store.touch(commit_id.as_str());
                },
                None => {
                    return DiffRequest::Files { commit_id, call: self.jj.diff_summary(rev.as_str()) };
                },
            }
        }
        proof {
            assert(sel(self@) == Some(c));
        }
        self.sync_listed(rev, commit_id)
    }

    /// The rest of [`App::sync_diff`] once the files of the selected
    /// change are listed; see [`sync_listed`].
    fn sync_listed(&mut self, rev: String, commit_id: String) -> (r: DiffRequest)
        requires
            sel(old(self)@) is Some,
            rev@ == sel(old(self)@)->0.id,
            commit_id@ == sel(old(self)@)->0.commit_id,
            old(self)@.files_of == Some(commit_id@),
            old(self).wf(),
        ensures
            (final(self)@, r@) == sync_listed(old(self)@, sel(old(self)@)->0),
            final(self).wf(),
    {
        proof {
            self.store.lemma_wf();
        }
        let header_current = match &self.header_of {
            Some(h) => str_eq(h.as_str(), commit_id.as_str()),
            None => false,
        };
        if !header_current {
            let source = match self.store.get(commit_id.as_str()) {
                Some(e) => Source::Cached(e.header_raw.clone()),
                None => Source::Run(self.jj.show(rev.as_str())),
            };
            return DiffRequest::Header { commit_id, source };
        }
        let path: Option<String> = match self.selected_file() {
            Some(f) => Some(f.path.clone()),
            None => None,
        };
        let rendered_current = match &self.diff_rendered {
            Some((c, p)) => str_eq(c.as_str(), commit_id.as_str()) && match (p, &path) {
                (Some(a), Some(b)) => str_eq(a.as_str(), b.as_str()),
                (None, None) => true,
                _ => false,
            },
            None => false,
        };
        if rendered_current {
            return DiffRequest::Done;
        }
        let cached: Option<String> = match self.store.get(commit_id.as_str()) {
            Some(e) => match &path {
                Some(p) => match e.diff_raw(Some(p.as_str())) {
                    Some(d) => Some(d.clone()),
                    None => None,
                },
                None => match e.diff_raw(None) {
                    Some(d) => Some(d.clone()),
                    None => None,
                },
            },
            None => None,
        };
        let source = match cached {
            Some(d) => Source::Cached(d),
            None => match &path {
                Some(p) => Source::Run(self.jj.diff(rev.as_str(), Some(p.as_str()))),
                None => Source::Run(self.jj.diff(rev.as_str(), None)),
            },
        };
        let filter = self.filter_cmd.clone();
        DiffRequest::Diff { commit_id, path, source, filter }
    }

    /// The file list of `commit_id` was read: `out` is the output of
    /// `jj diff --summary`, or its error (which leaves the list empty).
    pub fn files_loaded(&mut self, commit_id: String, out: Result<String, String>)
        ensures
            final(self)@ == spec_files_loaded(old(self)@, commit_id@, result_view(out)),
            old(self).wf() ==> final(self).wf(),
    {
        self.files_ok = out.is_ok();
        self.files = match out {
            Ok(o) => parse_diff_summary(o.as_str()),
            Err(_) => Vec::new(),
        };
        self.file_selected = 0;
        self.files_of = Some(commit_id);
        proof {
            if self.files@.len() == 0 {
                assert(self@.files =~= Seq::<DiffFileView>::empty());
            }
        }
    }

    /// The header of `commit_id` is shown, from what `jj show` gave (or
    /// what the cache kept of it). A header read together with the file
    /// list of a commit not cached yet is cached.
    pub fn header_loaded(&mut self, commit_id: String, out: Result<String, String>)
        requires
            old(self).store.wf(),
        ensures
            final(self)@ == (AppView {
                store: final(self)@.store,
                ..spec_header_loaded(old(self)@, commit_id@, final(self)@.header)
            }),
            header_text(result_view(out), final(self)@.header),
            header_cached(old(self)@, commit_id@, result_view(out), final(self)@.store),
            old(self).wf() ==> final(self).wf(),
            final(self).store.wf(),
    {
        proof {
            self.store.lemma_wf();
        }
        let listed = match &self.files_of {
            Some(f) => str_eq(f.as_str(), commit_id.as_str()),
            None => false,
        };
        let fresh = listed && self.files_ok && !self.store.contains(commit_id.as_str());
        proof {
            if listed && self.files_ok {
                if self.store.keys().contains(commit_id@) {
                    let i = choose|i: int| 0 <= i < self.store.keys().len() && self.store.keys()[i] == commit_id@;
                    crate::cache::lemma_key_index_at(self.store.spec_entries(), commit_id@, i);
                } else {
                    assert(cached_entry(self.store.spec_entries(), commit_id@) is None);
                }
            }
        }
        match &out {
            Ok(raw) => {
                if fresh {
                    let entry = CommitCache::new(copy_files(&self.files), raw.clone());
                    let key = commit_id.clone();
                    let ghost k = key;
                    let ghost e = entry;
                    self.store.insert(key, entry);
                    proof {
                        assert(files_view(e.files@) == old(self)@.files);
                        assert(self.store.spec_entries() == spec_insert(old(self)@.store, (k, e)));
                    }
                }
            },
            Err(_) => {},
        }
        self.header = match out {
            Ok(s) => colored(s.as_str()),
            Err(e) => text_of(e),
        };
        self.header_of = Some(commit_id);
    }

    /// The diff of `path` (`None`: the whole change) in `commit_id` is
    /// shown below the header: `raw` is what `jj diff` gave (or what the
    /// cache kept of it), and `filtered` what the diff filter made of it,
    /// when there is one. A failed filter leaves the raw diff shown and
    /// is reported; a diff read for a cached commit is cached.
    pub fn diff_loaded(
        &mut self,
        commit_id: String,
        path: Option<String>,
        raw: Result<String, String>,
        filtered: Option<Result<String, String>>,
    )
        requires
            old(self).store.wf(),
        ensures
            final(self)@ == (AppView {
                status: diff_status(old(self)@, result_view(raw), opt_result_view(filtered)),
                store: final(self)@.store,
                ..spec_diff_loaded(old(self)@, commit_id@, opt_string_view(path), final(self)@.diff)
            }),
            diff_text(
                old(self)@.header,
                shown_diff(result_view(raw), opt_result_view(filtered)),
                final(self)@.diff,
            ),
            diff_cached(old(self)@.store, commit_id@, opt_string_view(path), result_view(raw), final(self)@.store),
            final(self)@.diff_scroll == 0,
            old(self).wf() ==> final(self).wf(),
            final(self).store.wf(),
    {
        match &raw {
            Ok(r) => {
                let p2 = path.clone();
                match self.store.get_mut(commit_id.as_str()) {
                    Some(e) => e.set_diff_raw(p2, r.clone()),
                    None => {},
                }
            },
            Err(_) => {},
        }
        let (shown, failure): (Result<String, String>, Option<String>) = match (raw, filtered) {
            (Ok(_), Some(Ok(t))) => (Ok(t), None),
            (Ok(r), Some(Err(e))) => (Ok(r), Some(e)),
            (r, _) => (r, None),
        };
        match failure {
            Some(e) => {
                let folded_e = fold_error(e.as_str());
                self.status = Status::error(cat("diff filter: ", folded_e.as_str()));
            },
            None => {},
        }
        let text = match shown {
            Ok(d) => {
                let t = trim_str(d.as_str());
                if t.as_str().is_empty() {
                    let mut text = text_clone(&self.header);
                    text_extend(&mut text, text_of(String::from_str("(no changes)")));
                    proof {
                        reveal_strlit("(no changes)");
                        let nc = "(no changes)"@;
                        assert(nc.len() == 12);
                        crate::text::lemma_first_index_at(nc, '\n', 12);
                        assert(lines(nc) =~= seq![nc]);
                        assert(raw_lines(nc) =~= seq![nc]);
                        assert(text_lines(text) =~= self@.header.push(nc));
                    }
                    text
                } else {
                    let mut text = text_clone(&self.header);
                    text_extend(&mut text, colored(d.as_str()));
                    text
                }
            },
            Err(e) => text_of(e),
        };
        self.diff = text;
        self.diff_rendered = Some((commit_id, path));
        self.diff_scroll = 0;
    }
}

/// The view of an optional outcome.
pub open spec fn opt_result_view(r: Option<Result<String, String>>) -> Option<Result<Seq<char>, Seq<char>>> {
    match r {
        Some(x) => Some(result_view(x)),
        None => None,
    }
}

/// A copy of a file list.
fn copy_files(v: &Vec<DiffFile>) -> (r: Vec<DiffFile>)
    ensures
        files_view(r@) == files_view(v@),
{
    let mut r: Vec<DiffFile> = Vec::new();
    let mut i: usize = 0;
    while i < v.len()
        invariant
            i <= v@.len(),
            r@.len() == i,
            forall|j: int| 0 <= j < i ==> (#[trigger] r@[j])@ == v@[j]@,
        decreases v@.len() - i,
    {
        let f = v[i].clone();
        r.push(f);
        i = i + 1;
    }
    assert(files_view(r@) =~= files_view(v@));
    r
}


// ---------------------------------------------------------------------------
// Laws of the state machine
// ---------------------------------------------------------------------------

/// Key releases and repeats do nothing (terminals that report both press
/// and release would otherwise act twice per keystroke).
pub proof fn law_key_release_is_ignored(v: AppView, k: Key)
    requires
        !k.press,
    ensures
        spec_handle_key(v, k) == (v, EffectView::Nothing),
{
}

/// A confirmation dialog runs its action only on `y`, `Y` or Enter; any
/// other key cancels it without running a jj command.
pub proof fn law_confirm_rejects_anything_but_yes(v: AppView, k: Key, c: ConfirmView)
    requires
        v.mode == ModeView::Confirm(c),
        k.press,
        k.code != KeyCode::Char('y'),
        k.code != KeyCode::Char('Y'),
        k.code != KeyCode::Enter,
    ensures
        spec_handle_key(v, k) == (
            AppView { mode: ModeView::Normal, status: info("cancelled"@), ..v },
            EffectView::Nothing,
        ),
{
}

/// Escape closes an input without running anything.
pub proof fn law_escape_cancels_input(v: AppView, k: Key, i: InputView)
    requires
        v.mode == ModeView::Input(i),
        k.press,
        k.code == KeyCode::Esc,
    ensures
        spec_handle_key(v, k) == (
            AppView { mode: ModeView::Normal, status: info("cancelled"@), ..v },
            EffectView::Nothing,
        ),
{
}

/// Everything that rewrites history asks first: in normal mode the keys of
/// squash, abandon, rebase, restore, absorb, undo and redo only open a
/// dialog or a prompt (or report why they cannot), and never run a jj
/// command themselves.
pub proof fn law_rewrites_ask_first(v: AppView, k: Key)
    requires
        v.mode == ModeView::Normal,
        k.press,
        !k.ctrl,
        k.code == KeyCode::Char('s') || k.code == KeyCode::Char('a') || k.code == KeyCode::Char('x')
            || k.code == KeyCode::Char('r') || k.code == KeyCode::Char('p') || k.code == KeyCode::Char('u')
            || k.code == KeyCode::Char('U'),
    ensures
        spec_handle_key(v, k).1 == EffectView::Nothing,
{
}

/// Squash needs a marked destination: without one, `s` only reports it.
pub proof fn law_squash_requires_a_mark(v: AppView, k: Key)
    requires
        v.mode == ModeView::Normal,
        v.marked is None,
        sel(v) is Some,
        k.press,
        k.code == KeyCode::Char('s'),
    ensures
        spec_handle_key(v, k).1 == EffectView::Nothing,
        spec_handle_key(v, k).0.mode == ModeView::Normal,
        spec_handle_key(v, k).0.status == error("squash: mark a destination with `m` first"@),
{
}

/// `A` twice comes back to the revset it started from, when that was
/// jj's default or `all()`.
pub proof fn law_revset_toggle_round_trip(r: Option<Seq<char>>)
    requires
        r is None || r == Some("all()"@),
    ensures
        toggled_revset(toggled_revset(r)) == r,
{
}

/// The last change of the log is the last of the change positions.
proof fn lemma_last_change_position(rows: Seq<RowView>)
    ensures
        change_positions(rows).len() > 0 ==> last_change(rows) == Some(change_positions(rows).last()),
        change_positions(rows).len() == 0 ==> last_change(rows) is None,
    decreases rows.len(),
{
    if rows.len() > 0 && !is_change_row(rows.last()) {
        lemma_last_change_position(rows.drop_last());
    }
}

/// The first change of the log is the first of the change positions.
proof fn lemma_first_change_position(rows: Seq<RowView>)
    ensures
        change_positions(rows).len() > 0 ==> first_change(rows) == Some(change_positions(rows)[0]),
{
    lemma_change_positions(rows);
    lemma_first_change(rows);
    let cs = change_positions(rows);
    if cs.len() > 0 {
        match first_change(rows) {
            Some(f) => {
                assert(cs.contains(f));
                let k = choose|k: int| 0 <= k < cs.len() && cs[k] == f;
                if k > 0 {
                    assert(cs[0] < cs[k]);
                    assert(!is_change_row(rows[cs[0]]));
                }
            },
            None => {
                assert(is_change_row(rows[cs[0]]));
            },
        }
    }
}

/// Moving the selection never leaves the change rows, and it stops at
/// the ends: moving down from the last change, or up from the first,
/// stays where it is.
pub proof fn law_navigation_clamps(rows: Seq<RowView>, selected: int, delta: int)
    requires
        has_change(rows),
    ensures
        0 <= spec_move_selection(rows, selected, delta) < rows.len(),
        is_change_row(rows[spec_move_selection(rows, selected, delta)]),
        last_change(rows) == Some(selected) && delta >= 0 ==> spec_move_selection(rows, selected, delta)
            == selected,
        first_change(rows) == Some(selected) && delta <= 0 ==> spec_move_selection(rows, selected, delta)
            == selected,
{
    lemma_change_positions(rows);
    lemma_last_change_position(rows);
    lemma_first_change_position(rows);
    let cs = change_positions(rows);
    lemma_position(cs, selected);
    if last_change(rows) == Some(selected) {
        let p = position(cs, selected);
        assert(cs.contains(selected)) by {
            assert(cs[cs.len() - 1] == selected);
        }
        let q = p->0;
        if q < cs.len() - 1 {
            assert(cs[q] < cs[cs.len() - 1]);
        }
    }
    if first_change(rows) == Some(selected) {
        assert(cs[0] == selected);
    }
}

/// A reload keeps the selection on the change it was on when that change
/// is still in the log.
pub proof fn law_reload_follows_the_selected_change(v: AppView, log: Seq<char>, status: Option<Seq<char>>)
    requires
        sel(v) is Some,
        index_of_id(spec_parse_log(log), sel(v)->0.id) is Some,
    ensures
        sel(spec_apply_reload(v, log, status)) is Some,
        sel(spec_apply_reload(v, log, status))->0.id == sel(v)->0.id,
{
    lemma_index_of_id(spec_parse_log(log), sel(v)->0.id);
}

/// After a reload the mark is on a change that is in the log, or there
/// is none: a mark whose change is gone is dropped.
pub proof fn law_reload_drops_a_vanished_mark(v: AppView, log: Seq<char>, status: Option<Seq<char>>)
    ensures
        match spec_apply_reload(v, log, status).marked {
            Some(m) => index_of_id(spec_parse_log(log), m.id) is Some && v.marked == Some(m),
            None => true,
        },
        v.marked is Some && index_of_id(spec_parse_log(log), v.marked->0.id) is Some ==> spec_apply_reload(
            v,
            log,
            status,
        ).marked == v.marked,
{
}

/// The diff pane converges: once the file list of the selected commit is
/// read it is not asked for again, once its header is shown it is not
/// asked for again, and once the diff of the selected file is shown
/// nothing more is asked for, whatever the cache and the status bar
/// hold by then.
pub proof fn law_sync_settles(
    v: AppView,
    out: Result<Seq<char>, Seq<char>>,
    text: Seq<Seq<char>>,
    store: Seq<(String, CommitCache)>,
    status: StatusView,
)
    ensures
        spec_sync(v).1 matches DiffRequestView::Files { commit_id, .. } ==> !(spec_sync(
            spec_files_loaded(spec_sync(v).0, commit_id, out),
        ).1 is Files),
        spec_sync(v).1 matches DiffRequestView::Header { commit_id, .. } ==> {
            let w = AppView { store, ..spec_header_loaded(spec_sync(v).0, commit_id, text) };
            !(spec_sync(w).1 is Files) && !(spec_sync(w).1 is Header)
        },
        spec_sync(v).1 matches DiffRequestView::Diff { commit_id, path, .. } ==> spec_sync(
            AppView { store, status, ..spec_diff_loaded(spec_sync(v).0, commit_id, path, text) },
        ).1 == DiffRequestView::Done,
{
}

/// A commit looked at before is not asked of jj again: when the selected
/// commit is cached, its file list and header come from the cache, and so
/// does the diff of any file whose diff is cached.
pub proof fn law_cached_commit_runs_no_jj(v: AppView)
    requires
        entries_wf(v.store),
        sel(v) is Some,
        cached_entry(v.store, sel(v)->0.commit_id) is Some,
    ensures
        !(spec_sync(v).1 is Files),
        spec_sync(v).1 matches DiffRequestView::Header { source, .. } ==> source is Cached,
        spec_sync(v).1 matches DiffRequestView::Diff { source, path, .. } ==> (
        cached_entry(v.store, sel(v)->0.commit_id)->0.cached_diff(path) is Some ==> source is Cached),
{
    let c = sel(v)->0;
    crate::cache::lemma_touch_keeps_entry(v.store, c.commit_id);
}

/// jj never takes over the screen with an editor: every command that a
/// key runs is a rewriting command run with `ui.editor` pointed at a
/// program that does not exist.
pub proof fn law_commands_never_open_an_editor(v: AppView, k: Key)
    ensures
        spec_handle_key(v, k).1 matches EffectView::Run { call, .. } ==> call.globals
            == crate::jj::spec_write_globals(),
        crate::jj::spec_write_globals() == seq![
            "--no-pager"@,
            "--color"@,
            "never"@,
            "--config"@,
            "ui.editor=shikigami-refuses-to-open-an-editor"@,
        ],
{
    assert(crate::jj::spec_write_globals() =~= seq![
        "--no-pager"@,
        "--color"@,
        "never"@,
        "--config"@,
        "ui.editor=shikigami-refuses-to-open-an-editor"@,
    ]);
}

/// Tab cycles the focus through the three panes and Shift-Tab goes the
/// other way: three Tabs come back to the start, and Shift-Tab undoes a
/// Tab.
pub proof fn law_focus_cycle(v: AppView)
    requires
        v.mode == ModeView::Normal,
    ensures
        ({
            let tab = Key { code: KeyCode::Tab, ctrl: false, press: true };
            let v3 = spec_handle_key(spec_handle_key(spec_handle_key(v, tab).0, tab).0, tab).0;
            v3.focus == v.focus
        }),
        ({
            let tab = Key { code: KeyCode::Tab, ctrl: false, press: true };
            let back = Key { code: KeyCode::BackTab, ctrl: false, press: true };
            spec_handle_key(spec_handle_key(v, tab).0, back).0.focus == v.focus
        }),
{
}

/// A report folds a failure onto the single line of the status bar.
pub proof fn law_report_is_one_line(v: AppView, label: Seq<char>, e: Seq<char>)
    requires
        !label.contains('\n'),
    ensures
        !spec_report(v, label, Err(e)).0.status.text.contains('\n'),
        spec_report(v, label, Err(e)).0.status.kind == StatusKind::Error,
        spec_report(v, label, Err(e)).1 == EffectView::Nothing,
{
    assert(!(" | "@).contains('\n')) by {
        reveal_strlit(" | ");
        assert forall|j: int| 0 <= j < (" | "@).len() implies (" | "@)[j] != '\n' by {}
    }
    lemma_folded_one_line(e, " | "@);
    let t = label + " failed: "@ + folded_error(e);
    assert(!(" failed: "@).contains('\n')) by {
        reveal_strlit(" failed: ");
        assert forall|j: int| 0 <= j < (" failed: "@).len() implies (" failed: "@)[j] != '\n' by {}
    }
    lemma_concat_no_newline(label, " failed: "@);
    lemma_concat_no_newline(label + " failed: "@, folded_error(e));
}

/// Enter in the prompt that `n` opens creates a child of the change it
/// was opened on, passing what was typed as the description (`-m`), or
/// no description at all when nothing was typed.
pub proof fn law_new_child_passes_the_description(v: AppView, k: Key, i: InputView, rev: Seq<char>)
    requires
        v.mode == ModeView::Input(i),
        i.action == (InputActionView::NewChild { rev }),
        k.press,
        k.code == KeyCode::Enter,
    ensures
        spec_handle_key(v, k).0 == (AppView { mode: ModeView::Normal, ..v }),
        spec_handle_key(v, k).1 == (EffectView::Run {
            label: "new"@,
            call: JjCallView {
                dir: v.root,
                globals: crate::jj::spec_write_globals(),
                args: if i.value.len() > 0 {
                    seq!["new"@, rev, "-m"@, i.value]
                } else {
                    seq!["new"@, rev]
                },
            },
        }),
{
}

/// Enter in the prompt that `x` opens without a mark rebases the change
/// it was opened on onto the typed revset (trimmed), with the flag of the
/// rebase mode the prompt carries: `-r`, `-s` or `-b`. A blank revset
/// runs nothing and is reported.
pub proof fn law_rebase_onto_uses_the_prompt_mode(
    v: AppView,
    k: Key,
    i: InputView,
    rev: Seq<char>,
    mode: RebaseMode,
)
    requires
        v.mode == ModeView::Input(i),
        i.action == (InputActionView::RebaseOnto { rev, mode }),
        k.press,
        k.code == KeyCode::Enter,
    ensures
        trim(i.value).len() > 0 ==> spec_handle_key(v, k).1 == (EffectView::Run {
            label: "rebase"@,
            call: JjCallView {
                dir: v.root,
                globals: crate::jj::spec_write_globals(),
                args: seq![
                    "rebase"@,
                    match mode {
                        RebaseMode::Revision => "-r"@,
                        RebaseMode::Source => "-s"@,
                        RebaseMode::Branch => "-b"@,
                    },
                    rev,
                    "--onto"@,
                    trim(i.value),
                ],
            },
        }),
        trim(i.value).len() == 0 ==> spec_handle_key(v, k) == (
            AppView { mode: ModeView::Normal, status: error("rebase: empty destination"@), ..v },
            EffectView::Nothing,
        ),
{
}

/// `x` without a mark opens a prompt for the destination of the selected
/// change that carries the rebase mode chosen with `R` at that moment.
pub proof fn law_rebase_prompt_carries_the_mode(v: AppView, k: Key)
    requires
        v.mode == ModeView::Normal,
        v.marked is None,
        sel(v) is Some,
        k.press,
        k.code == KeyCode::Char('x'),
    ensures
        spec_handle_key(v, k).1 == EffectView::Nothing,
        spec_handle_key(v, k).0.mode matches ModeView::Input(i) && i.value.len() == 0 && i.action == (
        InputActionView::RebaseOnto { rev: sel(v)->0.id, mode: v.rebase_mode }),
{
}

/// `R` moves the rebase mode on to the next of `-r`, `-s`, `-b` (and
/// back to `-r`) and leaves everything else but the status as it was.
pub proof fn law_rebase_mode_key(v: AppView, k: Key)
    requires
        v.mode == ModeView::Normal,
        k.press,
        k.code == KeyCode::Char('R'),
    ensures
        spec_handle_key(v, k).1 == EffectView::Nothing,
        spec_handle_key(v, k).0 == (AppView {
            rebase_mode: match v.rebase_mode {
                RebaseMode::Revision => RebaseMode::Source,
                RebaseMode::Source => RebaseMode::Branch,
                RebaseMode::Branch => RebaseMode::Revision,
            },
            status: spec_handle_key(v, k).0.status,
            ..v
        }),
{
}

/// A diff that is loaded into the diff pane is shown from its first line,
/// whatever the pane was scrolled to before, and it is the diff of the
/// commit and file it was loaded for.
pub proof fn law_loaded_diff_starts_at_the_top(
    v: AppView,
    commit_id: Seq<char>,
    path: Option<Seq<char>>,
    text: Seq<Seq<char>>,
)
    ensures
        spec_diff_loaded(v, commit_id, path, text).diff_scroll == 0,
        spec_diff_loaded(v, commit_id, path, text).diff == text,
        spec_diff_loaded(v, commit_id, path, text).diff_rendered == Some((commit_id, path)),
{
}

/// Confirming a dialog runs the jj command of its action on the changes
/// (and file) it names, in the order jj expects them: the change to
/// abandon; the source and then the destination of a squash; the change,
/// the flag of the rebase mode and the destination of a rebase; the
/// change and the file to restore or absorb; or undo / redo.
pub proof fn law_confirm_runs_the_action(v: AppView, k: Key, c: ConfirmView)
    requires
        v.mode == ModeView::Confirm(c),
        k.press,
        k.code == KeyCode::Char('y') || k.code == KeyCode::Char('Y') || k.code == KeyCode::Enter,
    ensures
        spec_handle_key(v, k).0 == (AppView { mode: ModeView::Normal, ..v }),
        spec_handle_key(v, k).1 == (match c.action {
            ConfirmActionView::Abandon { rev } => EffectView::Run {
                label: "abandon"@,
                call: JjCallView {
                    dir: v.root,
                    globals: crate::jj::spec_write_globals(),
                    args: seq!["abandon"@, rev],
                },
            },
            ConfirmActionView::Squash { from, into } => EffectView::Run {
                label: "squash"@,
                call: JjCallView {
                    dir: v.root,
                    globals: crate::jj::spec_write_globals(),
                    args: seq!["squash"@, "--use-destination-message"@, "--from"@, from, "--into"@, into],
                },
            },
            ConfirmActionView::Rebase { rev, onto, mode } => EffectView::Run {
                label: "rebase"@,
                call: JjCallView {
                    dir: v.root,
                    globals: crate::jj::spec_write_globals(),
                    args: seq![
                        "rebase"@,
                        match mode {
                            RebaseMode::Revision => "-r"@,
                            RebaseMode::Source => "-s"@,
                            RebaseMode::Branch => "-b"@,
                        },
                        rev,
                        "--onto"@,
                        onto,
                    ],
                },
            },
            ConfirmActionView::Restore { rev, path } => EffectView::Run {
                label: "restore"@,
                call: JjCallView {
                    dir: v.root,
                    globals: crate::jj::spec_write_globals(),
                    args: seq!["restore"@, "--changes-in"@, rev, path],
                },
            },
            ConfirmActionView::Absorb { rev, path } => EffectView::Run {
                label: "absorb"@,
                call: JjCallView {
                    dir: v.root,
                    globals: crate::jj::spec_write_globals(),
                    args: seq!["absorb"@, "--from"@, rev, path],
                },
            },
            ConfirmActionView::Undo => EffectView::Run {
                label: "undo"@,
                call: JjCallView { dir: v.root, globals: crate::jj::spec_write_globals(), args: seq!["undo"@] },
            },
            ConfirmActionView::Redo => EffectView::Run {
                label: "redo"@,
                call: JjCallView { dir: v.root, globals: crate::jj::spec_write_globals(), args: seq!["redo"@] },
            },
        }),
{
}

/// Enter in the prompt that `e` opens sets the description of the change
/// it was opened on to what was typed, as it was typed.
pub proof fn law_describe_sets_the_typed_message(v: AppView, k: Key, i: InputView, rev: Seq<char>)
    requires
        v.mode == ModeView::Input(i),
        i.action == (InputActionView::Describe { rev }),
        k.press,
        k.code == KeyCode::Enter,
    ensures
        spec_handle_key(v, k).0 == (AppView { mode: ModeView::Normal, ..v }),
        spec_handle_key(v, k).1 == (EffectView::Run {
            label: "describe"@,
            call: JjCallView {
                dir: v.root,
                globals: crate::jj::spec_write_globals(),
                args: seq!["describe"@, "-r"@, rev, "-m"@, i.value],
            },
        }),
{
}

/// Enter in the prompt that `b` opens points the typed bookmark name
/// (trimmed) at the change it was opened on; a blank name runs nothing
/// and is reported.
pub proof fn law_bookmark_sets_the_typed_name(v: AppView, k: Key, i: InputView, rev: Seq<char>)
    requires
        v.mode == ModeView::Input(i),
        i.action == (InputActionView::Bookmark { rev }),
        k.press,
        k.code == KeyCode::Enter,
    ensures
        trim(i.value).len() > 0 ==> spec_handle_key(v, k) == (
            AppView { mode: ModeView::Normal, ..v },
            EffectView::Run {
                label: "bookmark set"@,
                call: JjCallView {
                    dir: v.root,
                    globals: crate::jj::spec_write_globals(),
                    args: seq!["bookmark"@, "set"@, trim(i.value), "-r"@, rev],
                },
            },
        ),
        trim(i.value).len() == 0 ==> spec_handle_key(v, k) == (
            AppView { mode: ModeView::Normal, status: error("bookmark: empty name"@), ..v },
            EffectView::Nothing,
        ),
{
}

/// With a mark on another change, `s` asks to squash the selected change
/// into the marked one and `x` asks to rebase the selected change onto
/// the marked one in the current rebase mode; neither runs anything yet.
pub proof fn law_marked_actions_name_source_and_destination(v: AppView, k: Key)
    requires
        v.mode == ModeView::Normal,
        v.marked is Some,
        sel(v) is Some,
        v.marked->0.id != sel(v)->0.id,
        k.press,
        k.code == KeyCode::Char('s') || k.code == KeyCode::Char('x'),
    ensures
        spec_handle_key(v, k).1 == EffectView::Nothing,
        k.code == KeyCode::Char('s') ==> (spec_handle_key(v, k).0.mode matches ModeView::Confirm(c)
            && c.action == (ConfirmActionView::Squash { from: sel(v)->0.id, into: v.marked->0.id })),
        k.code == KeyCode::Char('x') ==> (spec_handle_key(v, k).0.mode matches ModeView::Confirm(c)
            && c.action == (ConfirmActionView::Rebase {
            rev: sel(v)->0.id,
            onto: v.marked->0.id,
            mode: v.rebase_mode,
        })),
{
}

/// Enter in the log makes the selected change the working copy.
pub proof fn law_enter_edits_the_selected_change(v: AppView, k: Key)
    requires
        v.mode == ModeView::Normal,
        sel(v) is Some,
        k.press,
        k.code == KeyCode::Enter,
    ensures
        spec_handle_key(v, k) == (
            v,
            EffectView::Run {
                label: "edit"@,
                call: JjCallView {
                    dir: v.root,
                    globals: crate::jj::spec_write_globals(),
                    args: seq!["edit"@, sel(v)->0.id],
                },
            },
        ),
{
}

/// Keys in an input edit its value: a character is appended (Ctrl-u and
/// Ctrl-g aside), Backspace drops the last character, Ctrl-u clears it;
/// the prompt and what the input is for stay, and nothing runs.
pub proof fn law_typing_edits_the_input(v: AppView, k: Key, i: InputView, c: char)
    requires
        v.mode == ModeView::Input(i),
        k.press,
    ensures
        k.code == KeyCode::Char(c) && !k.ctrl ==> spec_handle_key(v, k) == (
            AppView { mode: ModeView::Input(InputView { value: i.value.push(c), ..i }), ..v },
            EffectView::Nothing,
        ),
        k.code == KeyCode::Backspace ==> spec_handle_key(v, k) == (
            AppView {
                mode: ModeView::Input(
                    InputView {
                        value: if i.value.len() == 0 {
                            i.value
                        } else {
                            i.value.subrange(0, i.value.len() - 1)
                        },
                        ..i
                    },
                ),
                ..v
            },
            EffectView::Nothing,
        ),
        k.code == KeyCode::Char('u') && k.ctrl ==> spec_handle_key(v, k) == (
            AppView { mode: ModeView::Input(InputView { value: Seq::empty(), ..i }), ..v },
            EffectView::Nothing,
        ),
{
}

/// The prompts of `n`, `e` and `b` act on the selected change and start
/// from what it has: nothing for a new child, its description to edit,
/// its first bookmark (or nothing) for a bookmark name.
pub proof fn law_prompts_start_from_the_change(v: AppView, k: Key)
    requires
        v.mode == ModeView::Normal,
        sel(v) is Some,
        k.press,
    ensures
        ({
            let c = sel(v)->0;
            let r = spec_handle_key(v, k);
            &&& k.code == KeyCode::Char('n') ==> r.1 == EffectView::Nothing
            &&& k.code == KeyCode::Char('n') ==> (r.0.mode matches ModeView::Input(i)
                && i.value.len() == 0 && i.action == (InputActionView::NewChild { rev: c.id }))
            &&& k.code == KeyCode::Char('e') ==> r.1 == EffectView::Nothing
            &&& k.code == KeyCode::Char('e') ==> (r.0.mode matches ModeView::Input(i)
                && i.value == c.description && i.action == (InputActionView::Describe { rev: c.id }))
            &&& k.code == KeyCode::Char('b') ==> r.1 == EffectView::Nothing
            &&& k.code == KeyCode::Char('b') ==> (r.0.mode matches ModeView::Input(i)
                && i.value == (if c.bookmarks.len() > 0 {
                c.bookmarks[0]
            } else {
                Seq::<char>::empty()
            }) && i.action == (InputActionView::Bookmark { rev: c.id }))
        }),
{
}

/// `m` marks the selected change, and `m` on the marked change clears
/// the mark: twice from no mark comes back to no mark.
pub proof fn law_mark_toggles(v: AppView, k: Key)
    requires
        v.mode == ModeView::Normal,
        sel(v) is Some,
        k.press,
        k.code == KeyCode::Char('m'),
    ensures
        spec_handle_key(v, k).1 == EffectView::Nothing,
        (v.marked is None || v.marked->0.id != sel(v)->0.id) ==> spec_handle_key(v, k).0.marked == sel(v),
        (v.marked is Some && v.marked->0.id == sel(v)->0.id) ==> spec_handle_key(v, k).0.marked is None,
        v.marked is None ==> spec_handle_key(spec_handle_key(v, k).0, k).0.marked is None,
{
}

/// A reload runs `jj log` with the log template and the revset in use
/// (`-r` only when one was set, so that jj's own `revsets.log` applies
/// otherwise), and then the working-copy status line.
pub proof fn law_reload_uses_the_revset(v: AppView, purpose: ReloadPurpose)
    ensures
        reload_effect(v, purpose) matches EffectView::Reload { purpose: p, log, status } && p == purpose
            && log.dir == v.root && log.globals == seq!["--no-pager"@, "--color"@, "never"@] && log.args
            == (match v.revset {
            Some(r) => seq!["log"@, "--template"@, crate::jj::LOG_TEMPLATE@, "-r"@, r],
            None => seq!["log"@, "--template"@, crate::jj::LOG_TEMPLATE@],
        }) && status == crate::jj::status_line_call(v.root),
{
}

/// A command that succeeded is reported by its first non-blank output
/// line after its label, and the log is reloaded; one that failed is
/// reported as failed and nothing more runs.
pub proof fn law_report_outcome(v: AppView, label: Seq<char>, result: Result<Seq<char>, Seq<char>>)
    ensures
        result matches Ok(out) ==> (spec_report(v, label, result).1 == reload_effect(
            v,
            ReloadPurpose::AfterCommand,
        ) && spec_report(v, label, result).0.status == info(
            match first_nonblank(lines(out)) {
                Some(d) => label + ": "@ + d,
                None => label,
            },
        )),
        result matches Err(e) ==> (spec_report(v, label, result).1 == EffectView::Nothing
            && spec_report(v, label, result).0.status == error(label + " failed: "@ + folded(e, " | "@))),
        spec_report(v, label, result).0 == (AppView { status: spec_report(v, label, result).0.status, ..v }),
{
}

/// A generated message replaces the value of the open input, whose
/// prompt and purpose stay; a failure is reported and the input is left
/// as it was.
pub proof fn law_generated_message_fills_the_input(v: AppView, i: InputView, result: Result<Seq<char>, Seq<char>>)
    requires
        v.mode == ModeView::Input(i),
    ensures
        result matches Ok(m) ==> spec_finish_ai(v, result).mode == ModeView::Input(InputView { value: m, ..i }),
        result matches Err(e) ==> spec_finish_ai(v, result) == (AppView { status: error("ai: "@ + e), ..v }),
{
}

/// A broken diff filter never blanks the diff: the raw diff is shown and
/// the failure reported; a working filter's output is shown in its place.
pub proof fn law_broken_filter_shows_the_raw_diff(v: AppView, raw: Seq<char>, e: Seq<char>, t: Seq<char>)
    ensures
        shown_diff(Ok(raw), Some(Err(e))) == Ok::<Seq<char>, Seq<char>>(raw),
        diff_status(v, Ok(raw), Some(Err(e))) == error("diff filter: "@ + folded(e, " | "@)),
        shown_diff(Ok(raw), Some(Ok(t))) == Ok::<Seq<char>, Seq<char>>(t),
        diff_status(v, Ok(raw), Some(Ok(t))) == v.status,
        shown_diff(Ok(raw), None) == Ok::<Seq<char>, Seq<char>>(raw),
{
}

/// For a commit not cached yet, the diff pane asks jj about the selected
/// change by its full id, one thing at a time: first its file list
/// (`diff --summary`, uncolored to be parsed), then its header (`show
/// --no-patch`, colored), then the diff of the selected file alone
/// (`diff` limited to that path, colored), passed through the diff
/// filter when one is set.
pub proof fn law_sync_asks_jj_about_the_selected_change(v: AppView)
    requires
        sel(v) is Some,
        cached_entry(v.store, sel(v)->0.commit_id) is None,
    ensures
        ({
            let c = sel(v)->0;
            &&& v.files_of != Some(c.commit_id) ==> spec_sync(v) == (
                v,
                DiffRequestView::Files {
                    commit_id: c.commit_id,
                    call: JjCallView {
                        dir: v.root,
                        globals: seq!["--no-pager"@, "--color"@, "never"@],
                        args: seq!["diff"@, "-r"@, c.id, "--summary"@],
                    },
                },
            )
            &&& v.files_of == Some(c.commit_id) && v.header_of != Some(c.commit_id) ==> spec_sync(v) == (
                v,
                DiffRequestView::Header {
                    commit_id: c.commit_id,
                    source: SourceView::Run(
                        JjCallView {
                            dir: v.root,
                            globals: seq!["--no-pager"@, "--color"@, "always"@],
                            args: seq!["show"@, "-r"@, c.id, "--no-patch"@],
                        },
                    ),
                },
            )
            &&& v.files_of == Some(c.commit_id) && v.header_of == Some(c.commit_id) && v.diff_rendered != Some(
                (c.commit_id, selected_path(v)),
            ) ==> spec_sync(v) == (
                v,
                DiffRequestView::Diff {
                    commit_id: c.commit_id,
                    path: selected_path(v),
                    source: SourceView::Run(
                        JjCallView {
                            dir: v.root,
                            globals: seq!["--no-pager"@, "--color"@, "always"@],
                            args: match selected_path(v) {
                                Some(p) => seq!["diff"@, "-r"@, c.id, p],
                                None => seq!["diff"@, "-r"@, c.id],
                            },
                        },
                    ),
                    filter: v.filter_cmd,
                },
            )
        }),
{
}

/// A change cannot be squashed into itself: `s` on the marked change only
/// reports it.
pub proof fn law_squash_refuses_the_same_change(v: AppView, k: Key)
    requires
        v.mode == ModeView::Normal,
        v.marked is Some,
        sel(v) is Some,
        v.marked->0.id == sel(v)->0.id,
        k.press,
        k.code == KeyCode::Char('s'),
    ensures
        spec_handle_key(v, k) == (
            AppView { status: error("squash: source and destination are the same change"@), ..v },
            EffectView::Nothing,
        ),
{
}

/// The keys of normal mode that do not act on a change: `q`, Esc and
/// Ctrl-c quit; `?` opens the help; `/` opens a prompt holding the revset
/// in use; Ctrl-r reloads; `A` switches between `all()` and jj's default
/// revset and reloads with it. None of them runs a jj command of its own.
pub proof fn law_normal_keys(v: AppView, k: Key)
    requires
        v.mode == ModeView::Normal,
        k.press,
    ensures
        (k.code == KeyCode::Char('q') || k.code == KeyCode::Esc || (k.code == KeyCode::Char('c') && k.ctrl))
            ==> spec_handle_key(v, k) == (AppView { should_quit: true, ..v }, EffectView::Nothing),
        k.code == KeyCode::Char('?') ==> spec_handle_key(v, k) == (
            AppView { mode: ModeView::Help, ..v },
            EffectView::Nothing,
        ),
        k.code == KeyCode::Char('/') ==> spec_handle_key(v, k) == (
            AppView {
                mode: ModeView::Input(
                    InputView {
                        prompt: "revset"@,
                        value: match v.revset {
                            Some(r) => r,
                            None => Seq::empty(),
                        },
                        action: InputActionView::Revset,
                    },
                ),
                ..v
            },
            EffectView::Nothing,
        ),
        k.code == KeyCode::Char('r') && k.ctrl ==> spec_handle_key(v, k) == (
            v,
            reload_effect(v, ReloadPurpose::Manual),
        ),
        k.code == KeyCode::Char('A') ==> {
            let r = if v.revset == Some("all()"@) {
                None
            } else {
                Some("all()"@)
            };
            spec_handle_key(v, k) == (
                AppView { revset: r, ..v },
                reload_effect(AppView { revset: r, ..v }, ReloadPurpose::Revset),
            )
        },
{
}

/// One step down from a change selects the next change below it, and one
/// step up the next change above it, skipping the connector rows between
/// them.
pub proof fn law_step_selects_the_adjacent_change(rows: Seq<RowView>, selected: int, j: int)
    requires
        0 <= selected < rows.len(),
        is_change_row(rows[selected]),
        0 <= j < rows.len(),
        is_change_row(rows[j]),
        j != selected,
    ensures
        ({
            let n = spec_move_selection(rows, selected, if j > selected { 1 } else { -1 });
            &&& 0 <= n < rows.len()
            &&& is_change_row(rows[n])
            &&& j > selected ==> selected < n <= j
            &&& j < selected ==> j <= n < selected
            &&& forall|m: int| #![trigger rows[m]]
                (selected < m < n || n < m < selected) ==> !is_change_row(rows[m])
        }),
{
    lemma_change_positions(rows);
    let cs = change_positions(rows);
    assert(cs.contains(selected));
    assert(cs.contains(j));
    lemma_position(cs, selected);
    let p = position(cs, selected)->0;
    let kj = choose|k: int| 0 <= k < cs.len() && cs[k] == j;
    if j > selected {
        if kj <= p {
            if kj < p {
                assert(cs[kj] < cs[p]);
            }
        }
        assert(p < kj);
        let n = cs[p + 1];
        assert(spec_move_selection(rows, selected, 1) == n);
        if p + 1 < kj {
            assert(cs[p + 1] < cs[kj]);
        }
        assert(cs[p] < cs[p + 1]);
        assert forall|m: int| #![trigger rows[m]] selected < m < n implies !is_change_row(rows[m]) by {
            if is_change_row(rows[m]) {
                assert(cs.contains(m));
                let km = choose|k: int| 0 <= k < cs.len() && cs[k] == m;
                if km <= p {
                    if km < p {
                        assert(cs[km] < cs[p]);
                    }
                } else if km >= p + 1 {
                    if km > p + 1 {
                        assert(cs[p + 1] < cs[km]);
                    }
                }
            }
        }
    } else {
        if kj >= p {
            if kj > p {
                assert(cs[p] < cs[kj]);
            }
        }
        assert(kj < p);
        let n = cs[p - 1];
        assert(spec_move_selection(rows, selected, -1) == n);
        if kj < p - 1 {
            assert(cs[kj] < cs[p - 1]);
        }
        assert(cs[p - 1] < cs[p]);
        assert forall|m: int| #![trigger rows[m]] n < m < selected implies !is_change_row(rows[m]) by {
            if is_change_row(rows[m]) {
                assert(cs.contains(m));
                let km = choose|k: int| 0 <= k < cs.len() && cs[k] == m;
                if km >= p {
                    if km > p {
                        assert(cs[p] < cs[km]);
                    }
                } else if km <= p - 1 {
                    if km < p - 1 {
                        assert(cs[km] < cs[p - 1]);
                    }
                }
            }
        }
    }
}

} // verus!
