//! What the screen shows, as text: the pieces of each log and files line
//! with the tint each is drawn in, the pane titles, the status bar, the
//! help lines and the sizes of the panes. Drawing them is the caller's
//! part.
use vstd::prelude::*;

use crate::app::PaneLayout;
use crate::jj::{spec_flag, spec_summary, Change, ChangeView, DiffFile, RebaseMode, Row, RowView};
use crate::text::{cat, decimal, decimal_string, join, join_strings, pad_left, pad_left_str};

verus! {

/// The share, in percent, of the screen's width that the log pane takes;
/// the right-hand panes take the rest.
pub const LOG_PERCENT: u16 = 50;

/// The share, in percent, of the screen's width that the right-hand
/// panes take.
pub const RIGHT_PERCENT: u16 = 100 - LOG_PERCENT;

/// The width the help overlay right-aligns the keys to.
pub const KEY_WIDTH: usize = 16;

/// The second line of the confirmation dialog.
pub const CONFIRM_HINT: &'static str = "y / Enter: yes    any other key: cancel";

/// The keys the help overlay lists, each with what it does.
pub const KEYS: [(&'static str, &'static str); 24] = [
    ("j / k", "move (log pane), select a file (files pane), or scroll (diff pane)"),
    ("g / G", "first / last (in whichever pane has focus)"),
    ("Ctrl-d / Ctrl-u", "half-page move"),
    ("Tab / Shift-Tab", "cycle focus: log -> files -> diff (Shift-Tab reverses)"),
    ("Enter", "jj edit — make the selected change the working copy"),
    ("n", "jj new — child of the selected change (description prompt)"),
    ("e", "jj describe — edit the description"),
    ("Ctrl-g", "(in the n/e prompt) fill the message from the diff via AI"),
    ("r", "jj restore — discard the selected file's change (files pane)"),
    ("p", "jj absorb — move the selected file's change into ancestor commits (files pane)"),
    ("o", "open the selected file in $EDITOR (or $VISUAL) (files pane)"),
    ("b", "jj bookmark set"),
    ("m", "mark the selected change as the squash / rebase target"),
    ("s", "jj squash — selected change into the marked one"),
    ("x", "jj rebase — selected onto the marked change, or onto a revset you type"),
    ("R", "cycle rebase mode: -r / -s / -b"),
    ("L", "cycle pane layout: stacked / diff-below"),
    ("a", "jj abandon"),
    ("u / U", "jj undo / jj redo"),
    ("/", "set the log revset"),
    ("A", "toggle the revset all()"),
    ("Ctrl-r", "reload"),
    ("?", "toggle help"),
    ("q, Esc", "quit"),
    ];

/// How a piece of a line is drawn.
#[derive(Debug, Clone, Copy, PartialEq, Eq, Structural)]
pub enum Tint {
    /// The mark column.
    Mark,
    /// jj's graph drawing.
    Graph,
    ChangeId,
    CommitId,
    Plain,
    Bookmarks,
    Conflict,
    Empty,
    Immutable,
    /// The stand-in for a missing description.
    Placeholder,
    /// File status letters.
    Added,
    Deleted,
    Modified,
    Renamed,
    OtherStatus,
}

/// A piece of a line and its tint.
#[derive(Debug, Clone, PartialEq, Eq)]
pub struct Piece {
    pub text: String,
    pub tint: Tint,
}

/// The view of a sequence of pieces.
pub open spec fn pieces_view(v: Seq<Piece>) -> Seq<(Seq<char>, Tint)> {
    Seq::new(v.len(), |i: int| (v[i].text@, v[i].tint))
}

/// A flag of a change, in the form the log shows it, when it is set.
pub open spec fn flag_piece(set: bool, name: Seq<char>, tint: Tint) -> Seq<(Seq<char>, Tint)> {
    if set {
        seq![("("@ + name + ") "@, tint)]
    } else {
        Seq::empty()
    }
}

/// The leading pieces of a change's log line: the mark column (a
/// diamond when it is the marked change), the graph, and the short change
/// and commit ids, each followed by a space.
pub open spec fn head_pieces(graph: Seq<char>, change: ChangeView, marked: Option<Seq<char>>) -> Seq<(Seq<char>, Tint)> {
    seq![
        (if marked == Some(change.id) {
            "◆"@
        } else {
            " "@
        }, Tint::Mark),
        (graph, Tint::Graph),
        (change.short_id, Tint::ChangeId),
        (" "@, Tint::Plain),
        (change.commit_id, Tint::CommitId),
        (" "@, Tint::Plain),
    ]
}

/// The bookmarks of a change, joined with spaces and followed by one,
/// when it has any.
pub open spec fn bookmark_pieces(change: ChangeView) -> Seq<(Seq<char>, Tint)> {
    if change.bookmarks.len() > 0 {
        seq![(join(change.bookmarks, " "@), Tint::Bookmarks), (" "@, Tint::Plain)]
    } else {
        Seq::empty()
    }
}

/// The flags set on a change.
pub open spec fn flag_pieces(change: ChangeView) -> Seq<(Seq<char>, Tint)> {
    flag_piece(change.has_conflict, "conflict"@, Tint::Conflict) + flag_piece(
        change.is_empty,
        "empty"@,
        Tint::Empty,
    ) + flag_piece(change.is_immutable, "immutable"@, Tint::Immutable)
}

/// The description of a change, or its stand-in when there is none.
pub open spec fn description_piece(change: ChangeView) -> (Seq<char>, Tint) {
    if change.description.len() == 0 {
        (spec_summary(change.description), Tint::Placeholder)
    } else {
        (change.description, Tint::Plain)
    }
}

/// The pieces of a log line: for a change its head, its bookmarks, the
/// flags set and its description; for a connector the graph alone.
pub open spec fn spec_row_pieces(row: RowView, marked: Option<Seq<char>>) -> Seq<(Seq<char>, Tint)> {
    match row {
        RowView::Connector(graph) => seq![(graph, Tint::Graph)],
        RowView::Change { graph, change } => head_pieces(graph, change, marked) + bookmark_pieces(change)
            + flag_pieces(change) + seq![description_piece(change)],
    }
}

/// The log line of a change shows each flag that is set, and only those:
/// `(conflict) `, `(empty) ` and `(immutable) `, each in its own tint,
/// all of them before the description, which ends the line.
pub proof fn law_flags_are_shown(graph: Seq<char>, change: ChangeView, marked: Option<Seq<char>>)
    ensures
        ({
            let p = spec_row_pieces(RowView::Change { graph, change }, marked);
            &&& p.contains(("(conflict) "@, Tint::Conflict)) <==> change.has_conflict
            &&& p.contains(("(empty) "@, Tint::Empty)) <==> change.is_empty
            &&& p.contains(("(immutable) "@, Tint::Immutable)) <==> change.is_immutable
            &&& p.last() == (if change.description.len() == 0 {
                (spec_summary(change.description), Tint::Placeholder)
            } else {
                (change.description, Tint::Plain)
            })
        }),
{
    reveal_strlit("(");
    reveal_strlit(") ");
    reveal_strlit("conflict");
    reveal_strlit("empty");
    reveal_strlit("immutable");
    reveal_strlit("(conflict) ");
    reveal_strlit("(empty) ");
    reveal_strlit("(immutable) ");
    assert("("@ + "conflict"@ + ") "@ =~= "(conflict) "@);
    assert("("@ + "empty"@ + ") "@ =~= "(empty) "@);
    assert("("@ + "immutable"@ + ") "@ =~= "(immutable) "@);
    let h = head_pieces(graph, change, marked);
    let b = bookmark_pieces(change);
    let fc = flag_piece(change.has_conflict, "conflict"@, Tint::Conflict);
    let fe = flag_piece(change.is_empty, "empty"@, Tint::Empty);
    let fi = flag_piece(change.is_immutable, "immutable"@, Tint::Immutable);
    let d = description_piece(change);
    let p = spec_row_pieces(RowView::Change { graph, change }, marked);
    assert(p =~= h + b + fc + fe + fi + seq![d]);
    let n0: int = h.len() as int + b.len();
    let n1: int = n0 + fc.len();
    let n2: int = n1 + fe.len();
    assert forall|j: int| 0 <= j < p.len() implies {
        &&& (p[j].1 == Tint::Conflict ==> n0 <= j < n1)
        &&& (p[j].1 == Tint::Empty ==> n1 <= j < n2)
        &&& (p[j].1 == Tint::Immutable ==> n2 <= j < n2 + fi.len())
    } by {
        if j < h.len() {
            assert(p[j] == h[j]);
        } else if j < n0 {
            assert(p[j] == b[j - h.len()]);
        } else if j < n1 {
            assert(p[j] == fc[j - n0]);
        } else if j < n2 {
            assert(p[j] == fe[j - n1]);
        } else if j < n2 + fi.len() {
            assert(p[j] == fi[j - n2]);
        } else {
            assert(p[j] == d);
        }
    }
    if change.has_conflict {
        assert(p[n0] == fc[0]);
    }
    if change.is_empty {
        assert(p[n1] == fe[0]);
    }
    if change.is_immutable {
        assert(p[n2] == fi[0]);
    }
}

/// The log line of a change starts with the mark column, a diamond
/// exactly when it is the marked change, then jj's graph, the short
/// change id and the short commit id; a connector line is its graph
/// alone.
pub proof fn law_row_starts_with_mark_and_ids(graph: Seq<char>, change: ChangeView, marked: Option<Seq<char>>)
    ensures
        ({
            let p = spec_row_pieces(RowView::Change { graph, change }, marked);
            &&& p.len() >= 7
            &&& p[0] == (if marked == Some(change.id) {
                "◆"@
            } else {
                " "@
            }, Tint::Mark)
            &&& p[1] == (graph, Tint::Graph)
            &&& p[2] == (change.short_id, Tint::ChangeId)
            &&& p[4] == (change.commit_id, Tint::CommitId)
        }),
        spec_row_pieces(RowView::Connector(graph), marked) == seq![(graph, Tint::Graph)],
{
    let p = spec_row_pieces(RowView::Change { graph, change }, marked);
    let h = head_pieces(graph, change, marked);
    let rest = bookmark_pieces(change) + flag_pieces(change) + seq![description_piece(change)];
    assert(p =~= h + rest);
    assert(p[0] == h[0] && p[1] == h[1] && p[2] == h[2] && p[4] == h[4]);
}

/// The status bar always shows the working copy, the marked change's
/// short id (`-` when there is none) and the flag of the rebase mode.
pub proof fn law_status_bar_shows_target_and_mode(working_copy: Seq<char>, marked: Option<ChangeView>, mode: RebaseMode)
    ensures
        spec_status_right(working_copy, marked, mode) == " @ "@ + working_copy + "  mark:"@ + (match marked {
            Some(c) => c.short_id,
            None => "-"@,
        }) + "  rebase:"@ + (match mode {
            RebaseMode::Revision => "-r"@,
            RebaseMode::Source => "-s"@,
            RebaseMode::Branch => "-b"@,
        }) + " "@,
{
}

fn piece(text: String, tint: Tint) -> (p: Piece)
    ensures
        p.text@ == text@,
        p.tint == tint,
{
    Piece { text, tint }
}

fn push_piece(v: &mut Vec<Piece>, text: String, tint: Tint)
    ensures
        pieces_view(final(v)@) == pieces_view(old(v)@).push((text@, tint)),
{
    let ghost before = v@;
    v.push(piece(text, tint));
    assert(pieces_view(v@) =~= pieces_view(before).push((text@, tint)));
}

fn push_flag(v: &mut Vec<Piece>, set: bool, name: &str, tint: Tint)
    ensures
        pieces_view(final(v)@) == pieces_view(old(v)@) + flag_piece(set, name@, tint),
{
    if set {
        let mut t = cat("(", name);
        t.append(") ");
        push_piece(v, t, tint);
        assert(pieces_view(v@) =~= pieces_view(old(v)@) + flag_piece(set, name@, tint));
    } else {
        assert(pieces_view(v@) =~= pieces_view(old(v)@) + flag_piece(set, name@, tint));
    }
}

fn push_head(v: &mut Vec<Piece>, graph: &String, change: &Change, is_marked: bool)
    ensures
        pieces_view(final(v)@) == pieces_view(old(v)@) + head_pieces(
            graph@,
            change@,
            if is_marked {
                Some(change.id@)
            } else {
                None
            },
        ),
{
    push_piece(v, String::from_str(if is_marked { "◆" } else { " " }), Tint::Mark);
    push_piece(v, graph.clone(), Tint::Graph);
    push_piece(v, change.short_id.clone(), Tint::ChangeId);
    push_piece(v, String::from_str(" "), Tint::Plain);
    push_piece(v, change.commit_id.clone(), Tint::CommitId);
    push_piece(v, String::from_str(" "), Tint::Plain);
    let ghost m = if is_marked {
        Some(change.id@)
    } else {
        None
    };
    assert(pieces_view(v@) =~= pieces_view(old(v)@) + head_pieces(graph@, change@, m));
}

fn push_bookmarks(v: &mut Vec<Piece>, change: &Change)
    ensures
        pieces_view(final(v)@) == pieces_view(old(v)@) + bookmark_pieces(change@),
{
    if change.bookmarks.len() > 0 {
        push_piece(v, join_strings(&change.bookmarks, " "), Tint::Bookmarks);
        push_piece(v, String::from_str(" "), Tint::Plain);
    }
    assert(pieces_view(v@) =~= pieces_view(old(v)@) + bookmark_pieces(change@));
}

fn push_flags(v: &mut Vec<Piece>, change: &Change)
    ensures
        pieces_view(final(v)@) == pieces_view(old(v)@) + flag_pieces(change@),
{
    push_flag(v, change.has_conflict, "conflict", Tint::Conflict);
    push_flag(v, change.is_empty, "empty", Tint::Empty);
    push_flag(v, change.is_immutable, "immutable", Tint::Immutable);
    assert(pieces_view(v@) =~= pieces_view(old(v)@) + flag_pieces(change@));
}

fn push_description(v: &mut Vec<Piece>, change: &Change)
    ensures
        pieces_view(final(v)@) == pieces_view(old(v)@).push(description_piece(change@)),
{
    if change.description.as_str().is_empty() {
        push_piece(v, change.summary(), Tint::Placeholder);
    } else {
        push_piece(v, change.description.clone(), Tint::Plain);
    }
}

/// The pieces of the log line of `row`, `marked` being the id of the
/// marked change.
pub fn row_pieces(row: &Row, marked: Option<&str>) -> (r: Vec<Piece>)
    ensures
        pieces_view(r@) == spec_row_pieces(
            row@,
            match marked {
                Some(m) => Some(m@),
                None => None,
            },
        ),
{
    let ghost mv = match marked {
        Some(m) => Some(m@),
        None => None::<Seq<char>>,
    };
    let mut v: Vec<Piece> = Vec::new();
    match row {
        Row::Connector(graph) => {
            push_piece(&mut v, graph.clone(), Tint::Graph);
            assert(pieces_view(v@) =~= spec_row_pieces(row@, mv));
        },
        Row::Change { graph, change } => {
            let is_marked = match marked {
                Some(m) => crate::text::str_eq(m, change.id.as_str()),
                None => false,
            };
            push_head(&mut v, graph, change, is_marked);
            assert(head_pieces(graph@, change@, if is_marked { Some(change.id@) } else { None })
                == head_pieces(graph@, change@, mv));
            push_bookmarks(&mut v, change);
            push_flags(&mut v, change);
            push_description(&mut v, change);
            assert(pieces_view(v@) =~= spec_row_pieces(row@, mv));
        },
    }
    v
}

/// The tint of a file's status letter.
pub open spec fn spec_file_tint(status: char) -> Tint {
    if status == 'A' {
        Tint::Added
    } else if status == 'D' {
        Tint::Deleted
    } else if status == 'M' {
        Tint::Modified
    } else if status == 'R' || status == 'C' {
        Tint::Renamed
    } else {
        Tint::OtherStatus
    }
}

/// The tint of a file's status letter: added, deleted, modified, renamed
/// or copied, and anything else.
pub fn file_tint(status: char) -> (t: Tint)
    ensures
        t == spec_file_tint(status),
{
    if status == 'A' {
        Tint::Added
    } else if status == 'D' {
        Tint::Deleted
    } else if status == 'M' {
        Tint::Modified
    } else if status == 'R' || status == 'C' {
        Tint::Renamed
    } else {
        Tint::OtherStatus
    }
}

/// The pieces of a line of the files pane: the status letter and a
/// space, then the path.
pub fn file_pieces(f: &DiffFile) -> (r: Vec<Piece>)
    ensures
        pieces_view(r@) == seq![(seq![f.status, ' '], spec_file_tint(f.status)), (f.path@, Tint::Plain)],
{
    let mut v: Vec<Piece> = Vec::new();
    let mut s = String::new();
    crate::text::push_char(&mut s, f.status);
    crate::text::push_char(&mut s, ' ');
    assert(s@ =~= seq![f.status, ' ']);
    push_piece(&mut v, s, file_tint(f.status));
    push_piece(&mut v, f.path.clone(), Tint::Plain);
    assert(pieces_view(v@) =~= seq![(seq![f.status, ' '], spec_file_tint(f.status)), (f.path@, Tint::Plain)]);
    v
}

/// The title of the log pane: the revset, when one was given.
pub open spec fn spec_log_title(revset: Option<Seq<char>>) -> Seq<char> {
    match revset {
        Some(r) => " log  -r "@ + r + " "@,
        None => " log "@,
    }
}

/// The title of the log pane.
pub fn log_title(revset: Option<&str>) -> (r: String)
    ensures
        r@ == spec_log_title(
            match revset {
                Some(s) => Some(s@),
                None => None,
            },
        ),
{
    match revset {
        Some(s) => {
            let mut t = cat(" log  -r ", s);
            t.append(" ");
            t
        },
        None => String::from_str(" log "),
    }
}

/// The title of the files pane: how many files there are.
pub fn files_title(count: usize) -> (r: String)
    ensures
        r@ == " files ("@ + decimal(count as nat) + ") "@,
{
    let mut t = String::from_str(" files (");
    let n = decimal_string(count);
    t.append(n.as_str());
    t.append(") ");
    t
}

/// The title of the diff pane: the selected change's ids and the
/// selected file's path.
pub open spec fn spec_diff_title(change: Option<ChangeView>, path: Option<Seq<char>>) -> Seq<char> {
    match change {
        Some(c) => match path {
            Some(p) => " "@ + c.short_id + " "@ + c.commit_id + " — "@ + p + " "@,
            None => " "@ + c.short_id + " "@ + c.commit_id + " "@,
        },
        None => " diff "@,
    }
}

/// The title of the diff pane.
pub fn diff_title(change: Option<&Change>, file: Option<&DiffFile>) -> (r: String)
    ensures
        r@ == spec_diff_title(
            match change {
                Some(c) => Some(c@),
                None => None,
            },
            match file {
                Some(f) => Some(f.path@),
                None => None,
            },
        ),
{
    match change {
        Some(c) => {
            let mut t = cat(" ", c.short_id.as_str());
            t.append(" ");
            t.append(c.commit_id.as_str());
            match file {
                Some(f) => {
                    t.append(" — ");
                    t.append(f.path.as_str());
                    t.append(" ");
                },
                None => {
                    t.append(" ");
                },
            }
            t
        },
        None => String::from_str(" diff "),
    }
}

/// The left part of the status bar: the message, padded by a space on
/// each side.
pub fn status_left(text: &str) -> (r: String)
    ensures
        r@ == " "@ + text@ + " "@,
{
    let mut t = cat(" ", text);
    t.append(" ");
    t
}

/// The right part of the status bar: the working copy, the marked change
/// (`-` for none) and the rebase mode's flag.
pub open spec fn spec_status_right(working_copy: Seq<char>, marked: Option<ChangeView>, mode: RebaseMode) -> Seq<char> {
    " @ "@ + working_copy + "  mark:"@ + (match marked {
        Some(c) => c.short_id,
        None => "-"@,
    }) + "  rebase:"@ + spec_flag(mode) + " "@
}

/// The right part of the status bar.
pub fn status_right(working_copy: &str, marked: Option<&Change>, mode: RebaseMode) -> (r: String)
    ensures
        r@ == spec_status_right(
            working_copy@,
            match marked {
                Some(c) => Some(c@),
                None => None,
            },
            mode,
        ),
{
    let mut t = cat(" @ ", working_copy);
    t.append("  mark:");
    match marked {
        Some(c) => t.append(c.short_id.as_str()),
        None => t.append("-"),
    }
    t.append("  rebase:");
    t.append(mode.flag());
    t.append(" ");
    t
}

/// The title of the input box: the prompt and its keys, with Ctrl-g when
/// a message can be generated.
pub open spec fn spec_input_title(prompt: Seq<char>, ai_available: bool) -> Seq<char> {
    " "@ + prompt + "  (Enter: ok / Esc: cancel"@ + (if ai_available {
        " / Ctrl-g: ai"@
    } else {
        ""@
    }) + ") "@
}

/// The title of the input box.
pub fn input_title(prompt: &str, ai_available: bool) -> (r: String)
    ensures
        r@ == spec_input_title(prompt@, ai_available),
{
    let mut t = cat(" ", prompt);
    t.append("  (Enter: ok / Esc: cancel");
    if ai_available {
        t.append(" / Ctrl-g: ai");
    } else {
        proof {
            reveal_strlit("");
        }
        assert(t@ + ""@ =~= t@);
    }
    t.append(") ");
    t
}

/// The key column of a help line: the keys right-aligned to
/// [`KEY_WIDTH`] characters, then two spaces.
pub fn help_keys(keys: &str) -> (r: String)
    ensures
        r@ == pad_left(keys@, KEY_WIDTH as nat) + "  "@,
{
    let mut t = pad_left_str(keys, KEY_WIDTH);
    t.append("  ");
    t
}

/// The height of the files pane: its files plus two border lines, at
/// least three, and at most what leaves the diff pane three lines of a
/// right-hand area `area_height` high (never below three). The count plus
/// two is taken as a 16-bit terminal height, wrapping past 2^16.
pub open spec fn spec_files_height(files: nat, area_height: u16) -> int {
    let most: int = if area_height >= 6 {
        area_height - 3
    } else {
        3
    };
    let want: int = ((files % 65536) as int + 2) % 65536;
    if want < 3 {
        3
    } else if want > most {
        most
    } else {
        want
    }
}

/// The files pane is at least three lines high (one file between its
/// borders), leaves the diff pane at least three lines when the area has
/// room for both, and otherwise fits its files and borders exactly.
pub proof fn law_files_pane_fits(files: nat, area_height: u16)
    ensures
        spec_files_height(files, area_height) >= 3,
        area_height >= 6 ==> spec_files_height(files, area_height) <= area_height - 3,
        files >= 1 && files + 2 <= area_height - 3 ==> spec_files_height(files, area_height) == files + 2,
{
}

/// The height of the files pane.
pub fn files_pane_height(files: usize, area_height: u16) -> (h: u16)
    ensures
        h == spec_files_height(files as nat, area_height),
{
    let most: u16 = if area_height >= 6 {
        area_height - 3
    } else {
        3
    };
    let low: u16 = (files % 65536) as u16;
    let want: u16 = if low < 65534 {
        low + 2
    } else {
        low - 65534
    };
    if want < 3 {
        3
    } else if want > most {
        most
    } else {
        want
    }
}

/// The width ratatui's layout gives the second of two areas that split a
/// row `total` columns wide by `left` and `right` percent. The split is
/// the solution of a fixed set of linear constraints built from these
/// three numbers (and cached by them), so it depends on them alone.
pub uninterp spec fn layout_second_width(total: u16, left: u16, right: u16) -> u16;

/// ratatui's `Layout::horizontal` with two percentage constraints, laid
/// over a row `total` wide: the width of the second area, which the
/// solver keeps inside the row.
#[verifier::external_body]
fn second_area_width(total: u16, left: u16, right: u16) -> (w: u16)
    ensures
        w == layout_second_width(total, left, right),
        w <= total,
{
    let [_, second] = ratatui::layout::Layout::horizontal([
        ratatui::layout::Constraint::Percentage(left),
        ratatui::layout::Constraint::Percentage(right),
    ]).areas(ratatui::layout::Rect::new(0, 0, total, 1));
    second.width
}

/// The width of the diff pane's text on a screen `total_width` wide, less
/// its two border columns: in the stacked layout the right-hand area of
/// the split with the log pane, below the other panes the full width.
pub fn diff_pane_width(total_width: u16, layout: PaneLayout) -> (w: u16)
    ensures
        layout == PaneLayout::DiffBelow ==> w as int == if total_width >= 2 {
            total_width - 2
        } else {
            0
        },
        layout == PaneLayout::Stacked ==> w as int == if layout_second_width(
            total_width,
            LOG_PERCENT,
            RIGHT_PERCENT,
        ) >= 2 {
            layout_second_width(total_width, LOG_PERCENT, RIGHT_PERCENT) - 2
        } else {
            0
        },
        w <= total_width,
{
    let area = match layout {
        PaneLayout::Stacked => second_area_width(total_width, LOG_PERCENT, RIGHT_PERCENT),
        PaneLayout::DiffBelow => total_width,
    };
    if area >= 2 {
        area - 2
    } else {
        0
    }
}

} // verus!
