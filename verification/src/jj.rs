//! The boundary with the `jj` CLI: the command lines this crate hands to
//! `jj`, and the parsers for what `jj` prints.
//!
//! `jj log` mixes its graph drawing into stdout. The log template starts
//! each record with an ASCII record separator, so the text before it on a
//! line is jj's own graph and the text after it is the record; a line
//! without the marker is a connector line of the graph.
use vstd::prelude::*;

use crate::decode::{utf8_lossy, utf8_lossy_string};
use crate::text::{
    chars_of, copy_range, drop_empty, find_seq, first_index, insert_sorted, join, join_strings,
    lines, lines_of, opt_str_view, scan_to, split_char, split_on, strictly_sorted, string_of,
    string_of_all, strings_view, trim, trim_bounds, trim_end, trim_str, views,
};

verus! {

/// Marks the start of a record in a `jj log` line.
pub const RECORD: char = '\x1e';

/// Separates the fields of a record.
pub const FIELD: char = '\x1f';

/// The template passed to `jj log`; its fields come in the order that
/// [`parse_change`] reads them.
pub const LOG_TEMPLATE: &'static str = r#""\x1e" ++ change_id ++ "\x1f" ++ change_id.shortest(8) ++ "\x1f" ++ commit_id.shortest(8) ++ "\x1f" ++ if(current_working_copy, "1", "0") ++ "\x1f" ++ if(empty, "1", "0") ++ "\x1f" ++ if(conflict, "1", "0") ++ "\x1f" ++ if(immutable, "1", "0") ++ "\x1f" ++ author.name() ++ "\x1f" ++ author.timestamp().local().format("%Y-%m-%d %H:%M") ++ "\x1f" ++ bookmarks.map(|b| b.name()).join(",") ++ "\x1f" ++ description.first_line() ++ "\n""#;

/// The template of the working-copy status line.
pub const STATUS_TEMPLATE: &'static str = r#"change_id.shortest(8) ++ if(empty, " (empty)", "") ++ if(conflict, " (conflict)", "")"#;

/// The template of the last-operation line.
pub const OPERATION_TEMPLATE: &'static str = r#"description.first_line()"#;

/// The template of the bookmark list.
pub const BOOKMARK_TEMPLATE: &'static str = r#"name ++ "\n""#;

/// The value given to `ui.editor` for rewriting commands: a program that
/// does not exist, so that jj fails visibly instead of opening an editor.
pub const NO_EDITOR: &'static str = "ui.editor=shikigami-refuses-to-open-an-editor";

/// One change in the log.
#[derive(Debug, PartialEq, Eq)]
pub struct Change {
    /// The full change id; commands are always given this one.
    pub id: String,
    /// The short change id, for display.
    pub short_id: String,
    /// The short commit id, for display.
    pub commit_id: String,
    pub is_working_copy: bool,
    pub is_empty: bool,
    pub has_conflict: bool,
    /// Under `immutable_heads()`; rewriting commands are refused by jj.
    pub is_immutable: bool,
    pub author: String,
    pub timestamp: String,
    pub bookmarks: Vec<String>,
    /// The first line of the description; empty when there is none.
    pub description: String,
}

pub struct ChangeView {
    pub id: Seq<char>,
    pub short_id: Seq<char>,
    pub commit_id: Seq<char>,
    pub is_working_copy: bool,
    pub is_empty: bool,
    pub has_conflict: bool,
    pub is_immutable: bool,
    pub author: Seq<char>,
    pub timestamp: Seq<char>,
    pub bookmarks: Seq<Seq<char>>,
    pub description: Seq<char>,
}

impl View for Change {
    type V = ChangeView;

    open spec fn view(&self) -> ChangeView {
        ChangeView {
            id: self.id@,
            short_id: self.short_id@,
            commit_id: self.commit_id@,
            is_working_copy: self.is_working_copy,
            is_empty: self.is_empty,
            has_conflict: self.has_conflict,
            is_immutable: self.is_immutable,
            author: self.author@,
            timestamp: self.timestamp@,
            bookmarks: strings_view(self.bookmarks@),
            description: self.description@,
        }
    }
}

/// Copies a vector of strings.
pub fn copy_strings(v: &Vec<String>) -> (r: Vec<String>)
    ensures
        strings_view(r@) == strings_view(v@),
{
    let mut r: Vec<String> = Vec::new();
    let mut i: usize = 0;
    while i < v.len()
        invariant
            i <= v@.len(),
            strings_view(r@) == strings_view(v@).take(i as int),
        decreases v@.len() - i,
    {
        let ghost old_r = r@;
        assert(strings_view(old_r).len() == old_r.len());
        assert(strings_view(v@).take(i as int).len() == i);
        let c = v[i].clone();
        r.push(c);
        assert(r@ == old_r.push(c));
        assert forall|j: int| 0 <= j < i + 1 implies #[trigger] strings_view(r@)[j] == strings_view(v@).take(i + 1)[j] by {
            if j < i {
                assert(strings_view(r@)[j] == r@[j]@);
                assert(r@[j] == old_r[j]);
                assert(strings_view(old_r)[j] == old_r[j]@);
            }
        }
        assert(strings_view(r@) =~= strings_view(v@).take(i + 1));
        i = i + 1;
    }
    assert(strings_view(v@).take(v@.len() as int) =~= strings_view(v@));
    r
}

impl Clone for Change {
    fn clone(&self) -> (r: Self)
        ensures
            r@ == self@,
    {
        Change {
            id: self.id.clone(),
            short_id: self.short_id.clone(),
            commit_id: self.commit_id.clone(),
            is_working_copy: self.is_working_copy,
            is_empty: self.is_empty,
            has_conflict: self.has_conflict,
            is_immutable: self.is_immutable,
            author: self.author.clone(),
            timestamp: self.timestamp.clone(),
            bookmarks: copy_strings(&self.bookmarks),
            description: self.description.clone(),
        }
    }
}

/// What the log shows for a description: the description itself, or a
/// placeholder when it is empty.
pub open spec fn spec_summary(description: Seq<char>) -> Seq<char> {
    if description.len() == 0 {
        "(no description set)"@
    } else {
        description
    }
}

impl Change {
    /// The label of this change in a list (without the graph part).
    pub fn summary(&self) -> (r: String)
        ensures
            r@ == spec_summary(self.description@),
    {
        if self.description.as_str().is_empty() {
            String::from_str("(no description set)")
        } else {
            self.description.clone()
        }
    }
}

/// One line of `jj log`.
#[derive(Debug, PartialEq, Eq)]
pub enum Row {
    /// One change; `graph` is the graph part of its line (`"@  "`, `"│ ○  "`).
    Change { graph: String, change: Change },
    /// A line of the graph alone (`"├─╮"`); drawn but never selected.
    Connector(String),
}

pub enum RowView {
    Change { graph: Seq<char>, change: ChangeView },
    Connector(Seq<char>),
}

impl View for Row {
    type V = RowView;

    open spec fn view(&self) -> RowView {
        match self {
            Row::Change { graph, change } => RowView::Change { graph: graph@, change: change@ },
            Row::Connector(line) => RowView::Connector(line@),
        }
    }
}

impl Clone for Row {
    fn clone(&self) -> (r: Self)
        ensures
            r@ == self@,
    {
        match self {
            Row::Change { graph, change } => Row::Change { graph: graph.clone(), change: change.clone() },
            Row::Connector(line) => Row::Connector(line.clone()),
        }
    }
}

/// The views of a sequence of rows.
pub open spec fn rows_view(v: Seq<Row>) -> Seq<RowView> {
    Seq::new(v.len(), |i: int| v[i]@)
}

/// One line of `jj diff --summary`: one entry of the files pane.
#[derive(Debug, PartialEq, Eq)]
pub struct DiffFile {
    /// jj's status letter (`M`/`A`/`D`/`R`/`C`).
    pub status: char,
    /// A rename keeps the form `old => new` here.
    pub path: String,
}

pub struct DiffFileView {
    pub status: char,
    pub path: Seq<char>,
}

impl View for DiffFile {
    type V = DiffFileView;

    open spec fn view(&self) -> DiffFileView {
        DiffFileView { status: self.status, path: self.path@ }
    }
}

impl Clone for DiffFile {
    fn clone(&self) -> (r: Self)
        ensures
            r@ == self@,
    {
        DiffFile { status: self.status, path: self.path.clone() }
    }
}

/// The views of a sequence of diff files.
pub open spec fn files_view(v: Seq<DiffFile>) -> Seq<DiffFileView> {
    Seq::new(v.len(), |i: int| v[i]@)
}

/// The separator of the two sides of a rename.
pub open spec fn rename_arrow() -> Seq<char> {
    seq![' ', '=', '>', ' ']
}

/// The path jj can take as a fileset: the new side of a rename or copy,
/// else the path itself.
pub open spec fn spec_target_path(path: Seq<char>) -> Seq<char> {
    match find_seq(path, rename_arrow()) {
        Some(i) => path.skip(i + 4),
        None => path,
    }
}

/// Where `find_seq` stops, characterised by a scan over the start indices.
pub proof fn lemma_find_seq(s: Seq<char>, p: Seq<char>)
    requires
        p.len() > 0,
    ensures
        find_seq(s, p) matches Some(i) ==> 0 <= i && i + p.len() <= s.len() && s.subrange(
            i,
            i + p.len(),
        ) == p && forall|j: int| 0 <= j < i ==> #[trigger] s.subrange(j, j + p.len()) != p,
        find_seq(s, p) is None ==> forall|j: int|
            0 <= j && j + p.len() <= s.len() ==> #[trigger] s.subrange(j, j + p.len()) != p,
    decreases s.len(),
{
    if s.len() >= p.len() {
        assert(s.take(p.len() as int) =~= s.subrange(0, p.len() as int));
        if s.take(p.len() as int) != p {
            lemma_find_seq(s.drop_first(), p);
            assert forall|j: int| 0 < j && j + p.len() <= s.len() implies #[trigger] s.subrange(j, j + p.len())
                == s.drop_first().subrange(j - 1, j - 1 + p.len()) by {
                assert(s.subrange(j, j + p.len()) =~= s.drop_first().subrange(j - 1, j - 1 + p.len()));
            }
        }
    }
}

/// `find_seq` is the first index where a scan finds the pattern.
pub proof fn lemma_find_seq_at(s: Seq<char>, p: Seq<char>, i: int)
    requires
        p.len() > 0,
        0 <= i,
        forall|j: int| 0 <= j < i && j + p.len() <= s.len() ==> #[trigger] s.subrange(j, j + p.len()) != p,
        i + p.len() <= s.len() ==> s.subrange(i, i + p.len()) == p,
    ensures
        find_seq(s, p) == (if i + p.len() <= s.len() {
            Some(i)
        } else {
            None::<int>
        }),
{
    lemma_find_seq(s, p);
    match find_seq(s, p) {
        Some(k) => {
            if i + p.len() <= s.len() {
                if k < i {
                    assert(false);
                }
                if i < k {
                    assert(s.subrange(i, i + p.len()) != p);
                }
            } else {
                assert(s.subrange(k, k + p.len()) == p);
                assert(false);
            }
        },
        None => {
            if i + p.len() <= s.len() {
                assert(s.subrange(i, i + p.len()) != p);
            }
        },
    }
}

/// A renamed or copied file is acted on by its new path: the path jj
/// lists as `old => new` gives `new`, and a path that is no rename is
/// taken as it is (here: the old side, or the whole path, holds no `>`).
pub proof fn law_rename_targets_the_new_path(old: Seq<char>, new: Seq<char>, path: Seq<char>)
    requires
        !old.contains('>'),
        !path.contains('>'),
    ensures
        spec_target_path(old + " => "@ + new) == new,
        spec_target_path(path) == path,
{
    reveal_strlit(" => ");
    let a = rename_arrow();
    assert(" => "@ =~= a);
    let s = old + a + new;
    assert forall|j: int| 0 <= j < old.len() && j + a.len() <= s.len() implies #[trigger] s.subrange(
        j,
        j + a.len(),
    ) != a by {
        assert(s.subrange(j, j + a.len())[2] == s[j + 2]);
        if j + 2 < old.len() {
            assert(s[j + 2] == old[j + 2]);
        } else {
            assert(s[j + 2] == a[j + 2 - old.len()]);
        }
    }
    assert(s.subrange(old.len() as int, old.len() as int + a.len()) =~= a);
    lemma_find_seq_at(s, a, old.len() as int);
    assert(s.skip(old.len() as int + 4) =~= new);
    assert forall|j: int| 0 <= j < path.len() && j + a.len() <= path.len() implies #[trigger] path.subrange(
        j,
        j + a.len(),
    ) != a by {
        assert(path.subrange(j, j + a.len())[2] == path[j + 2]);
    }
    lemma_find_seq_at(path, a, path.len() as int);
}

/// Whether the rename arrow starts at index `i` of `v`.
fn arrow_at(v: &Vec<char>, i: usize) -> (b: bool)
    requires
        i + 4 <= v@.len(),
    ensures
        b == (v@.subrange(i as int, i + 4) == rename_arrow()),
{
    let n = v.len();
    assert(i + 3 < n);
    let b = v[i] == ' ' && v[i + 1] == '=' && v[i + 2] == '>' && v[i + 3] == ' ';
    proof {
        let w = v@.subrange(i as int, i + 4);
        if b {
            assert(w =~= rename_arrow());
        } else if w == rename_arrow() {
            assert(w[0] == ' ' && w[1] == '=' && w[2] == '>' && w[3] == ' ');
        }
    }
    b
}

impl DiffFile {
    /// The path to hand to jj as a fileset argument: for a rename or copy
    /// (`"old => new"`) the new side, which is what exists in the change.
    pub fn target_path(&self) -> (r: String)
        ensures
            r@ == spec_target_path(self.path@),
    {
        let v = chars_of(self.path.as_str());
        let ghost p = rename_arrow();
        let n = v.len();
        let mut i: usize = 0;
        while n >= 4 && i <= n - 4 && !arrow_at(&v, i)
            invariant
                n == v@.len(),
                p == rename_arrow(),
                v@ == self.path@,
                forall|j: int| 0 <= j < i && j + 4 <= v@.len() ==> #[trigger] v@.subrange(j, j + 4) != p,
            decreases v@.len() - i,
        {
            assert(v@.subrange(i as int, i + 4) != p);
            i = i + 1;
        }
        proof {
            lemma_find_seq_at(v@, p, i as int);
        }
        if n >= 4 && i <= n - 4 {
            string_of(v.as_slice(), i + 4, v.len())
        } else {
            self.path.clone()
        }
    }
}

/// The field values of a record that stand for `true`.
pub open spec fn is_one(f: Seq<char>) -> bool {
    f == seq!['1']
}

/// A record of the log template, split into its fields; `None` when it has
/// fewer fields than the template writes or an empty change id.
pub open spec fn spec_parse_change(data: Seq<char>) -> Option<ChangeView> {
    let f = split_char(data, FIELD);
    if f.len() < 11 || f[0].len() == 0 {
        None
    } else {
        Some(
            ChangeView {
                id: f[0],
                short_id: f[1],
                commit_id: f[2],
                is_working_copy: is_one(f[3]),
                is_empty: is_one(f[4]),
                has_conflict: is_one(f[5]),
                is_immutable: is_one(f[6]),
                author: f[7],
                timestamp: f[8],
                bookmarks: drop_empty(split_char(f[9], ',')),
                description: trim_end(f[10]),
            },
        )
    }
}

/// The row a line of `jj log` gives, if any: a change when the line holds
/// a well-formed record; the raw line as a connector when the record is
/// malformed or there is no record; nothing for a blank line.
pub open spec fn spec_row_of_line(l: Seq<char>) -> Option<RowView> {
    match first_index(l, RECORD) {
        Some(i) => match spec_parse_change(l.skip(i + 1)) {
            Some(c) => Some(RowView::Change { graph: l.take(i), change: c }),
            None => Some(RowView::Connector(l)),
        },
        None => if trim(l).len() == 0 {
            None
        } else {
            Some(RowView::Connector(l))
        },
    }
}

/// The rows of the given lines, in order.
pub open spec fn spec_rows_of(ls: Seq<Seq<char>>) -> Seq<RowView>
    decreases ls.len(),
{
    if ls.len() == 0 {
        Seq::empty()
    } else {
        match spec_row_of_line(ls.last()) {
            Some(r) => spec_rows_of(ls.drop_last()).push(r),
            None => spec_rows_of(ls.drop_last()),
        }
    }
}

/// What `parse_log` makes of the output of `jj log`.
pub open spec fn spec_parse_log(out: Seq<char>) -> Seq<RowView> {
    spec_rows_of(lines(out))
}

/// The entry a line of `jj diff --summary` gives: its first character is
/// the status, the rest trimmed is the path; no entry when either is
/// missing.
pub open spec fn spec_file_of_line(l: Seq<char>) -> Option<DiffFileView> {
    if l.len() == 0 || trim(l.drop_first()).len() == 0 {
        None
    } else {
        Some(DiffFileView { status: l[0], path: trim(l.drop_first()) })
    }
}

/// The entries of the given lines, in order.
pub open spec fn spec_files_of(ls: Seq<Seq<char>>) -> Seq<DiffFileView>
    decreases ls.len(),
{
    if ls.len() == 0 {
        Seq::empty()
    } else {
        match spec_file_of_line(ls.last()) {
            Some(f) => spec_files_of(ls.drop_last()).push(f),
            None => spec_files_of(ls.drop_last()),
        }
    }
}

/// What `parse_diff_summary` makes of the output of `jj diff --summary`.
pub open spec fn spec_parse_diff_summary(out: Seq<char>) -> Seq<DiffFileView> {
    spec_files_of(lines(out))
}

/// Whether `v` is the single character `1`.
fn is_one_chars(v: &Vec<char>) -> (b: bool)
    ensures
        b == is_one(v@),
{
    let b = v.len() == 1 && v[0] == '1';
    proof {
        if b {
            assert(v@ =~= seq!['1']);
        }
    }
    b
}

/// The non-empty pieces of `pieces`, as strings.
fn strings_of_nonempty(pieces: &Vec<Vec<char>>) -> (r: Vec<String>)
    ensures
        strings_view(r@) == drop_empty(views(pieces@)),
{
    let mut r: Vec<String> = Vec::new();
    let mut k: usize = 0;
    while k < pieces.len()
        invariant
            k <= pieces@.len(),
            strings_view(r@) == drop_empty(views(pieces@).take(k as int)),
        decreases pieces@.len() - k,
    {
        assert(views(pieces@).take(k + 1).drop_last() =~= views(pieces@).take(k as int));
        if pieces[k].len() > 0 {
            let s = string_of_all(pieces[k].as_slice());
            r.push(s);
            assert(strings_view(r@) =~= drop_empty(views(pieces@).take(k as int)).push(pieces@[k as int]@));
        }
        k = k + 1;
    }
    assert(views(pieces@).take(pieces@.len() as int) =~= views(pieces@));
    r
}

/// Parses one record of the log template (the part of a line after the
/// record marker).
pub fn parse_change(data: &str) -> (r: Option<Change>)
    ensures
        match r {
            Some(c) => spec_parse_change(data@) == Some(c@),
            None => spec_parse_change(data@) is None,
        },
{
    let v = chars_of(data);
    parse_change_chars(v.as_slice())
}

/// [`parse_change`] on the characters of a record.
fn parse_change_chars(data: &[char]) -> (r: Option<Change>)
    ensures
        match r {
            Some(c) => spec_parse_change(data@) == Some(c@),
            None => spec_parse_change(data@) is None,
        },
{
    let f = split_on(data, FIELD);
    assert(views(f@) == split_char(data@, FIELD));
    if f.len() < 11 || f[0].len() == 0 {
        proof {
            if f@.len() >= 11 {
                assert(views(f@)[0] == f@[0]@);
            }
        }
        return None;
    }
    proof {
        assert(views(f@)[0] == f@[0]@);
        assert(views(f@)[1] == f@[1]@);
        assert(views(f@)[2] == f@[2]@);
        assert(views(f@)[3] == f@[3]@);
        assert(views(f@)[4] == f@[4]@);
        assert(views(f@)[5] == f@[5]@);
        assert(views(f@)[6] == f@[6]@);
        assert(views(f@)[7] == f@[7]@);
        assert(views(f@)[8] == f@[8]@);
        assert(views(f@)[9] == f@[9]@);
        assert(views(f@)[10] == f@[10]@);
    }
    let bookmark_pieces = split_on(f[9].as_slice(), ',');
    let (_lo, hi) = trim_bounds(f[10].as_slice());
    let c = Change {
        id: string_of_all(f[0].as_slice()),
        short_id: string_of_all(f[1].as_slice()),
        commit_id: string_of_all(f[2].as_slice()),
        is_working_copy: is_one_chars(&f[3]),
        is_empty: is_one_chars(&f[4]),
        has_conflict: is_one_chars(&f[5]),
        is_immutable: is_one_chars(&f[6]),
        author: string_of_all(f[7].as_slice()),
        timestamp: string_of_all(f[8].as_slice()),
        bookmarks: strings_of_nonempty(&bookmark_pieces),
        description: string_of(f[10].as_slice(), 0, hi),
    };
    assert(f@[10]@.subrange(0, hi as int) =~= f@[10]@.take(hi as int));
    Some(c)
}

/// The row of one line of `jj log` output.
fn row_of_line(l: &Vec<char>) -> (r: Option<Row>)
    ensures
        match r {
            Some(row) => spec_row_of_line(l@) == Some(row@),
            None => spec_row_of_line(l@) is None,
        },
{
    let i = scan_to(l.as_slice(), 0, RECORD);
    assert(l@.skip(0) =~= l@);
    if i < l.len() {
        let data = copy_range(l.as_slice(), i + 1, l.len());
        assert(data@ =~= l@.skip(i + 1));
        match parse_change_chars(data.as_slice()) {
            Some(change) => {
                let graph = string_of(l.as_slice(), 0, i);
                assert(l@.subrange(0, i as int) =~= l@.take(i as int));
                Some(Row::Change { graph, change })
            },
            None => Some(Row::Connector(string_of_all(l.as_slice()))),
        }
    } else {
        let (lo, hi) = trim_bounds(l.as_slice());
        if lo < hi {
            Some(Row::Connector(string_of_all(l.as_slice())))
        } else {
            None
        }
    }
}

/// Splits the output of `jj log` into [`Row`]s, one per line: a line with a
/// record is a change (graph before the marker, fields after it), a line
/// with a malformed record or none is kept whole as a connector, and blank
/// lines are dropped.
pub fn parse_log(out: &str) -> (rows: Vec<Row>)
    ensures
        rows_view(rows@) == spec_parse_log(out@),
{
    let v = chars_of(out);
    let ls = lines_of(v.as_slice());
    let mut rows: Vec<Row> = Vec::new();
    let mut k: usize = 0;
    while k < ls.len()
        invariant
            k <= ls@.len(),
            views(ls@) == lines(out@),
            rows_view(rows@) == spec_rows_of(views(ls@).take(k as int)),
        decreases ls@.len() - k,
    {
        assert(views(ls@).take(k + 1).drop_last() =~= views(ls@).take(k as int));
        assert(views(ls@).take(k + 1).last() == ls@[k as int]@);
        match row_of_line(&ls[k]) {
            Some(row) => {
                rows.push(row);
                assert(rows_view(rows@) =~= spec_rows_of(views(ls@).take(k as int)).push(
                    rows@.last()@,
                ));
            },
            None => {},
        }
        k = k + 1;
    }
    assert(views(ls@).take(ls@.len() as int) =~= views(ls@));
    rows
}

/// The entry of one line of `jj diff --summary` output.
fn file_of_line(l: &Vec<char>) -> (r: Option<DiffFile>)
    ensures
        match r {
            Some(f) => spec_file_of_line(l@) == Some(f@),
            None => spec_file_of_line(l@) is None,
        },
{
    if l.len() == 0 {
        return None;
    }
    let rest = copy_range(l.as_slice(), 1, l.len());
    assert(rest@ =~= l@.drop_first());
    let (lo, hi) = trim_bounds(rest.as_slice());
    if lo < hi {
        Some(DiffFile { status: l[0], path: string_of(rest.as_slice(), lo, hi) })
    } else {
        None
    }
}

/// Splits the output of `jj diff --summary` (`<status> <path>` per line,
/// as in `M src/app.rs` or `R old => new`) into [`DiffFile`]s.
pub fn parse_diff_summary(out: &str) -> (files: Vec<DiffFile>)
    ensures
        files_view(files@) == spec_parse_diff_summary(out@),
{
    let v = chars_of(out);
    let ls = lines_of(v.as_slice());
    let mut files: Vec<DiffFile> = Vec::new();
    let mut k: usize = 0;
    while k < ls.len()
        invariant
            k <= ls@.len(),
            views(ls@) == lines(out@),
            files_view(files@) == spec_files_of(views(ls@).take(k as int)),
        decreases ls@.len() - k,
    {
        assert(views(ls@).take(k + 1).drop_last() =~= views(ls@).take(k as int));
        assert(views(ls@).take(k + 1).last() == ls@[k as int]@);
        match file_of_line(&ls[k]) {
            Some(f) => {
                files.push(f);
                assert(files_view(files@) =~= spec_files_of(views(ls@).take(k as int)).push(
                    files@.last()@,
                ));
            },
            None => {},
        }
        k = k + 1;
    }
    assert(views(ls@).take(ls@.len() as int) =~= views(ls@));
    files
}

} // verus!

verus! {

/// How `jj rebase` picks what it moves: jj's `-r` / `-s` / `-b`.
#[derive(Debug, Clone, Copy, PartialEq, Eq, Structural)]
pub enum RebaseMode {
    /// `-r`: that revision alone; its descendants stay on its old parent.
    Revision,
    /// `-s`: that revision and all its descendants.
    Source,
    /// `-b`: the whole branch as seen from the destination.
    Branch,
}

/// The flag of each rebase mode.
pub open spec fn spec_flag(m: RebaseMode) -> Seq<char> {
    match m {
        RebaseMode::Revision => "-r"@,
        RebaseMode::Source => "-s"@,
        RebaseMode::Branch => "-b"@,
    }
}

/// The label of each rebase mode.
pub open spec fn spec_label(m: RebaseMode) -> Seq<char> {
    match m {
        RebaseMode::Revision => "revision (-r)"@,
        RebaseMode::Source => "source+descendants (-s)"@,
        RebaseMode::Branch => "branch (-b)"@,
    }
}

/// The mode after `m` in the cycle `-r` → `-s` → `-b` → `-r`.
pub open spec fn spec_next(m: RebaseMode) -> RebaseMode {
    match m {
        RebaseMode::Revision => RebaseMode::Source,
        RebaseMode::Source => RebaseMode::Branch,
        RebaseMode::Branch => RebaseMode::Revision,
    }
}

impl RebaseMode {
    /// The jj flag of this mode.
    pub fn flag(self) -> (r: &'static str)
        ensures
            r@ == spec_flag(self),
    {
        match self {
            RebaseMode::Revision => "-r",
            RebaseMode::Source => "-s",
            RebaseMode::Branch => "-b",
        }
    }

    /// The label of this mode for the status bar and prompts.
    pub fn label(self) -> (r: &'static str)
        ensures
            r@ == spec_label(self),
    {
        match self {
            RebaseMode::Revision => "revision (-r)",
            RebaseMode::Source => "source+descendants (-s)",
            RebaseMode::Branch => "branch (-b)",
        }
    }

    /// The next mode in the cycle `-r` → `-s` → `-b` → `-r` (the key that
    /// switches modes walks it).
    pub fn next(self) -> (r: Self)
        ensures
            r == spec_next(self),
    {
        match self {
            RebaseMode::Revision => RebaseMode::Source,
            RebaseMode::Source => RebaseMode::Branch,
            RebaseMode::Branch => RebaseMode::Revision,
        }
    }
}

/// Cycling the rebase mode three times comes back to where it started,
/// and every mode is reached on the way.
pub proof fn law_rebase_mode_cycle(m: RebaseMode)
    ensures
        spec_next(spec_next(spec_next(m))) == m,
        spec_next(m) != m,
        spec_next(spec_next(m)) != m,
{
}

/// One invocation of the `jj` binary: run in `dir` with `globals` and then
/// `args` as its arguments.
#[derive(Debug, Clone, PartialEq, Eq)]
pub struct JjCall {
    pub dir: String,
    pub globals: Vec<String>,
    pub args: Vec<String>,
}

pub struct JjCallView {
    pub dir: Seq<char>,
    pub globals: Seq<Seq<char>>,
    pub args: Seq<Seq<char>>,
}

impl View for JjCall {
    type V = JjCallView;

    open spec fn view(&self) -> JjCallView {
        JjCallView { dir: self.dir@, globals: strings_view(self.globals@), args: strings_view(self.args@) }
    }
}

/// The globals of reading commands: no pager, no color, so the output
/// can be parsed.
pub open spec fn spec_read_globals() -> Seq<Seq<char>> {
    seq!["--no-pager"@, "--color"@, "never"@]
}

/// The globals of rewriting commands: those of reading commands, and
/// `ui.editor` pointed at a program that does not exist, so that jj fails
/// visibly instead of taking over the screen with an editor.
pub open spec fn spec_write_globals() -> Seq<Seq<char>> {
    spec_read_globals() + seq!["--config"@, NO_EDITOR@]
}

/// The globals of commands whose colored output is shown as it is.
pub open spec fn spec_color_globals() -> Seq<Seq<char>> {
    seq!["--no-pager"@, "--color"@, "always"@]
}

/// A string holding `s`.
fn lit(s: &str) -> (r: String)
    ensures
        r@ == s@,
{
    String::from_str(s)
}

fn read_globals() -> (r: Vec<String>)
    ensures
        strings_view(r@) == spec_read_globals(),
{
    let r = vec![lit("--no-pager"), lit("--color"), lit("never")];
    assert(strings_view(r@) =~= spec_read_globals());
    r
}

fn write_globals() -> (r: Vec<String>)
    ensures
        strings_view(r@) == spec_write_globals(),
{
    let r = vec![lit("--no-pager"), lit("--color"), lit("never"), lit("--config"), lit(NO_EDITOR)];
    assert(strings_view(r@) =~= spec_write_globals());
    r
}

fn color_globals() -> (r: Vec<String>)
    ensures
        strings_view(r@) == spec_color_globals(),
{
    let r = vec![lit("--no-pager"), lit("--color"), lit("always")];
    assert(strings_view(r@) =~= spec_color_globals());
    r
}

/// Appends `s` to a vector of strings.
fn push_str(v: &mut Vec<String>, s: &str)
    ensures
        strings_view(final(v)@) == strings_view(old(v)@).push(s@),
{
    v.push(lit(s));
    assert(strings_view(v@) =~= strings_view(old(v)@).push(s@));
}

/// The call that [`Jj::log`] makes.
pub open spec fn log_call(root: Seq<char>, revset: Option<Seq<char>>) -> JjCallView {
    JjCallView {
        dir: root,
        globals: spec_read_globals(),
        args: match revset {
        Some(r) => seq!["log"@, "--template"@, LOG_TEMPLATE@, "-r"@, r],
        None => seq!["log"@, "--template"@, LOG_TEMPLATE@],
    },
    }
}

/// The call that [`Jj::diff`] makes.
pub open spec fn diff_call(root: Seq<char>, rev: Seq<char>, path: Option<Seq<char>>) -> JjCallView {
    JjCallView {
        dir: root,
        globals: spec_color_globals(),
        args: match path {
        Some(p) => seq!["diff"@, "-r"@, rev, p],
        None => seq!["diff"@, "-r"@, rev],
    },
    }
}

/// The call that [`Jj::diff_plain`] makes.
pub open spec fn diff_plain_call(root: Seq<char>, rev: Seq<char>) -> JjCallView {
    JjCallView {
        dir: root,
        globals: spec_read_globals(),
        args: seq!["diff"@, "-r"@, rev, "--git"@],
    }
}

/// The call that [`Jj::diff_summary`] makes.
pub open spec fn diff_summary_call(root: Seq<char>, rev: Seq<char>) -> JjCallView {
    JjCallView {
        dir: root,
        globals: spec_read_globals(),
        args: seq!["diff"@, "-r"@, rev, "--summary"@],
    }
}

/// The call that [`Jj::show`] makes.
pub open spec fn show_call(root: Seq<char>, rev: Seq<char>) -> JjCallView {
    JjCallView {
        dir: root,
        globals: spec_color_globals(),
        args: seq!["show"@, "-r"@, rev, "--no-patch"@],
    }
}

/// The call that [`Jj::status_line`] makes.
pub open spec fn status_line_call(root: Seq<char>) -> JjCallView {
    JjCallView {
        dir: root,
        globals: spec_read_globals(),
        args: seq!["log"@, "-r"@, "@"@, "--no-graph"@, "--template"@, STATUS_TEMPLATE@],
    }
}

/// The call that [`Jj::new_child`] makes.
pub open spec fn new_child_call(root: Seq<char>, rev: Seq<char>, message: Option<Seq<char>>) -> JjCallView {
    JjCallView {
        dir: root,
        globals: spec_write_globals(),
        args: match message {
        Some(m) => seq!["new"@, rev, "-m"@, m],
        None => seq!["new"@, rev],
    },
    }
}

/// The call that [`Jj::edit`] makes.
pub open spec fn edit_call(root: Seq<char>, rev: Seq<char>) -> JjCallView {
    JjCallView {
        dir: root,
        globals: spec_write_globals(),
        args: seq!["edit"@, rev],
    }
}

/// The call that [`Jj::describe`] makes.
pub open spec fn describe_call(root: Seq<char>, rev: Seq<char>, message: Seq<char>) -> JjCallView {
    JjCallView {
        dir: root,
        globals: spec_write_globals(),
        args: seq!["describe"@, "-r"@, rev, "-m"@, message],
    }
}

/// The call that [`Jj::squash`] makes.
pub open spec fn squash_call(root: Seq<char>, from: Seq<char>, into: Seq<char>) -> JjCallView {
    JjCallView {
        dir: root,
        globals: spec_write_globals(),
        args: seq!["squash"@, "--use-destination-message"@, "--from"@, from, "--into"@, into],
    }
}

/// The call that [`Jj::rebase`] makes.
pub open spec fn rebase_call(root: Seq<char>, rev: Seq<char>, onto: Seq<char>, mode: RebaseMode) -> JjCallView {
    JjCallView {
        dir: root,
        globals: spec_write_globals(),
        args: seq!["rebase"@, spec_flag(mode), rev, "--onto"@, onto],
    }
}

/// The call that [`Jj::abandon`] makes.
pub open spec fn abandon_call(root: Seq<char>, rev: Seq<char>) -> JjCallView {
    JjCallView {
        dir: root,
        globals: spec_write_globals(),
        args: seq!["abandon"@, rev],
    }
}

/// The call that [`Jj::restore_file`] makes.
pub open spec fn restore_file_call(root: Seq<char>, rev: Seq<char>, path: Seq<char>) -> JjCallView {
    JjCallView {
        dir: root,
        globals: spec_write_globals(),
        args: seq!["restore"@, "--changes-in"@, rev, path],
    }
}

/// The call that [`Jj::absorb_file`] makes.
pub open spec fn absorb_file_call(root: Seq<char>, rev: Seq<char>, path: Seq<char>) -> JjCallView {
    JjCallView {
        dir: root,
        globals: spec_write_globals(),
        args: seq!["absorb"@, "--from"@, rev, path],
    }
}

/// The call that [`Jj::bookmark_set`] makes.
pub open spec fn bookmark_set_call(root: Seq<char>, name: Seq<char>, rev: Seq<char>) -> JjCallView {
    JjCallView {
        dir: root,
        globals: spec_write_globals(),
        args: seq!["bookmark"@, "set"@, name, "-r"@, rev],
    }
}

/// The call that [`Jj::undo`] makes.
pub open spec fn undo_call(root: Seq<char>) -> JjCallView {
    JjCallView {
        dir: root,
        globals: spec_write_globals(),
        args: seq!["undo"@],
    }
}

/// The call that [`Jj::redo`] makes.
pub open spec fn redo_call(root: Seq<char>) -> JjCallView {
    JjCallView {
        dir: root,
        globals: spec_write_globals(),
        args: seq!["redo"@],
    }
}

/// The call that [`Jj::last_operation`] makes.
pub open spec fn last_operation_call(root: Seq<char>) -> JjCallView {
    JjCallView {
        dir: root,
        globals: spec_read_globals(),
        args: seq!["op"@, "log"@, "--no-graph"@, "--limit"@, "1"@, "--template"@, OPERATION_TEMPLATE@],
    }
}

/// The call that [`Jj::bookmarks`] makes.
pub open spec fn bookmarks_call(root: Seq<char>) -> JjCallView {
    JjCallView {
        dir: root,
        globals: spec_read_globals(),
        args: seq!["bookmark"@, "list"@, "--template"@, BOOKMARK_TEMPLATE@],
    }
}

/// Entry point for the operations on one jj repository.
#[derive(Debug, Clone, PartialEq, Eq)]
pub struct Jj {
    root: String,
}

impl Jj {
    /// The repository at `root`.
    pub closed spec fn spec_root(&self) -> Seq<char> {
        self.root@
    }

    /// Opens the repository found by walking up from a directory: `dirs`
    /// lists that directory and then its ancestors, each with whether it
    /// holds a `.jj` directory. `.git` is not looked at, so a git-only repo
    /// is not taken for a jj repo. `start` names the directory in the
    /// error.
    pub fn discover(start: &str, dirs: &Vec<(String, bool)>) -> (r: Result<Jj, String>)
        ensures
            match r {
                Ok(jj) => exists|i: int|
                    0 <= i < dirs@.len() && dirs@[i].1 && jj.spec_root() == dirs@[i].0@ && forall|
                        j: int,
                    | 0 <= j < i ==> !(#[trigger] dirs@[j]).1,
                Err(msg) => (forall|j: int| 0 <= j < dirs@.len() ==> !(#[trigger] dirs@[j]).1)
                    && msg@ == "no jj repo found in "@ + start@
                    + " or any parent directory (run `jj git init --colocate` first)"@,
            },
    {
        let mut i: usize = 0;
        while i < dirs.len()
            invariant
                i <= dirs@.len(),
                forall|j: int| 0 <= j < i ==> !(#[trigger] dirs@[j]).1,
            decreases dirs@.len() - i,
        {
            if dirs[i].1 {
                return Ok(Jj { root: dirs[i].0.clone() });
            }
            i = i + 1;
        }
        let mut msg = lit("no jj repo found in ");
        msg.append(start);
        msg.append(" or any parent directory (run `jj git init --colocate` first)");
        Err(msg)
    }

    /// The root directory of the repository.
    pub fn root(&self) -> (r: &str)
        ensures
            r@ == self.spec_root(),
    {
        self.root.as_str()
    }

    fn call(&self, globals: Vec<String>, args: Vec<String>) -> (c: JjCall)
        ensures
            c@.dir == self.spec_root(),
            c@.globals == strings_view(globals@),
            c@.args == strings_view(args@),
    {
        JjCall { dir: self.root.clone(), globals, args }
    }

    /// `jj log` with the record template; without a revset jj's own
    /// `revsets.log` applies. Its output is read with [`parse_log`].
    pub fn log(&self, revset: Option<&str>) -> (c: JjCall)
        ensures
            c@ == log_call(self.spec_root(), opt_str_view(revset)),
    {
        let mut args = vec![lit("log"), lit("--template"), lit(LOG_TEMPLATE)];
        assert(strings_view(args@) =~= seq!["log"@, "--template"@, LOG_TEMPLATE@]);
        if let Some(r) = revset {
            push_str(&mut args, "-r");
            push_str(&mut args, r);
            assert(strings_view(args@) =~= seq!["log"@, "--template"@, LOG_TEMPLATE@, "-r"@, r@]);
        }
        self.call(read_globals(), args)
    }

    /// The diff of `rev` in color, in whatever format jj's
    /// `ui.diff-formatter` picks; with a path, only that file's diff.
    pub fn diff(&self, rev: &str, path: Option<&str>) -> (c: JjCall)
        ensures
            c@ == diff_call(self.spec_root(), rev@, opt_str_view(path)),
    {
        let mut args = vec![lit("diff"), lit("-r"), lit(rev)];
        assert(strings_view(args@) =~= seq!["diff"@, "-r"@, rev@]);
        if let Some(p) = path {
            push_str(&mut args, p);
            assert(strings_view(args@) =~= seq!["diff"@, "-r"@, rev@, p@]);
        }
        self.call(color_globals(), args)
    }

    /// The whole diff of `rev` without color, in git format.
    pub fn diff_plain(&self, rev: &str) -> (c: JjCall)
        ensures
            c@ == diff_plain_call(self.spec_root(), rev@),
    {
        let args = vec![lit("diff"), lit("-r"), lit(rev), lit("--git")];
        assert(strings_view(args@) =~= seq!["diff"@, "-r"@, rev@, "--git"@]);
        self.call(read_globals(), args)
    }

    /// The files changed in `rev`; read with [`parse_diff_summary`].
    pub fn diff_summary(&self, rev: &str) -> (c: JjCall)
        ensures
            c@ == diff_summary_call(self.spec_root(), rev@),
    {
        let args = vec![lit("diff"), lit("-r"), lit(rev), lit("--summary")];
        assert(strings_view(args@) =~= seq!["diff"@, "-r"@, rev@, "--summary"@]);
        self.call(read_globals(), args)
    }

    /// The header of `rev` for the diff pane, in color.
    pub fn show(&self, rev: &str) -> (c: JjCall)
        ensures
            c@ == show_call(self.spec_root(), rev@),
    {
        let args = vec![lit("show"), lit("-r"), lit(rev), lit("--no-patch")];
        assert(strings_view(args@) =~= seq!["show"@, "-r"@, rev@, "--no-patch"@]);
        self.call(color_globals(), args)
    }

    /// The state of the working copy for the status bar; its output is
    /// used trimmed.
    pub fn status_line(&self) -> (c: JjCall)
        ensures
            c@ == status_line_call(self.spec_root()),
    {
        let args = vec![
            lit("log"),
            lit("-r"),
            lit("@"),
            lit("--no-graph"),
            lit("--template"),
            lit(STATUS_TEMPLATE),
        ];
        assert(strings_view(args@) =~= seq![
            "log"@,
            "-r"@,
            "@"@,
            "--no-graph"@,
            "--template"@,
            STATUS_TEMPLATE@,
        ]);
        self.call(read_globals(), args)
    }

    /// `jj new` on `rev`, with `-m` only when a message is given.
    pub fn new_child(&self, rev: &str, message: Option<&str>) -> (c: JjCall)
        ensures
            c@ == new_child_call(self.spec_root(), rev@, opt_str_view(message)),
    {
        let mut args = vec![lit("new"), lit(rev)];
        assert(strings_view(args@) =~= seq!["new"@, rev@]);
        if let Some(m) = message {
            push_str(&mut args, "-m");
            push_str(&mut args, m);
            assert(strings_view(args@) =~= seq!["new"@, rev@, "-m"@, m@]);
        }
        self.call(write_globals(), args)
    }

    /// `jj edit`: makes `rev` the working copy.
    pub fn edit(&self, rev: &str) -> (c: JjCall)
        ensures
            c@ == edit_call(self.spec_root(), rev@),
    {
        let args = vec![lit("edit"), lit(rev)];
        assert(strings_view(args@) =~= seq!["edit"@, rev@]);
        self.call(write_globals(), args)
    }

    /// `jj describe` of `rev` with `message`.
    pub fn describe(&self, rev: &str, message: &str) -> (c: JjCall)
        ensures
            c@ == describe_call(self.spec_root(), rev@, message@),
    {
        let args = vec![lit("describe"), lit("-r"), lit(rev), lit("-m"), lit(message)];
        assert(strings_view(args@) =~= seq!["describe"@, "-r"@, rev@, "-m"@, message@]);
        self.call(write_globals(), args)
    }

    /// Moves the changes of `from` into `into`, always keeping the
    /// destination's description so that jj never wants an editor.
    pub fn squash(&self, from: &str, into: &str) -> (c: JjCall)
        ensures
            c@ == squash_call(self.spec_root(), from@, into@),
    {
        let args = vec![
            lit("squash"),
            lit("--use-destination-message"),
            lit("--from"),
            lit(from),
            lit("--into"),
            lit(into),
        ];
        assert(strings_view(args@) =~= seq![
            "squash"@,
            "--use-destination-message"@,
            "--from"@,
            from@,
            "--into"@,
            into@,
        ]);
        self.call(write_globals(), args)
    }

    /// `jj rebase` of `rev` onto `onto` in `mode`.
    pub fn rebase(&self, rev: &str, onto: &str, mode: RebaseMode) -> (c: JjCall)
        ensures
            c@ == rebase_call(self.spec_root(), rev@, onto@, mode),
    {
        let args = vec![lit("rebase"), lit(mode.flag()), lit(rev), lit("--onto"), lit(onto)];
        assert(strings_view(args@) =~= seq!["rebase"@, spec_flag(mode), rev@, "--onto"@, onto@]);
        self.call(write_globals(), args)
    }

    /// `jj abandon` of `rev`.
    pub fn abandon(&self, rev: &str) -> (c: JjCall)
        ensures
            c@ == abandon_call(self.spec_root(), rev@),
    {
        let args = vec![lit("abandon"), lit(rev)];
        assert(strings_view(args@) =~= seq!["abandon"@, rev@]);
        self.call(write_globals(), args)
    }

    /// Discards the changes that `rev` makes to `path`.
    pub fn restore_file(&self, rev: &str, path: &str) -> (c: JjCall)
        ensures
            c@ == restore_file_call(self.spec_root(), rev@, path@),
    {
        let args = vec![lit("restore"), lit("--changes-in"), lit(rev), lit(path)];
        assert(strings_view(args@) =~= seq!["restore"@, "--changes-in"@, rev@, path@]);
        self.call(write_globals(), args)
    }

    /// Moves the changes that `rev` makes to `path` into the mutable
    /// ancestors where they belong (`jj absorb`).
    pub fn absorb_file(&self, rev: &str, path: &str) -> (c: JjCall)
        ensures
            c@ == absorb_file_call(self.spec_root(), rev@, path@),
    {
        let args = vec![lit("absorb"), lit("--from"), lit(rev), lit(path)];
        assert(strings_view(args@) =~= seq!["absorb"@, "--from"@, rev@, path@]);
        self.call(write_globals(), args)
    }

    /// `jj bookmark set`: creates the bookmark or moves it (never
    /// backwards, which jj keeps refusing).
    pub fn bookmark_set(&self, name: &str, rev: &str) -> (c: JjCall)
        ensures
            c@ == bookmark_set_call(self.spec_root(), name@, rev@),
    {
        let args = vec![lit("bookmark"), lit("set"), lit(name), lit("-r"), lit(rev)];
        assert(strings_view(args@) =~= seq!["bookmark"@, "set"@, name@, "-r"@, rev@]);
        self.call(write_globals(), args)
    }

    /// `jj undo`.
    pub fn undo(&self) -> (c: JjCall)
        ensures
            c@ == undo_call(self.spec_root()),
    {
        let args = vec![lit("undo")];
        assert(strings_view(args@) =~= seq!["undo"@]);
        self.call(write_globals(), args)
    }

    /// `jj redo`.
    pub fn redo(&self) -> (c: JjCall)
        ensures
            c@ == redo_call(self.spec_root()),
    {
        let args = vec![lit("redo")];
        assert(strings_view(args@) =~= seq!["redo"@]);
        self.call(write_globals(), args)
    }

    /// The description of the last operation, for the status bar; its
    /// output is used trimmed.
    pub fn last_operation(&self) -> (c: JjCall)
        ensures
            c@ == last_operation_call(self.spec_root()),
    {
        let args = vec![
            lit("op"),
            lit("log"),
            lit("--no-graph"),
            lit("--limit"),
            lit("1"),
            lit("--template"),
            lit(OPERATION_TEMPLATE),
        ];
        assert(strings_view(args@) =~= seq![
            "op"@,
            "log"@,
            "--no-graph"@,
            "--limit"@,
            "1"@,
            "--template"@,
            OPERATION_TEMPLATE@,
        ]);
        self.call(read_globals(), args)
    }

    /// The names of the existing bookmarks, one per line; read with
    /// [`parse_bookmarks`].
    pub fn bookmarks(&self) -> (c: JjCall)
        ensures
            c@ == bookmarks_call(self.spec_root()),
    {
        let args = vec![lit("bookmark"), lit("list"), lit("--template"), lit(BOOKMARK_TEMPLATE)];
        assert(strings_view(args@) =~= seq!["bookmark"@, "list"@, "--template"@, BOOKMARK_TEMPLATE@]);
        self.call(read_globals(), args)
    }
}

} // verus!

verus! {

/// Whether `x` is the trimmed form of some non-blank line of `ls`.
pub open spec fn is_listed_name(ls: Seq<Seq<char>>, x: Seq<char>) -> bool {
    x.len() > 0 && exists|i: int| 0 <= i < ls.len() && #[trigger] trim(ls[i]) == x
}

/// Reads the output of [`Jj::bookmarks`]: the trimmed non-blank lines,
/// sorted, each once.
pub fn parse_bookmarks(out: &str) -> (names: Vec<String>)
    ensures
        strictly_sorted(strings_view(names@)),
        forall|x: Seq<char>|
            #[trigger] strings_view(names@).contains(x) <==> is_listed_name(lines(out@), x),
{
    let v = chars_of(out);
    let ls = lines_of(v.as_slice());
    let mut acc: Vec<Vec<char>> = Vec::new();
    let mut k: usize = 0;
    while k < ls.len()
        invariant
            k <= ls@.len(),
            views(ls@) == lines(out@),
            strictly_sorted(views(acc@)),
            forall|x: Seq<char>|
                #[trigger] views(acc@).contains(x) <==> is_listed_name(views(ls@).take(k as int), x),
        decreases ls@.len() - k,
    {
        let ghost before = views(acc@);
        let ghost taken = views(ls@).take(k as int);
        let ghost taken2 = views(ls@).take(k + 1);
        let (lo, hi) = trim_bounds(ls[k].as_slice());
        assert(taken2[k as int] == ls@[k as int]@);
        if lo < hi {
            let t = copy_range(ls[k].as_slice(), lo, hi);
            insert_sorted(&mut acc, t);
        }
        proof {
            assert forall|x: Seq<char>| #[trigger] views(acc@).contains(x) <==> is_listed_name(taken2, x) by {
                if is_listed_name(taken, x) {
                    let i = choose|i: int| 0 <= i < taken.len() && #[trigger] trim(taken[i]) == x;
                    assert(taken2[i] == taken[i]);
                }
                if is_listed_name(taken2, x) {
                    let i = choose|i: int| 0 <= i < taken2.len() && #[trigger] trim(taken2[i]) == x;
                    if i < k {
                        assert(taken2[i] == taken[i]);
                    }
                }
            }
        }
        k = k + 1;
    }
    assert(views(ls@).take(ls@.len() as int) =~= views(ls@));
    let mut names: Vec<String> = Vec::new();
    let mut i: usize = 0;
    while i < acc.len()
        invariant
            i <= acc@.len(),
            strings_view(names@) == views(acc@).take(i as int),
        decreases acc@.len() - i,
    {
        let ghost old_names = names@;
        assert(strings_view(old_names).len() == old_names.len());
        let name = string_of_all(acc[i].as_slice());
        names.push(name);
        assert forall|j: int| 0 <= j < i + 1 implies #[trigger] strings_view(names@)[j] == views(acc@).take(i + 1)[j] by {
            if j < i {
                assert(names@[j] == old_names[j]);
                assert(strings_view(old_names)[j] == old_names[j]@);
            }
        }
        assert(strings_view(names@) =~= views(acc@).take(i + 1));
        i = i + 1;
    }
    assert(views(acc@).take(acc@.len() as int) =~= views(acc@));
    names
}

/// What a failed jj command reports: its trimmed stderr as jj wrote it
/// (jj's `Error:`/`Hint:` lines are meant for people), or, when stderr is
/// blank, the command line and the exit status.
pub open spec fn spec_failure_message(args: Seq<Seq<char>>, stderr: Seq<char>, status: Seq<char>) -> Seq<char> {
    if trim(stderr).len() == 0 {
        "`jj "@ + join(args, " "@) + "` failed with "@ + status
    } else {
        trim(stderr)
    }
}

impl JjCall {
    /// The error message of this call when jj exits unsuccessfully with
    /// `stderr` and the exit status written as `status`.
    pub fn failure_message(&self, stderr: &str, status: &str) -> (r: String)
        ensures
            r@ == spec_failure_message(self@.args, stderr@, status@),
    {
        let msg = trim_str(stderr);
        if msg.as_str().is_empty() {
            let mut r = lit("`jj ");
            let joined = join_strings(&self.args, " ");
            r.append(joined.as_str());
            r.append("` failed with ");
            r.append(status);
            r
        } else {
            msg
        }
    }
}

/// What a finished jj call gave: its output as text on success, else
/// its failure message.
pub open spec fn spec_outcome(call: JjCallView, success: bool, status: Seq<char>, stdout: Seq<u8>, stderr: Seq<u8>) -> Result<
    Seq<char>,
    Seq<char>,
> {
    if success {
        Ok(utf8_lossy(stdout))
    } else {
        Err(spec_failure_message(call.args, utf8_lossy(stderr), status))
    }
}

impl JjCall {
    /// What this call gave, from whether jj exited successfully, its exit
    /// status as text and the bytes it wrote.
    pub fn outcome(&self, success: bool, status: &str, stdout: &[u8], stderr: &[u8]) -> (r: Result<
        String,
        String,
    >)
        ensures
            match r {
                Ok(t) => spec_outcome(self@, success, status@, stdout@, stderr@) == Ok::<Seq<char>, Seq<char>>(t@),
                Err(e) => spec_outcome(self@, success, status@, stdout@, stderr@) == Err::<Seq<char>, Seq<char>>(e@),
            },
    {
        if success {
            Ok(utf8_lossy_string(stdout))
        } else {
            let err = utf8_lossy_string(stderr);
            Err(self.failure_message(err.as_str(), status))
        }
    }
}

/// Whether a line of `jj log` makes a row: it holds a record marker, or
/// it is not blank.
pub open spec fn keeps_line(l: Seq<char>) -> bool {
    l.contains(RECORD) || trim(l).len() > 0
}

/// The lines that make rows, in order.
pub open spec fn kept_lines(ls: Seq<Seq<char>>) -> Seq<Seq<char>>
    decreases ls.len(),
{
    if ls.len() == 0 {
        ls
    } else if keeps_line(ls.last()) {
        kept_lines(ls.drop_last()).push(ls.last())
    } else {
        kept_lines(ls.drop_last())
    }
}

/// A line makes a row exactly when it is kept.
proof fn lemma_row_of_kept_line(l: Seq<char>)
    ensures
        spec_row_of_line(l) is Some <==> keeps_line(l),
{
    crate::text::lemma_first_index(l, RECORD);
    if l.contains(RECORD) {
        let j = choose|j: int| 0 <= j < l.len() && l[j] == RECORD;
        assert(first_index(l, RECORD) is Some);
    }
    if first_index(l, RECORD) is Some {
        let i = first_index(l, RECORD)->0;
        assert(l[i] == RECORD);
        assert(l.contains(RECORD));
    }
}

/// The rows of lines: one per kept line, in order, each the row of its
/// line.
proof fn lemma_rows_of_kept(ls: Seq<Seq<char>>)
    ensures
        spec_rows_of(ls).len() == kept_lines(ls).len(),
        forall|i: int|
            0 <= i < kept_lines(ls).len() ==> spec_row_of_line(#[trigger] kept_lines(ls)[i]) == Some(
                spec_rows_of(ls)[i],
            ),
    decreases ls.len(),
{
    if ls.len() > 0 {
        lemma_rows_of_kept(ls.drop_last());
        lemma_row_of_kept_line(ls.last());
        let k = kept_lines(ls);
        let r = spec_rows_of(ls);
        assert forall|i: int| 0 <= i < k.len() implies spec_row_of_line(#[trigger] k[i]) == Some(r[i]) by {
            if i < kept_lines(ls.drop_last()).len() {
                assert(k[i] == kept_lines(ls.drop_last())[i]);
                assert(r[i] == spec_rows_of(ls.drop_last())[i]);
            }
        }
    }
}

/// `parse_log` gives one row per kept line of its input (a line with a
/// record marker or a non-blank one), in order: the change of its record
/// under its graph, or the whole line as a connector.
pub proof fn law_parse_log_rows(out: Seq<char>)
    ensures
        spec_parse_log(out).len() == kept_lines(lines(out)).len(),
        forall|i: int|
            0 <= i < spec_parse_log(out).len() ==> spec_row_of_line(#[trigger] kept_lines(lines(out))[i])
                == Some(spec_parse_log(out)[i]),
{
    lemma_rows_of_kept(lines(out));
}

/// The rows of concatenated line sequences are the rows of each.
pub proof fn lemma_rows_concat(x: Seq<Seq<char>>, y: Seq<Seq<char>>)
    ensures
        spec_rows_of(x + y) == spec_rows_of(x) + spec_rows_of(y),
    decreases y.len(),
{
    if y.len() == 0 {
        assert(x + y =~= x);
        assert(spec_rows_of(x) + spec_rows_of(y) =~= spec_rows_of(x));
    } else {
        assert((x + y).drop_last() =~= x + y.drop_last());
        assert((x + y).last() == y.last());
        lemma_rows_concat(x, y.drop_last());
        match spec_row_of_line(y.last()) {
            Some(r) => {
                assert(spec_rows_of(x) + spec_rows_of(y) =~= (spec_rows_of(x) + spec_rows_of(y.drop_last())).push(r));
            },
            None => {},
        }
    }
}

/// Each line of `jj log` makes its row on its own: the log of two pieces
/// of output, the first ending at a line break, is the log of the first
/// followed by the log of the second.
pub proof fn law_parse_log_concat(a: Seq<char>, b: Seq<char>)
    requires
        a.len() == 0 || a.last() == '\n',
    ensures
        spec_parse_log(a + b) == spec_parse_log(a) + spec_parse_log(b),
{
    crate::text::lemma_lines_concat(a, b);
    lemma_rows_concat(lines(a), lines(b));
}

/// A record is read field by field in the order of [`LOG_TEMPLATE`]:
/// the fields joined with the field separator give the change whose
/// id, short id, commit id, flags, author, timestamp, bookmarks and
/// description are the fields in that order (fields past the eleventh
/// are ignored).
pub proof fn law_parse_change_fields(fs: Seq<Seq<char>>)
    requires
        fs.len() >= 11,
        fs[0].len() > 0,
        forall|i: int| 0 <= i < fs.len() ==> !(#[trigger] fs[i]).contains(FIELD),
    ensures
        spec_parse_change(join(fs, seq![FIELD])) == Some(
            ChangeView {
                id: fs[0],
                short_id: fs[1],
                commit_id: fs[2],
                is_working_copy: fs[3] == seq!['1'],
                is_empty: fs[4] == seq!['1'],
                has_conflict: fs[5] == seq!['1'],
                is_immutable: fs[6] == seq!['1'],
                author: fs[7],
                timestamp: fs[8],
                bookmarks: drop_empty(split_char(fs[9], ',')),
                description: trim_end(fs[10]),
            },
        ),
{
    crate::text::lemma_split_join(fs, FIELD);
}

/// A line of `jj log` holding one record under a graph gives one row:
/// the change of the record's fields, read in the order of
/// [`LOG_TEMPLATE`], under that graph.
pub proof fn law_parse_log_record(graph: Seq<char>, fs: Seq<Seq<char>>)
    requires
        !graph.contains(RECORD),
        !graph.contains('\n'),
        fs.len() >= 11,
        fs[0].len() > 0,
        forall|i: int|
            0 <= i < fs.len() ==> !(#[trigger] fs[i]).contains(FIELD) && !fs[i].contains('\n'),
    ensures
        spec_parse_log(graph + seq![RECORD] + join(fs, seq![FIELD])) == seq![
            RowView::Change {
                graph,
                change: ChangeView {
                    id: fs[0],
                    short_id: fs[1],
                    commit_id: fs[2],
                    is_working_copy: fs[3] == seq!['1'],
                    is_empty: fs[4] == seq!['1'],
                    has_conflict: fs[5] == seq!['1'],
                    is_immutable: fs[6] == seq!['1'],
                    author: fs[7],
                    timestamp: fs[8],
                    bookmarks: drop_empty(split_char(fs[9], ',')),
                    description: trim_end(fs[10]),
                },
            },
        ],
{
    law_parse_change_fields(fs);
    let data = join(fs, seq![FIELD]);
    let l = graph + seq![RECORD] + data;
    crate::text::lemma_first_index_at(l, RECORD, graph.len() as int);
    assert(l.take(graph.len() as int) =~= graph);
    assert(l.skip(graph.len() as int + 1) =~= data);
    assert forall|i: int| 0 <= i < fs.len() implies !(#[trigger] fs[i]).contains('\n') by {}
    crate::text::lemma_join_no_newline(fs, seq![FIELD]);
    assert(!seq![RECORD].contains('\n')) by {
        assert(seq![RECORD][0] == RECORD);
    }
    crate::text::lemma_concat_no_newline(graph, seq![RECORD]);
    crate::text::lemma_concat_no_newline(graph + seq![RECORD], data);
    crate::text::lemma_first_index_at(l, '\n', l.len() as int);
    assert(lines(l) == seq![l]);
    let c = spec_parse_change(data)->0;
    assert(spec_row_of_line(l) == Some(RowView::Change { graph, change: c }));
    assert(seq![l].drop_last() =~= Seq::<Seq<char>>::empty());
    assert(seq![l].last() == l);
    assert(spec_rows_of(Seq::<Seq<char>>::empty()) == Seq::<RowView>::empty());
    assert(spec_rows_of(seq![l]) =~= seq![RowView::Change { graph, change: c }]);
}

/// A non-blank line of `jj log` without a record is jj's graph alone: it
/// is kept whole as a connector row.
pub proof fn law_parse_log_connector(l: Seq<char>)
    requires
        !l.contains(RECORD),
        !l.contains('\n'),
        trim(l).len() > 0,
    ensures
        spec_parse_log(l) == seq![RowView::Connector(l)],
{
    crate::text::lemma_first_index_at(l, RECORD, l.len() as int);
    crate::text::lemma_first_index_at(l, '\n', l.len() as int);
    assert(lines(l) == seq![l]);
    assert(seq![l].drop_last() =~= Seq::<Seq<char>>::empty());
    assert(seq![l].last() == l);
    assert(spec_rows_of(Seq::<Seq<char>>::empty()) == Seq::<RowView>::empty());
    assert(spec_rows_of(seq![l]) =~= seq![RowView::Connector(l)]);
}

/// A record with fewer fields than [`LOG_TEMPLATE`] writes is not read
/// as a change: its line is kept whole as a connector row.
pub proof fn law_parse_log_short_record(graph: Seq<char>, fs: Seq<Seq<char>>)
    requires
        !graph.contains(RECORD),
        !graph.contains('\n'),
        1 <= fs.len() < 11,
        forall|i: int|
            0 <= i < fs.len() ==> !(#[trigger] fs[i]).contains(FIELD) && !fs[i].contains('\n'),
    ensures
        spec_parse_log(graph + seq![RECORD] + join(fs, seq![FIELD])) == seq![
            RowView::Connector(graph + seq![RECORD] + join(fs, seq![FIELD])),
        ],
{
    crate::text::lemma_split_join(fs, FIELD);
    let data = join(fs, seq![FIELD]);
    let l = graph + seq![RECORD] + data;
    crate::text::lemma_first_index_at(l, RECORD, graph.len() as int);
    assert(l.skip(graph.len() as int + 1) =~= data);
    assert forall|i: int| 0 <= i < fs.len() implies !(#[trigger] fs[i]).contains('\n') by {}
    crate::text::lemma_join_no_newline(fs, seq![FIELD]);
    assert(!seq![RECORD].contains('\n')) by {
        assert(seq![RECORD][0] == RECORD);
    }
    crate::text::lemma_concat_no_newline(graph, seq![RECORD]);
    crate::text::lemma_concat_no_newline(graph + seq![RECORD], data);
    crate::text::lemma_first_index_at(l, '\n', l.len() as int);
    assert(lines(l) == seq![l]);
    assert(spec_row_of_line(l) == Some(RowView::Connector(l)));
    assert(seq![l].drop_last() =~= Seq::<Seq<char>>::empty());
    assert(seq![l].last() == l);
    assert(spec_rows_of(Seq::<Seq<char>>::empty()) == Seq::<RowView>::empty());
    assert(spec_rows_of(seq![l]) =~= seq![RowView::Connector(l)]);
}

/// The entries of lines: no more than the lines, each path non-empty and
/// trimmed.
proof fn lemma_files_of_paths(ls: Seq<Seq<char>>)
    ensures
        spec_files_of(ls).len() <= ls.len(),
        forall|i: int|
            0 <= i < spec_files_of(ls).len() ==> (#[trigger] spec_files_of(ls)[i]).path.len() > 0 && trim(
                spec_files_of(ls)[i].path,
            ) == spec_files_of(ls)[i].path,
    decreases ls.len(),
{
    if ls.len() > 0 {
        lemma_files_of_paths(ls.drop_last());
        match spec_file_of_line(ls.last()) {
            Some(f) => {
                crate::text::lemma_trim_idempotent(ls.last().drop_first());
                let r = spec_files_of(ls);
                assert forall|i: int| 0 <= i < r.len() implies (#[trigger] r[i]).path.len() > 0 && trim(r[i].path) == r[i].path by {
                    if i < r.len() - 1 {
                        assert(r[i] == spec_files_of(ls.drop_last())[i]);
                    }
                }
            },
            None => {},
        }
    }
}

/// Every path that `parse_diff_summary` reads is non-empty and trimmed,
/// and there are no more paths than lines.
pub proof fn law_diff_summary_paths(out: Seq<char>)
    ensures
        spec_parse_diff_summary(out).len() <= lines(out).len(),
        forall|i: int|
            0 <= i < spec_parse_diff_summary(out).len() ==> (#[trigger] spec_parse_diff_summary(out)[i]).path.len()
                > 0 && trim(spec_parse_diff_summary(out)[i].path) == spec_parse_diff_summary(out)[i].path,
{
    lemma_files_of_paths(lines(out));
}

/// A line of `jj diff --summary` is a status letter, a space and a path:
/// it lists that path with that status.
pub proof fn law_diff_summary_line(status: char, path: Seq<char>)
    requires
        status != '\n',
        path.len() > 0,
        !crate::text::is_ws(path[0]),
        !crate::text::is_ws(path.last()),
        !path.contains('\n'),
    ensures
        spec_parse_diff_summary(seq![status, ' '] + path) == seq![DiffFileView { status, path }],
{
    let l = seq![status, ' '] + path;
    let sp = seq![' '] + path;
    assert(l.drop_first() =~= sp);
    assert(sp.last() == path.last());
    assert(crate::text::trim_end(sp) == sp);
    assert(sp.drop_first() =~= path);
    assert(crate::text::trim_start(path) == path);
    assert(crate::text::trim_start(sp) == path);
    assert(trim(l.drop_first()) == path);
    assert forall|j: int| 0 <= j < l.len() implies l[j] != '\n' by {
        if j >= 2 {
            assert(l[j] == path[j - 2]);
        }
    }
    crate::text::lemma_first_index_at(l, '\n', l.len() as int);
    assert(lines(l) == seq![l]);
    assert(l[0] == status);
    assert(spec_file_of_line(l) == Some(DiffFileView { status, path }));
    assert(seq![l].drop_last() =~= Seq::<Seq<char>>::empty());
    assert(seq![l].last() == l);
    assert(spec_files_of(Seq::<Seq<char>>::empty()) == Seq::<DiffFileView>::empty());
    assert(spec_files_of(seq![l]) =~= seq![DiffFileView { status, path }]);
}

/// The first line of `s`; empty when `s` has none.
pub open spec fn first_line(s: Seq<char>) -> Seq<char> {
    if lines(s).len() > 0 {
        lines(s)[0]
    } else {
        Seq::empty()
    }
}

/// The jj version line from what `jj --version` gave: the first line of
/// its output, trimmed, on success; else a failure naming the exit
/// status.
pub open spec fn spec_version(success: bool, status: Seq<char>, stdout: Seq<u8>) -> Result<Seq<char>, Seq<char>> {
    if success {
        Ok(trim(first_line(utf8_lossy(stdout))))
    } else {
        Err("`jj --version` failed with "@ + status)
    }
}

impl Jj {
    /// The version line of the jj on `PATH`, from what `jj --version`
    /// wrote and how it exited.
    pub fn version(success: bool, status: &str, stdout: &[u8]) -> (r: Result<String, String>)
        ensures
            match r {
                Ok(t) => spec_version(success, status@, stdout@) == Ok::<Seq<char>, Seq<char>>(t@),
                Err(e) => spec_version(success, status@, stdout@) == Err::<Seq<char>, Seq<char>>(e@),
            },
    {
        if success {
            let out = utf8_lossy_string(stdout);
            let v = chars_of(out.as_str());
            let ls = lines_of(v.as_slice());
            if ls.len() > 0 {
                let (lo, hi) = trim_bounds(ls[0].as_slice());
                proof {
                    assert(views(ls@)[0] == ls@[0]@);
                }
                Ok(string_of(ls[0].as_slice(), lo, hi))
            } else {
                Ok(String::new())
            }
        } else {
            let mut e = lit("`jj --version` failed with ");
            e.append(status);
            Err(e)
        }
    }
}

} // verus!
