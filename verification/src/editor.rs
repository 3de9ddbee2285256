//! Which editor opens the selected file, and the command line that opens
//! it. The editor is run without a shell: its command line is split on
//! whitespace only, with no quoting, and the file's path is added as the
//! last argument.
use vstd::prelude::*;

use crate::process::blank;
use crate::text::{opt_str_view, split_words, strings_view, words};

verus! {

/// The environment variable read first for the editor.
pub const EDITOR_ENV: &'static str = "EDITOR";

/// The environment variable read when [`EDITOR_ENV`] gives nothing.
pub const VISUAL_ENV: &'static str = "VISUAL";

/// The program to run and its arguments, the file's path last.
#[derive(Debug, Clone, PartialEq, Eq)]
pub struct EditorCommand {
    pub program: String,
    pub args: Vec<String>,
}

/// The editor: the value of `EDITOR` unless it is unset or blank, else
/// that of `VISUAL` on the same terms, else none.
pub open spec fn spec_resolve(editor: Option<Seq<char>>, visual: Option<Seq<char>>) -> Option<Seq<char>> {
    if editor is Some && !blank(editor->0) {
        editor
    } else if visual is Some && !blank(visual->0) {
        visual
    } else {
        None
    }
}

/// The editor command, from the values of `EDITOR` and `VISUAL` (`None`
/// where a variable is unset).
pub fn resolve(editor: Option<&str>, visual: Option<&str>) -> (r: Option<String>)
    ensures
        r matches Some(s) ==> spec_resolve(opt_str_view(editor), opt_str_view(visual)) == Some(s@),
        r is None ==> spec_resolve(opt_str_view(editor), opt_str_view(visual)) is None,
{
    match editor {
        Some(e) => {
            if crate::process::check_command(EDITOR_ENV, e).is_ok() {
                return Some(String::from_str(e));
            }
        },
        None => {},
    }
    match visual {
        Some(v) => {
            if crate::process::check_command(VISUAL_ENV, v).is_ok() {
                return Some(String::from_str(v));
            }
        },
        None => {},
    }
    None
}

/// `cmd` split into its words; quotes and escapes mean nothing.
pub fn split(cmd: &str) -> (r: Vec<String>)
    ensures
        strings_view(r@) == words(cmd@),
{
    split_words(cmd)
}

/// The command that opens `path` with the editor command `cmd`: its
/// first word is the program, the other words and then `path` its
/// arguments. An editor command with no word in it is refused.
pub fn command(cmd: &str, path: &str) -> (r: Result<EditorCommand, String>)
    ensures
        r is Ok <==> words(cmd@).len() > 0,
        r matches Ok(c) ==> c.program@ == words(cmd@)[0] && strings_view(c.args@) == words(
            cmd@,
        ).drop_first().push(path@),
        r matches Err(e) ==> e@ == "editor command is empty"@,
{
    let mut parts = split(cmd);
    if parts.len() == 0 {
        return Err(String::from_str("editor command is empty"));
    }
    let ghost before = parts@;
    let program = parts.remove(0);
    let ghost middle = parts@;
    parts.push(String::from_str(path));
    proof {
        assert(middle =~= before.drop_first());
        assert(strings_view(parts@) =~= strings_view(before).drop_first().push(path@));
    }
    Ok(EditorCommand { program, args: parts })
}

} // verus!
