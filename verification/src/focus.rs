//! Reading what the window system reports: the process behind the focused
//! window, whether that process is the editor, and which file the editor's
//! window shows.
//!
//! The functions here take the text that a query returned; making the query is
//! the caller's part.

use crate::text::{
    contains, first_piece, holds, last_piece, number_u32, parse_u32, same_text, take_first_piece,
    take_last_piece, trim, trimmed,
};
use vstd::prelude::*;

verus! {

/// The process id that `output` writes: a number between white space.
pub open spec fn window_pid(output: Seq<char>) -> Option<u32> {
    number_u32(trimmed(output))
}

/// The name of the program that a process runs, given its command line with
/// the arguments set apart by NUL characters: the first argument without the
/// directories that lead to it.
pub open spec fn process_name(cmdline: Seq<char>) -> Seq<char> {
    last_piece(first_piece(cmdline, "\0"@), "/"@)
}

/// Whether a process of this name is the editor.
pub open spec fn is_editor(name: Seq<char>) -> bool {
    holds(name, "zed"@) || name == "Zed"@
}

/// The part of a window title that names the file: what follows the last long
/// dash set between spaces or, in a title without one, what stands before the
/// first hyphen set between spaces.
pub open spec fn title_piece(title: Seq<char>) -> Seq<char> {
    let shown = trimmed(title);
    if holds(shown, " \u{2014} "@) {
        last_piece(shown, " \u{2014} "@)
    } else {
        first_piece(shown, " - "@)
    }
}

/// The file that a window with this title shows, if the title names one: the
/// title's file part without white space round it, unless that is empty or
/// the editor's own name.
pub open spec fn file_name_in_title(title: Seq<char>) -> Option<Seq<char>> {
    let name = trimmed(title_piece(title));
    if name.len() > 0 && name != "Zed"@ {
        Some(name)
    } else {
        None
    }
}

/// Reads the process id of the focused window from what the window tool
/// printed.
pub fn parse_window_pid(output: &str) -> (pid: Option<u32>)
    ensures
        pid == window_pid(output@),
{
    parse_u32(trim(output))
}

/// The name of the program that a process runs, from its command line.
pub fn process_name_from_cmdline(cmdline: &str) -> (name: String)
    ensures
        name@ == process_name(cmdline@),
{
    take_last_piece(take_first_piece(cmdline, "\0"), "/").to_owned()
}

/// Whether the editor has the focus, given the name of the process behind the
/// focused window, if that could be found.
pub fn is_zed_active(process_name: Option<&str>) -> (active: bool)
    ensures
        active == match process_name {
            Some(name) => is_editor(name@),
            None => false,
        },
{
    match process_name {
        Some(name) => contains(name, "zed") || same_text(name, "Zed"),
        None => false,
    }
}

/// The file that the editor's window shows, from the window's title.
pub fn file_name_from_title(title: &str) -> (file_name: Option<String>)
    ensures
        match file_name {
            Some(name) => file_name_in_title(title@) == Some(name@),
            None => file_name_in_title(title@) is None,
        },
{
    let shown = trim(title);
    let piece = if contains(shown, " \u{2014} ") {
        take_last_piece(shown, " \u{2014} ")
    } else {
        take_first_piece(shown, " - ")
    };
    let name = trim(piece);
    if !name.is_empty() && !same_text(name, "Zed") {
        Some(name.to_owned())
    } else {
        None
    }
}

} // verus!
