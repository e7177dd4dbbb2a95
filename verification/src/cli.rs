//! The decisions the command line makes: what to do for its arguments,
//! which theme to use, and whether to page the output.

use vstd::prelude::*;

use crate::text::{same_text, to_owned_string};

verus! {

/// What the program does for its arguments.
#[derive(PartialEq, Eq, Structural, Debug, Clone, Copy)]
pub enum Mode {
    /// Print the usage text.
    Help,
    /// Print the names of the available themes.
    ListThemes,
    /// Highlight standard input.
    Highlight,
}

pub open spec fn is_help_flag(a: Seq<char>) -> bool {
    a == "--help"@ || a == "-h"@
}

pub open spec fn is_list_themes_flag(a: Seq<char>) -> bool {
    a == "--list-themes"@
}

/// Help when any argument asks for it; else the theme list when any
/// argument asks for it; else highlighting.
pub open spec fn mode_spec(args: Seq<Seq<char>>) -> Mode {
    if exists|i: int| 0 <= i < args.len() && #[trigger] is_help_flag(args[i]) {
        Mode::Help
    } else if exists|i: int| 0 <= i < args.len() && #[trigger] is_list_themes_flag(args[i]) {
        Mode::ListThemes
    } else {
        Mode::Highlight
    }
}

/// What to do for the command-line arguments (the program's name included).
pub fn mode_for_args(args: &Vec<String>) -> (m: Mode)
    ensures
        m == mode_spec(args@.map_values(|a: String| a@)),
{
    let ghost views = args@.map_values(|a: String| a@);
    let mut list = false;
    for i in 0..args.len()
        invariant
            views == args@.map_values(|a: String| a@),
            forall|k: int| 0 <= k < i ==> !is_help_flag(#[trigger] views[k]),
            list <==> exists|k: int| 0 <= k < i && #[trigger] is_list_themes_flag(views[k]),
    {
        let a = args[i].as_str();
        assert(views[i as int] == a@);
        if same_text(a, "--help") || same_text(a, "-h") {
            assert(is_help_flag(views[i as int]));
            return Mode::Help;
        }
        let is_list = same_text(a, "--list-themes");
        if is_list {
            list = true;
        }
        assert(is_list_themes_flag(views[i as int]) == is_list);
        assert(list <==> exists|k: int| 0 <= k < i + 1 && #[trigger] is_list_themes_flag(views[k]))
            by {
            if is_list_themes_flag(views[i as int]) {
                assert(0 <= i < i + 1);
            }
        }
    }
    if list {
        Mode::ListThemes
    } else {
        Mode::Highlight
    }
}

/// The theme used when none is configured.
pub const DEFAULT_THEME: &'static str = "base16-ocean.dark";

/// The name of the theme to use: the configured one, else the default.
pub fn theme_name(configured: Option<String>) -> (r: String)
    ensures
        r@ == match configured {
            Some(s) => s@,
            None => DEFAULT_THEME@,
        },
{
    match configured {
        Some(s) => s,
        None => to_owned_string(DEFAULT_THEME),
    }
}

/// Whether the output goes through a pager: only when git is not already
/// paging it and it goes to a terminal.
pub fn use_pager(in_git_pager: bool, stdout_is_terminal: bool) -> (r: bool)
    ensures
        r == (!in_git_pager && stdout_is_terminal),
{
    !in_git_pager && stdout_is_terminal
}

} // verus!
