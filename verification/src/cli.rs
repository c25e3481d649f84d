use vstd::prelude::*;

use crate::text::{copy_string, same_text};

verus! {

// ---------------------------------------------------------------------------
// The command line's choices
// ---------------------------------------------------------------------------

/// The configuration used when none is named: the running system.
pub open spec fn default_config_text() -> Seq<char> {
    "/var/run/current-system"@
}

/// The configuration used when none is named.
pub fn default_config() -> (s: String)
    ensures
        s@ == default_config_text(),
{
    String::from_str("/var/run/current-system")
}

/// The configuration named on the command line, or the running system.
pub fn config_or_default(config: &Option<String>) -> (s: String)
    ensures
        s@ == match config {
            Some(c) => c@,
            None => default_config_text(),
        },
{
    match config {
        Some(c) => copy_string(c),
        None => default_config(),
    }
}

/// The message for a diff without arguments.
pub open spec fn missing_new_note() -> Seq<char> {
    "diff requires at least one argument (NEW config)"@
}

/// The two configurations to diff: both given; or only the new one, against
/// the running system; or an error when none is given. (A second argument
/// alone cannot be given: the command line fills the first one first.)
pub fn diff_args(old: &Option<String>, new: &Option<String>) -> (r: Result<(String, String), String>)
    requires
        !(old is None && new is Some),
    ensures
        match (old, new) {
            (Some(o), Some(n)) => r matches Ok(p) && p.0@ == o@ && p.1@ == n@,
            (Some(n), None) => r matches Ok(p) && p.0@ == default_config_text() && p.1@ == n@,
            _ => r matches Err(e) && e@ == missing_new_note(),
        },
{
    match (old, new) {
        (Some(o), Some(n)) => Ok((copy_string(o), copy_string(n))),
        (Some(n), None) => Ok((default_config(), copy_string(n))),
        _ => Err(String::from_str("diff requires at least one argument (NEW config)")),
    }
}

/// When the tree is drawn in color.
#[derive(PartialEq, Eq, Structural, Clone, Copy, Debug)]
pub enum ColorMode {
    Always,
    Auto,
    Never,
}

/// Whether to draw in color: always, never, or when the output is a terminal.
pub fn use_color(mode: ColorMode, is_tty: bool) -> (b: bool)
    ensures
        b == match mode {
            ColorMode::Always => true,
            ColorMode::Never => false,
            ColorMode::Auto => is_tty,
        },
{
    match mode {
        ColorMode::Always => true,
        ColorMode::Never => false,
        ColorMode::Auto => is_tty,
    }
}

/// Whether saving to `path` means writing to the standard output.
pub fn writes_to_stdout(path: &String) -> (b: bool)
    ensures
        b == (path@ == "/dev/stdout"@ || path@ == "-"@),
{
    same_text(path, &String::from_str("/dev/stdout")) || same_text(path, &String::from_str("-"))
}

/// The note after saving to a file.
pub fn wrote_note(path: &String) -> (s: String)
    ensures
        s@ == "Wrote "@ + path@,
{
    let mut s = String::from_str("Wrote ");
    s.append(path.as_str());
    s
}

} // verus!
