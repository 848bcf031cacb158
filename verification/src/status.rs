//! Status lines: what the program reports, as long as reporting is on.

use vstd::prelude::*;

use crate::text::{append_chars, chars_of, string_of};

verus! {

/// Whether status lines are shown.
#[derive(Clone, Copy, Debug, PartialEq, Eq, Structural)]
pub struct Status {
    pub enabled: bool,
}

impl Status {
    /// Reporting starts switched on.
    pub fn new() -> (s: Status)
        ensures
            s.enabled,
    {
        Status { enabled: true }
    }
}

/// Switches reporting off for good.
pub fn disable(status: &mut Status)
    ensures
        !final(status).enabled,
{
    status.enabled = false;
}

/// The line to print for `message` with the given prefix and ending, if reporting is on.
pub open spec fn status_line(
    status: Status,
    prefix: Seq<char>,
    message: Seq<char>,
    suffix: Seq<char>,
) -> Option<Seq<char>> {
    if status.enabled {
        Some(prefix + message + suffix)
    } else {
        None
    }
}

fn framed(prefix: &str, message: &str, suffix: &str) -> (r: String)
    ensures
        r@ == prefix@ + message@ + suffix@,
{
    let mut v = chars_of(prefix);
    append_chars(&mut v, &chars_of(message));
    append_chars(&mut v, &chars_of(suffix));
    string_of(&v)
}

/// The informational line for `message` (for standard output), if reporting is on.
pub fn do_info(status: &Status, message: &str) -> (r: Option<String>)
    ensures
        r matches Some(l) ==> status_line(*status, "::: "@, message@, ""@) == Some(l@),
        r is None ==> status_line(*status, "::: "@, message@, ""@) is None,
{
    if status.enabled {
        Some(framed("::: ", message, ""))
    } else {
        None
    }
}

/// The warning line for `message` (for standard error), if reporting is on.
pub fn do_warn(status: &Status, message: &str) -> (r: Option<String>)
    ensures
        r matches Some(l) ==> status_line(*status, "!!! "@, message@, ""@) == Some(l@),
        r is None ==> status_line(*status, "!!! "@, message@, ""@) is None,
{
    if status.enabled {
        Some(framed("!!! ", message, ""))
    } else {
        None
    }
}

/// The highlighted line for `message` (for standard error), if reporting
/// is on: bold cyan when standard error is a terminal, plain otherwise.
pub fn do_highlight(status: &Status, message: &str, stderr_is_terminal: bool) -> (r: Option<String>)
    ensures
        stderr_is_terminal ==> (r matches Some(l) ==> status_line(
            *status,
            "\x1b[1;36m::: "@,
            message@,
            "\x1b[0m"@,
        ) == Some(l@)),
        !stderr_is_terminal ==> (r matches Some(l) ==> status_line(
            *status,
            "::: "@,
            message@,
            ""@,
        ) == Some(l@)),
        r is None <==> !status.enabled,
{
    if status.enabled {
        if stderr_is_terminal {
            Some(framed("\x1b[1;36m::: ", message, "\x1b[0m"))
        } else {
            Some(framed("::: ", message, ""))
        }
    } else {
        None
    }
}

/// Once reporting is disabled, no status line of any kind is produced.
pub proof fn lemma_disabled_reports_nothing(
    status: Status,
    prefix: Seq<char>,
    message: Seq<char>,
    suffix: Seq<char>,
)
    requires
        !status.enabled,
    ensures
        status_line(status, prefix, message, suffix) is None,
{
}

} // verus!
