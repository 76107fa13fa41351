//! What a launch of the application does.

use crate::ascii::{decimal, push_decimal};
use crate::split::{replace, replace_all};
use crate::spotlight::CORNER_RADIUS;
use crate::text::{has_string, same_str, views};
use vstd::prelude::*;

verus! {

/// What a launch asks for.
#[derive(Clone, Copy, PartialEq, Eq, Structural)]
pub enum Launch {
    /// Show or dismiss the entry.
    Toggle { screenshot: bool },
    /// Open the settings.
    Settings,
    /// Stay in the background.
    Nothing,
}

/// The hotkey asks for the entry; a second launch while the application is
/// running opens the settings; the first one shows nothing.
pub open spec fn launch_of(args: Seq<Seq<char>>, remote: bool) -> Launch {
    if args.contains("--spotlight"@) {
        Launch::Toggle { screenshot: args.contains("--screenshot"@) }
    } else if remote {
        Launch::Settings
    } else {
        Launch::Nothing
    }
}

/// What a launch asks for. `remote` says whether the application was running
/// already.
pub fn on_command_line(args: &Vec<String>, remote: bool) -> (r: Launch)
    ensures
        r == launch_of(views(args@), remote),
{
    if has_string(args, "--spotlight") {
        Launch::Toggle { screenshot: has_string(args, "--screenshot") }
    } else if remote {
        Launch::Settings
    } else {
        Launch::Nothing
    }
}

/// What toggling the entry does.
#[derive(Clone, Copy, PartialEq, Eq, Structural)]
pub enum Toggled {
    Ignore,
    /// Close the entry that is open.
    Close,
    /// Present the entry after a short delay; take a screenshot first if asked.
    Present { capture: bool },
}

/// Nothing happens while the shortcuts are disabled; an open entry is closed; one
/// that is about to be presented is waited for.
pub open spec fn toggled_to(enabled: bool, open: bool, pending: bool, screenshot: bool) -> Toggled {
    if !enabled {
        Toggled::Ignore
    } else if open {
        Toggled::Close
    } else if pending {
        Toggled::Ignore
    } else {
        Toggled::Present { capture: screenshot }
    }
}

/// Show the entry, or dismiss it if it is already open (toggle).
pub fn toggle_spotlight(enabled: bool, open: bool, pending: bool, screenshot: bool) -> (r: Toggled)
    ensures
        r == toggled_to(enabled, open, pending, screenshot),
{
    if !enabled {
        Toggled::Ignore
    } else if open {
        Toggled::Close
    } else if pending {
        Toggled::Ignore
    } else {
        Toggled::Present { capture: screenshot }
    }
}

/// The entry is never presented over one that is open or about to be presented,
/// and not at all while the shortcuts are disabled.
pub proof fn law_one_entry_at_a_time(enabled: bool, open: bool, pending: bool, screenshot: bool)
    ensures
        toggled_to(enabled, open, pending, screenshot) is Present <==> enabled && !open && !pending,
        toggled_to(enabled, open, pending, screenshot) is Close <==> enabled && open,
{
}

/// Whether a desktop color scheme asks for dark colors.
pub open spec fn is_dark(scheme: Seq<char>) -> bool {
    scheme == "prefer-dark"@
}

/// Whether a desktop color scheme asks for dark colors: only `prefer-dark` does,
/// anything else means light ones.
pub fn prefers_dark(scheme: &str) -> (r: bool)
    ensures
        r == (scheme@ == "prefer-dark"@),
        r == is_dark(scheme@),
{
    same_str(scheme, "prefer-dark")
}

/// The stylesheet with the corner radius of the entry filled in.
pub open spec fn filled_sheet(template: Seq<char>) -> Seq<char> {
    replace(template, "{corner_radius}"@, decimal(CORNER_RADIUS as nat))
}

/// The stylesheet with the corner radius of the entry filled in.
pub fn stylesheet(template: &str) -> (r: String)
    ensures
        r@ == replace(template@, "{corner_radius}"@, decimal(CORNER_RADIUS as nat)),
        r@ == filled_sheet(template@),
{
    proof {
        reveal_strlit("{corner_radius}");
    }
    let mut radius = String::new();
    push_decimal(&mut radius, CORNER_RADIUS as u64);
    assert(radius@ =~= decimal(CORNER_RADIUS as nat));
    replace_all(template, "{corner_radius}", radius.as_str())
}

} // verus!
