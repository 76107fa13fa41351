//! System-wide hotkeys.
//!
//! The compositor runs a command when a custom keybinding is pressed. Here
//! stands which keybindings the application registers, and how it adds itself to
//! the list of keybindings without touching those of the user.

use crate::config::Config;
use crate::text::{has_string, opt_str, views};
use vstd::prelude::*;

verus! {

/// Dedicated, app-specific relay path, so that it never collides with the user's
/// own custom shortcuts.
pub const RELAY_PATH: &'static str = "/org/gnome/settings-daemon/plugins/media-keys/custom-keybindings/elementary-intelligence/";

/// The relay path of the screenshot shortcut.
pub const SCREENSHOT_RELAY_PATH: &'static str = "/org/gnome/settings-daemon/plugins/media-keys/custom-keybindings/elementary-intelligence-screenshot/";

/// A custom keybinding.
pub struct Relay {
    pub path: String,
    pub name: String,
    pub command: String,
    /// The accelerator; empty for none.
    pub binding: String,
}

pub struct RelayData {
    pub path: Seq<char>,
    pub name: Seq<char>,
    pub command: Seq<char>,
    pub binding: Seq<char>,
}

impl View for Relay {
    type V = RelayData;

    open spec fn view(&self) -> RelayData {
        RelayData {
            path: self.path@,
            name: self.name@,
            command: self.command@,
            binding: self.binding@,
        }
    }
}

/// The command line that runs the application with the given arguments.
pub open spec fn command_line(exe: Option<Seq<char>>, args: Seq<char>) -> Seq<char> {
    match exe {
        Some(path) => path + " "@ + args,
        None => "elementary-intelligence"@ + " "@ + args,
    }
}

/// The binding of a shortcut: none while the shortcuts are disabled.
pub open spec fn binding(enabled: bool, accel: Seq<char>) -> Seq<char> {
    if enabled {
        accel
    } else {
        seq![]
    }
}

/// The keybinding that opens the entry.
pub open spec fn open_relay(enabled: bool, accel: Seq<char>, exe: Option<Seq<char>>) -> RelayData {
    RelayData {
        path: RELAY_PATH@,
        name: "Elementary Intelligence"@,
        command: command_line(exe, "--spotlight"@),
        binding: binding(enabled, accel),
    }
}

/// The keybinding that opens the entry with a screenshot.
pub open spec fn screenshot_relay(
    enabled: bool,
    accel: Seq<char>,
    exe: Option<Seq<char>>,
) -> RelayData {
    RelayData {
        path: SCREENSHOT_RELAY_PATH@,
        name: "Elementary Intelligence (Screenshot)"@,
        command: command_line(exe, "--spotlight --screenshot"@),
        binding: binding(enabled, accel),
    }
}

/// Absolute command the compositor runs when a hotkey fires. Without a known path
/// of the executable, its plain name has to do.
pub fn command(exe: Option<&str>, args: &str) -> (r: String)
    ensures
        r@ == command_line(opt_str(exe), args@),
{
    let mut out = match exe {
        Some(path) => path.to_owned(),
        None => "elementary-intelligence".to_owned(),
    };
    out.append(" ");
    out.append(args);
    out
}

fn bound(enabled: bool, accel: &String) -> (r: String)
    ensures
        r@ == binding(enabled, accel@),
{
    if enabled {
        accel.clone()
    } else {
        String::new()
    }
}

/// The paths with one more, unless it is there already.
pub open spec fn with_path(paths: Seq<Seq<char>>, path: Seq<char>) -> Seq<Seq<char>> {
    if paths.contains(path) {
        paths
    } else {
        paths.push(path)
    }
}

/// The paths with both relay paths.
pub open spec fn with_relays(paths: Seq<Seq<char>>) -> Seq<Seq<char>> {
    with_path(with_path(paths, RELAY_PATH@), SCREENSHOT_RELAY_PATH@)
}

/// The list of keybinding paths that is to be written, if it changes.
pub open spec fn new_paths(paths: Seq<Seq<char>>) -> Option<Seq<Seq<char>>> {
    if with_relays(paths) == paths {
        None
    } else {
        Some(with_relays(paths))
    }
}

/// What is to be written to register the shortcuts.
pub struct Registration {
    pub open: Relay,
    pub screenshot: Relay,
    /// The new list of keybinding paths, if it changes.
    pub paths: Option<Vec<String>>,
}

fn add_path(paths: &mut Vec<String>, path: &str) -> (changed: bool)
    ensures
        views(final(paths)@) == with_path(views(old(paths)@), path@),
        changed == !views(old(paths)@).contains(path@),
{
    if has_string(paths, path) {
        false
    } else {
        paths.push(path.to_owned());
        assert(views(paths@) =~= views(old(paths)@).push(path@));
        true
    }
}

/// Register (or update) both system-wide shortcuts from the config. When
/// disabled the bindings are cleared, so that the entries stay but do nothing;
/// re-enabling simply restores the accelerators. `paths` is the list of custom
/// keybindings as it stands.
pub fn apply(config: &Config, exe: Option<&str>, paths: Vec<String>) -> (r: Registration)
    ensures
        r.open@ == open_relay(config.enabled, config.shortcut@, opt_str(exe)),
        r.screenshot@ == screenshot_relay(
            config.enabled,
            config.screenshot_shortcut@,
            opt_str(exe),
        ),
        match r.paths {
            Some(p) => views(p@) == with_relays(views(paths@)) && with_relays(views(paths@))
                != views(paths@),
            None => with_relays(views(paths@)) == views(paths@),
        },
        new_paths(views(paths@)) == match r.paths {
            Some(p) => Some(views(p@)),
            None => None,
        },
{
    let open = Relay {
        path: RELAY_PATH.to_owned(),
        name: "Elementary Intelligence".to_owned(),
        command: command(exe, "--spotlight"),
        binding: bound(config.enabled, &config.shortcut),
    };
    let screenshot = Relay {
        path: SCREENSHOT_RELAY_PATH.to_owned(),
        name: "Elementary Intelligence (Screenshot)".to_owned(),
        command: command(exe, "--spotlight --screenshot"),
        binding: bound(config.enabled, &config.screenshot_shortcut),
    };
    let ghost before = views(paths@);
    let mut all = paths;
    let first = add_path(&mut all, RELAY_PATH);
    let ghost between = views(all@);
    let second = add_path(&mut all, SCREENSHOT_RELAY_PATH);
    proof {
        if first {
            assert(between.len() == before.len() + 1);
        }
        if second {
            assert(views(all@).len() == between.len() + 1);
        }
    }
    Registration {
        open: open,
        screenshot: screenshot,
        paths: if first || second {
            Some(all)
        } else {
            None
        },
    }
}

proof fn lemma_with_path(paths: Seq<Seq<char>>, path: Seq<char>)
    ensures
        with_path(paths, path).contains(path),
        paths.len() <= with_path(paths, path).len(),
        with_path(paths, path).take(paths.len() as int) == paths,
        forall|p: Seq<char>| paths.contains(p) ==> with_path(paths, path).contains(p),
{
    let more = with_path(paths, path);
    assert(more.take(paths.len() as int) =~= paths);
    if !paths.contains(path) {
        assert(more[paths.len() as int] == path);
    }
    assert forall|p: Seq<char>| paths.contains(p) implies more.contains(p) by {
        let i = choose|i: int| 0 <= i < paths.len() && paths[i] == p;
        assert(more[i] == p);
    }
}

/// Registering lists both relay paths behind what was listed before, and leaves
/// the user's own keybindings alone; registering once more changes nothing.
pub proof fn law_registering_keeps_other_paths(paths: Seq<Seq<char>>)
    ensures
        with_relays(paths).contains(RELAY_PATH@),
        with_relays(paths).contains(SCREENSHOT_RELAY_PATH@),
        paths.len() <= with_relays(paths).len() <= paths.len() + 2,
        with_relays(paths).take(paths.len() as int) == paths,
        with_relays(with_relays(paths)) == with_relays(paths),
{
    let one = with_path(paths, RELAY_PATH@);
    let two = with_path(one, SCREENSHOT_RELAY_PATH@);
    lemma_with_path(paths, RELAY_PATH@);
    lemma_with_path(one, SCREENSHOT_RELAY_PATH@);
    assert(two.take(paths.len() as int) =~= one.take(paths.len() as int));
}

/// While the shortcuts are disabled both keybindings are listed, with no key
/// bound to them.
pub proof fn law_disabled_shortcuts_are_unbound(accel: Seq<char>, exe: Option<Seq<char>>)
    ensures
        open_relay(false, accel, exe).binding.len() == 0,
        screenshot_relay(false, accel, exe).binding.len() == 0,
        open_relay(false, accel, exe).path == open_relay(true, accel, exe).path,
        open_relay(true, accel, exe).binding == accel,
        screenshot_relay(true, accel, exe).binding == accel,
{
}

} // verus!
