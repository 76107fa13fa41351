//! The settings window: recording shortcuts and choosing a model.

use crate::config::{Config, ConfigData};
use crate::text::{chars_of, copy_strings, has_string, opt_view, same_str, views};
use vstd::prelude::*;

verus! {

// ---------------------------------------------------------------------------
// Recording shortcuts
// ---------------------------------------------------------------------------

/// Which shortcut a button records.
#[derive(Clone, Copy, PartialEq, Eq, Structural)]
pub enum ShortcutTarget {
    Open,
    Screenshot,
}

/// The key that cancels a recording.
pub const KEY_ESCAPE: u32 = 65307;

/// Whether a key, by its key code, only modifies others.
pub open spec fn is_modifier(key: u32) -> bool {
    ||| 65505 <= key <= 65506  // shift
    ||| 65507 <= key <= 65508  // control
    ||| 65511 <= key <= 65512  // meta
    ||| 65513 <= key <= 65514  // alt
    ||| 65515 <= key <= 65516  // super
    ||| 65517 <= key <= 65518  // hyper
    ||| key == 65027  // third level shift
    ||| key == 65509  // caps lock
    ||| key == 65407  // num lock

}

/// Whether a key only modifies others, so that the real key is still to come.
pub fn is_modifier_key(key: u32) -> (r: bool)
    ensures
        r == is_modifier(key),
{
    (65505 <= key && key <= 65508) || key == 65509 || (65511 <= key && key <= 65518) || key == 65027
        || key == 65407
}

/// What a click on a shortcut button does.
pub struct Armed {
    /// The shortcut that is recorded from now on.
    pub capturing: ShortcutTarget,
    /// The shortcut whose recording is given up, and whose button gets its label
    /// back.
    pub restore: Option<ShortcutTarget>,
}

/// The recording that a click gives up: that of the other shortcut.
pub open spec fn given_up(
    capturing: Option<ShortcutTarget>,
    target: ShortcutTarget,
) -> Option<ShortcutTarget> {
    match capturing {
        Some(previous) => if previous != target {
            Some(previous)
        } else {
            None
        },
        None => None,
    }
}

/// Arm the recording of a shortcut: only one is recorded at a time.
pub fn arm_capture(capturing: Option<ShortcutTarget>, target: ShortcutTarget) -> (r: Armed)
    ensures
        r.capturing == target,
        r.restore == given_up(capturing, target),
{
    Armed {
        capturing: target,
        restore: match capturing {
            Some(previous) => if previous != target {
                Some(previous)
            } else {
                None
            },
            None => None,
        },
    }
}

/// What a key press does to the recording.
#[derive(Clone, Copy, PartialEq, Eq, Structural)]
pub enum KeyAction {
    /// Nothing is recorded: the key goes its usual way.
    Proceed,
    /// The recording is cancelled; the button gets its label back.
    Cancel(ShortcutTarget),
    /// The key is swallowed, and the recording goes on.
    Wait,
    /// The combination becomes the shortcut, and the recording is over.
    Record(ShortcutTarget),
}

/// Escape cancels; modifiers, and combinations that no shortcut may have, are
/// waited out; any other key is recorded.
pub open spec fn key_action(
    capturing: Option<ShortcutTarget>,
    key: u32,
    valid: bool,
) -> KeyAction {
    match capturing {
        None => KeyAction::Proceed,
        Some(target) => if key == KEY_ESCAPE {
            KeyAction::Cancel(target)
        } else if is_modifier(key) || !valid {
            KeyAction::Wait
        } else {
            KeyAction::Record(target)
        },
    }
}

/// What a key press does to the recording. `valid` says whether the key makes a
/// shortcut with the modifiers that are held.
pub fn on_key(capturing: Option<ShortcutTarget>, key: u32, valid: bool) -> (r: KeyAction)
    ensures
        r == key_action(capturing, key, valid),
{
    match capturing {
        None => KeyAction::Proceed,
        Some(target) => if key == KEY_ESCAPE {
            KeyAction::Cancel(target)
        } else if is_modifier_key(key) || !valid {
            KeyAction::Wait
        } else {
            KeyAction::Record(target)
        },
    }
}

/// The recording after a key press.
pub open spec fn capturing_after(
    capturing: Option<ShortcutTarget>,
    action: KeyAction,
) -> Option<ShortcutTarget> {
    match action {
        KeyAction::Cancel(_) => None,
        KeyAction::Record(_) => None,
        _ => capturing,
    }
}

/// The recording after a key press: over once it is cancelled or done.
pub fn still_capturing(
    capturing: Option<ShortcutTarget>,
    action: KeyAction,
) -> (r: Option<ShortcutTarget>)
    ensures
        r == capturing_after(capturing, action),
{
    match action {
        KeyAction::Cancel(_) => None,
        KeyAction::Record(_) => None,
        _ => capturing,
    }
}

/// Escape always ends a recording, without recording anything.
pub proof fn law_escape_cancels(capturing: Option<ShortcutTarget>, valid: bool)
    ensures
        capturing_after(capturing, key_action(capturing, KEY_ESCAPE, valid)) is None,
        !(key_action(capturing, KEY_ESCAPE, valid) is Record),
{
}

/// Only what is armed is recorded, and never a modifier alone or an impossible
/// combination.
pub proof fn law_only_shortcuts_are_recorded(
    capturing: Option<ShortcutTarget>,
    key: u32,
    valid: bool,
)
    ensures
        key_action(capturing, key, valid) matches KeyAction::Record(t) ==> capturing == Some(t)
            && valid && !is_modifier(key) && key != KEY_ESCAPE,
{
}

/// The accelerator of a shortcut.
pub open spec fn accel_of(c: ConfigData, target: ShortcutTarget) -> Seq<char> {
    match target {
        ShortcutTarget::Open => c.shortcut,
        ShortcutTarget::Screenshot => c.screenshot_shortcut,
    }
}

/// The settings with another accelerator for a shortcut.
pub open spec fn with_accel(c: ConfigData, target: ShortcutTarget, accel: Seq<char>) -> ConfigData {
    match target {
        ShortcutTarget::Open => ConfigData { shortcut: accel, ..c },
        ShortcutTarget::Screenshot => ConfigData { screenshot_shortcut: accel, ..c },
    }
}

impl Config {
    /// The accelerator of a shortcut.
    pub fn accel(&self, target: ShortcutTarget) -> (r: String)
        ensures
            r@ == accel_of(self@, target),
    {
        match target {
            ShortcutTarget::Open => self.shortcut.clone(),
            ShortcutTarget::Screenshot => self.screenshot_shortcut.clone(),
        }
    }

    /// Set the accelerator of a shortcut.
    pub fn set_accel(&mut self, target: ShortcutTarget, accel: String)
        ensures
            final(self)@ == with_accel(old(self)@, target, accel@),
    {
        match target {
            ShortcutTarget::Open => {
                self.shortcut = accel;
            },
            ShortcutTarget::Screenshot => {
                self.screenshot_shortcut = accel;
            },
        }
    }
}

/// How a shortcut is shown.
pub open spec fn shown_accel(accelerator: Seq<char>, label: Option<Seq<char>>) -> Seq<char> {
    match label {
        Some(l) => l,
        None => accelerator,
    }
}

/// How a shortcut is shown: by the label that the toolkit has for it, else as it
/// is stored.
pub fn accel_to_label(accelerator: &str, label: Option<String>) -> (r: String)
    ensures
        r@ == match opt_view(label) {
            Some(l) => l,
            None => accelerator@,
        },
        r@ == shown_accel(accelerator@, opt_view(label)),
{
    match label {
        Some(l) => l,
        None => accelerator.to_owned(),
    }
}

// ---------------------------------------------------------------------------
// Choosing a model
// ---------------------------------------------------------------------------

/// The models to choose from before the endpoint has been asked.
pub open spec fn first_choices(model: Seq<char>) -> Seq<Seq<char>> {
    if model.len() > 0 {
        seq![model]
    } else {
        seq![]
    }
}

/// The models to choose from before the endpoint has been asked: the configured
/// one, if there is one.
pub fn initial_models(model: &str) -> (r: Vec<String>)
    ensures
        views(r@) == if model@.len() > 0 {
            seq![model@]
        } else {
            seq![]
        },
        views(r@) == first_choices(model@),
{
    let mut out: Vec<String> = Vec::new();
    if chars_of(model).len() > 0 {
        out.push(model.to_owned());
        assert(views(out@) =~= seq![model@]);
    } else {
        assert(views(out@) =~= seq![]);
    }
    out
}

/// The models to choose from: those of the endpoint, with the configured one in
/// front if it is not among them.
pub open spec fn choices(models: Seq<Seq<char>>, current: Seq<char>) -> Seq<Seq<char>> {
    if current.len() > 0 && !models.contains(current) {
        seq![current] + models
    } else {
        models
    }
}

/// The position of a text in a list, if it is there.
pub open spec fn position_from(names: Seq<Seq<char>>, name: Seq<char>, from: int) -> Option<int>
    decreases names.len() - from,
{
    if from >= names.len() {
        None
    } else if names[from] == name {
        Some(from)
    } else {
        position_from(names, name, from + 1)
    }
}

/// What the answer of the endpoint changes: the models to choose from, and the
/// position of the configured one among them.
pub open spec fn merged(listed: Seq<Seq<char>>, current: Seq<char>) -> Option<
    (Seq<Seq<char>>, Option<int>),
> {
    if listed.len() == 0 {
        None
    } else {
        Some((choices(listed, current), position_from(choices(listed, current), current, 0)))
    }
}

/// The models to choose from, and the chosen one.
pub struct ModelChoice {
    pub models: Vec<String>,
    pub selected: Option<usize>,
}

fn position_of(names: &Vec<String>, name: &str) -> (r: Option<usize>)
    ensures
        match r {
            Some(i) => i < names@.len() && position_from(views(names@), name@, 0) == Some(i as int),
            None => position_from(views(names@), name@, 0) is None,
        },
{
    let ghost all = views(names@);
    let mut i: usize = 0;
    while i < names.len()
        invariant
            i <= names@.len(),
            all == views(names@),
            position_from(all, name@, 0) == position_from(all, name@, i as int),
        decreases names@.len() - i,
    {
        assert(all[i as int] == names@[i as int]@);
        if same_str(names[i].as_str(), name) {
            return Some(i);
        }
        i = i + 1;
    }
    None
}

/// The models to choose from once the endpoint has answered, and the position of
/// the configured one. An empty answer changes nothing. The configured model
/// stays available even if it is not listed.
pub fn merge_models(listed: &Vec<String>, current: &str) -> (r: Option<ModelChoice>)
    ensures
        match r {
            Some(c) => listed@.len() > 0 && views(c.models@) == choices(views(listed@), current@)
                && match c.selected {
                Some(i) => position_from(choices(views(listed@), current@), current@, 0) == Some(
                    i as int,
                ),
                None => position_from(choices(views(listed@), current@), current@, 0) is None,
            },
            None => listed@.len() == 0,
        },
        merged(views(listed@), current@) == match r {
            Some(c) => Some(
                (
                    views(c.models@),
                    match c.selected {
                        Some(i) => Some(i as int),
                        None => None,
                    },
                ),
            ),
            None => None,
        },
{
    assert(views(listed@).len() == listed@.len());
    if listed.len() == 0 {
        return None;
    }
    let mut models = copy_strings(listed);
    if chars_of(current).len() > 0 && !has_string(&models, current) {
        let ghost before = views(models@);
        models.insert(0, current.to_owned());
        assert(views(models@) =~= seq![current@] + before);
    }
    let selected = position_of(&models, current);
    Some(ModelChoice { models: models, selected: selected })
}

proof fn lemma_position(names: Seq<Seq<char>>, name: Seq<char>, from: int)
    requires
        0 <= from <= names.len(),
    ensures
        match position_from(names, name, from) {
            Some(i) => from <= i < names.len() && names[i] == name,
            None => forall|j: int| from <= j < names.len() ==> #[trigger] names[j] != name,
        },
    decreases names.len() - from,
{
    if from < names.len() && names[from] != name {
        lemma_position(names, name, from + 1);
    }
}

/// The configured model is always among the choices, and selected; every listed
/// model can be chosen.
pub proof fn law_configured_model_stays_available(models: Seq<Seq<char>>, current: Seq<char>)
    requires
        current.len() > 0,
    ensures
        choices(models, current).contains(current),
        position_from(choices(models, current), current, 0) matches Some(i) && choices(
            models,
            current,
        )[i] == current,
        forall|m: Seq<char>| models.contains(m) ==> choices(models, current).contains(m),
{
    let all = choices(models, current);
    if !models.contains(current) {
        assert(all[0] == current);
        assert forall|m: Seq<char>| models.contains(m) implies all.contains(m) by {
            let i = choose|i: int| 0 <= i < models.len() && models[i] == m;
            assert(all[i + 1] == m);
        }
    }
    lemma_position(all, current, 0);
}

} // verus!
