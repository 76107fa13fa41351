//! What the settings are, and what follows from them.

use crate::app::{filled_sheet, is_dark, launch_of, toggled_to, Launch, Toggled};
use crate::ascii::decimal;
use crate::config::{
    default_config, is_first_run, loaded, states_all, toggled, with_base_url, with_key, without,
    ConfigData, ConfigFile, PartialConfig,
};
use crate::keybinding::{
    new_paths, open_relay, screenshot_relay, with_path, with_relays, RELAY_PATH, SCREENSHOT_RELAY_PATH,
};
use crate::screenshot::{
    answered_with, picture_url, scaled, scaled_size, temp_text, AnsweredData,
};
use crate::settings_window::{
    accel_of, capturing_after, choices, first_choices, given_up, is_modifier, key_action,
    merged, position_from, shown_accel, with_accel, KeyAction, ShortcutTarget,
};
use crate::split::replace;
use crate::text::{find, opt_view, views};
use crate::text_laws::{
    has_at, has_part, is_blank, is_tight, law_first_occurrence_is_found,
    law_trimming_takes_the_space_around,
};
use vstd::prelude::*;

verus! {

// ---------------------------------------------------------------------------
// Loading
// ---------------------------------------------------------------------------

/// The text that a file states for a setting, or what it is without one.
pub open spec fn stated_or(s: Option<String>, d: Seq<char>) -> Seq<char> {
    match opt_view(s) {
        Some(t) => t,
        None => d,
    }
}

/// Every setting is what the file states of it, whatever else the file states or leaves
/// out, and has a default of its own where the file leaves it out.
pub proof fn law_each_setting_has_its_default(p: PartialConfig)
    ensures
        ({
            let c = loaded(ConfigFile::Parsed(p));
            &&& c.enabled == p.enabled.unwrap_or(true)
            &&& c.start_on_login == p.start_on_login.unwrap_or(true)
            &&& c.shortcut == stated_or(p.shortcut, "<Control><Shift>space"@)
            &&& c.screenshot_shortcut == stated_or(p.screenshot_shortcut, "<Control><Shift>s"@)
            &&& c.api_base_url == stated_or(p.api_base_url, "https://api.openai.com/v1"@)
            &&& c.api_key == stated_or(p.api_key, seq![])
            &&& c.model == stated_or(p.model, "gpt-4o-mini"@)
            &&& c.system_prompt == stated_or(
                p.system_prompt,
                "You're a helpful assistant called El. You aim to respond in 1-2 sentences, straight to the point."@,
            )
            &&& p.enabled_tools matches Some(v) ==> c.enabled_tools == views(v@)
            &&& p.enabled_tools is None ==> c.enabled_tools.len() == 0
        }),
{
}

/// A file that cannot be used gives the settings of a first run. Only where there is none
/// are they written out.
pub proof fn law_unusable_file_is_default(p: PartialConfig)
    ensures
        loaded(ConfigFile::Unreadable) == default_config(),
        loaded(ConfigFile::Malformed) == default_config(),
        is_first_run(ConfigFile::Unreadable),
        !is_first_run(ConfigFile::Malformed),
        !is_first_run(ConfigFile::Parsed(p)),
        default_config().enabled,
        default_config().start_on_login,
        default_config().api_key.len() == 0,
        default_config().enabled_tools.len() == 0,
{
}

/// What is written of the settings is all of them.
pub proof fn law_all_settings_are_written(p: PartialConfig, c: ConfigData, d: ConfigData)
    requires
        states_all(p, c),
        states_all(p, d),
    ensures
        c == d,
        p.enabled is Some,
        p.shortcut is Some,
        p.screenshot_shortcut is Some,
        p.start_on_login is Some,
        p.api_base_url is Some,
        p.api_key is Some,
        p.model is Some,
        p.system_prompt is Some,
        p.enabled_tools is Some,
{
}

// ---------------------------------------------------------------------------
// Changing
// ---------------------------------------------------------------------------

/// What is typed for the endpoint and the key is taken over without the whitespace around
/// it, and changes nothing else.
pub proof fn law_typed_settings_are_trimmed(
    c: ConfigData,
    a: Seq<char>,
    s: Seq<char>,
    b: Seq<char>,
)
    requires
        is_blank(a),
        is_tight(s),
        is_blank(b),
    ensures
        with_base_url(c, a + s + b) == (ConfigData { api_base_url: s, ..c }),
        with_key(c, a + s + b) == (ConfigData { api_key: s, ..c }),
{
    law_trimming_takes_the_space_around(a, s, b);
}

/// Switching a toolset takes it out wherever it stands, leaves the others in their order,
/// and puts it last if it is switched on.
pub proof fn law_switching_keeps_the_order(names: Seq<Seq<char>>, name: Seq<char>)
    ensures
        toggled(names, name, false) == names.filter(|n: Seq<char>| n != name),
        toggled(names, name, true) == names.filter(|n: Seq<char>| n != name).push(name),
    decreases names.len(),
{
    lemma_without_is_filter(names, name);
}

proof fn lemma_without_is_filter(names: Seq<Seq<char>>, name: Seq<char>)
    ensures
        without(names, name) == names.filter(|n: Seq<char>| n != name),
    decreases names.len(),
{
    reveal(Seq::filter);
    let keep = |n: Seq<char>| n != name;
    if names.len() == 0 {
        assert(without(names, name) =~= names.filter(keep));
    } else {
        lemma_without_is_filter(names.drop_last(), name);
    }
}

/// Each shortcut has an accelerator of its own: setting one gives it back, and changes
/// nothing else.
pub proof fn law_accelerators_are_set_apart(c: ConfigData, accel: Seq<char>)
    ensures
        accel_of(c, ShortcutTarget::Open) == c.shortcut,
        accel_of(c, ShortcutTarget::Screenshot) == c.screenshot_shortcut,
        with_accel(c, ShortcutTarget::Open, accel) == (ConfigData { shortcut: accel, ..c }),
        with_accel(c, ShortcutTarget::Screenshot, accel) == (ConfigData {
            screenshot_shortcut: accel,
            ..c
        }),
{
}

/// A shortcut is shown by its label, or as it is stored if it has none.
pub proof fn law_shortcuts_are_shown(accel: Seq<char>, label: Seq<char>)
    ensures
        shown_accel(accel, Some(label)) == label,
        shown_accel(accel, None) == accel,
{
}

// ---------------------------------------------------------------------------
// Recording
// ---------------------------------------------------------------------------

/// Keys that hold or lock other keys are no shortcuts by themselves: both of each pair of
/// shift, control, meta, alt, super and hyper, caps lock, num lock, and the shift to the
/// third level. All other keys are, Escape among them.
pub proof fn law_modifiers_are_told_apart(key: u32)
    ensures
        is_modifier(key) <==> {
            ||| key == 0xffe1
            ||| key == 0xffe2
            ||| key == 0xffe3
            ||| key == 0xffe4
            ||| key == 0xffe5
            ||| key == 0xffe7
            ||| key == 0xffe8
            ||| key == 0xffe9
            ||| key == 0xffea
            ||| key == 0xffeb
            ||| key == 0xffec
            ||| key == 0xffed
            ||| key == 0xffee
            ||| key == 0xfe03
            ||| key == 0xff7f
        },
        !is_modifier(0xff1b),
{
}

/// While nothing is recorded a key goes its way. While a shortcut is, Escape gives it up,
/// a key that makes a valid combination is recorded for it, and any other is waited out.
pub proof fn law_keys_are_recorded(target: ShortcutTarget, key: u32, valid: bool)
    ensures
        key_action(None, key, valid) == KeyAction::Proceed,
        key_action(Some(target), 0xff1b, valid) == KeyAction::Cancel(target),
        key != 0xff1b && valid && !is_modifier(key) ==> key_action(Some(target), key, valid)
            == KeyAction::Record(target),
        key != 0xff1b && (!valid || is_modifier(key)) ==> key_action(Some(target), key, valid)
            == KeyAction::Wait,
{
}

/// A recording is over once it is given up or done, and goes on otherwise.
pub proof fn law_recording_ends(capturing: Option<ShortcutTarget>, target: ShortcutTarget)
    ensures
        capturing_after(capturing, KeyAction::Cancel(target)) is None,
        capturing_after(capturing, KeyAction::Record(target)) is None,
        capturing_after(capturing, KeyAction::Wait) == capturing,
        capturing_after(capturing, KeyAction::Proceed) == capturing,
{
}

/// To record a shortcut gives up the recording of the other one, if there is any.
pub proof fn law_one_shortcut_is_recorded_at_a_time(a: ShortcutTarget, b: ShortcutTarget)
    ensures
        given_up(None, a) is None,
        given_up(Some(a), a) is None,
        a != b ==> given_up(Some(a), b) == Some(a),
{
}

// ---------------------------------------------------------------------------
// Choosing a model
// ---------------------------------------------------------------------------

/// The choices are the listed models as they are listed, behind the configured one if that
/// is not among them; the position of the configured one is the first at which it stands.
pub proof fn law_listed_models_are_the_choices(
    models: Seq<Seq<char>>,
    current: Seq<char>,
    n: int,
)
    requires
        0 <= n <= models.len(),
        n < models.len() ==> models[n] == current,
        forall|i: int| 0 <= i < n ==> #[trigger] models[i] != current,
    ensures
        n < models.len() ==> choices(models, current) == models && position_from(
            choices(models, current),
            current,
            0,
        ) == Some(n),
        (n == models.len() && current.len() > 0) ==> choices(models, current) == seq![current]
            + models && position_from(choices(models, current), current, 0) == Some(0int),
        (n == models.len() && current.len() == 0) ==> choices(models, current) == models
            && position_from(choices(models, current), current, 0) is None,
        first_choices(current) == if current.len() == 0 {
            Seq::<Seq<char>>::empty()
        } else {
            seq![current]
        },
{
    if n < models.len() {
        assert(models.contains(current));
    }
    lemma_position(models, current, 0, n);
    if n == models.len() && current.len() > 0 {
        let all = seq![current] + models;
        assert(all[0] == current);
        lemma_position(all, current, 0, 0);
    }
}

proof fn lemma_position(names: Seq<Seq<char>>, name: Seq<char>, from: int, n: int)
    requires
        0 <= from <= n <= names.len(),
        n < names.len() ==> names[n] == name,
        forall|i: int| from <= i < n ==> #[trigger] names[i] != name,
    ensures
        position_from(names, name, from) == if n < names.len() {
            Some(n)
        } else {
            None::<int>
        },
    decreases names.len() - from,
{
    if from < n {
        assert(names[from] != name);
        lemma_position(names, name, from + 1, n);
    }
}

// ---------------------------------------------------------------------------
// Keybindings
// ---------------------------------------------------------------------------

/// The keybindings run the application with the flags that ask for the entry, and for a
/// screenshot in the second one, each under a path and a name of its own. They are bound
/// to their accelerators while the shortcuts are enabled, and to nothing else.
pub proof fn law_keybindings_open_the_entry(enabled: bool, accel: Seq<char>, exe: Seq<char>)
    ensures
        ({
            let open = open_relay(enabled, accel, Some(exe));
            let shot = screenshot_relay(enabled, accel, Some(exe));
            let base = "/org/gnome/settings-daemon/plugins/media-keys/custom-keybindings/"@;
            &&& open.command == exe + " --spotlight"@
            &&& shot.command == exe + " --spotlight --screenshot"@
            &&& open.path == base + "elementary-intelligence/"@
            &&& shot.path == base + "elementary-intelligence-screenshot/"@
            &&& open.name == "Elementary Intelligence"@
            &&& shot.name == "Elementary Intelligence (Screenshot)"@
            &&& open.binding == if enabled {
                accel
            } else {
                Seq::<char>::empty()
            }
            &&& shot.binding == open.binding
            &&& open_relay(enabled, accel, None).command
                == "elementary-intelligence --spotlight"@
            &&& screenshot_relay(enabled, accel, None).command
                == "elementary-intelligence --spotlight --screenshot"@
        }),
{
    reveal_strlit(" ");
    reveal_strlit("--spotlight");
    reveal_strlit(" --spotlight");
    reveal_strlit("--spotlight --screenshot");
    reveal_strlit(" --spotlight --screenshot");
    assert(" "@ + "--spotlight"@ =~= " --spotlight"@);
    assert(" "@ + "--spotlight --screenshot"@ =~= " --spotlight --screenshot"@);
    assert(exe + " "@ + "--spotlight"@ =~= exe + " --spotlight"@);
    assert(exe + " "@ + "--spotlight --screenshot"@ =~= exe + " --spotlight --screenshot"@);
    lemma_plain_commands();
    lemma_relay_paths();
}

proof fn lemma_plain_commands()
    ensures
        "elementary-intelligence"@ + " "@ + "--spotlight"@
            == "elementary-intelligence --spotlight"@,
        "elementary-intelligence"@ + " "@ + "--spotlight --screenshot"@
            == "elementary-intelligence --spotlight --screenshot"@,
{
    reveal_strlit(" ");
    reveal_strlit("--spotlight");
    reveal_strlit("--spotlight --screenshot");
    reveal_strlit("elementary-intelligence");
    reveal_strlit("elementary-intelligence --spotlight");
    reveal_strlit("elementary-intelligence --spotlight --screenshot");
    assert("elementary-intelligence"@ + " "@ + "--spotlight"@
        =~= "elementary-intelligence --spotlight"@);
    assert("elementary-intelligence"@ + " "@ + "--spotlight --screenshot"@
        =~= "elementary-intelligence --spotlight --screenshot"@);
}

proof fn lemma_relay_paths()
    ensures
        RELAY_PATH@ == "/org/gnome/settings-daemon/plugins/media-keys/custom-keybindings/"@
            + "elementary-intelligence/"@,
        SCREENSHOT_RELAY_PATH@
            == "/org/gnome/settings-daemon/plugins/media-keys/custom-keybindings/"@
            + "elementary-intelligence-screenshot/"@,
        RELAY_PATH@ != SCREENSHOT_RELAY_PATH@,
{
    reveal_strlit("/org/gnome/settings-daemon/plugins/media-keys/custom-keybindings/");
    reveal_strlit("elementary-intelligence/");
    reveal_strlit("elementary-intelligence-screenshot/");
    reveal_strlit(
        "/org/gnome/settings-daemon/plugins/media-keys/custom-keybindings/elementary-intelligence/",
    );
    reveal_strlit(
        "/org/gnome/settings-daemon/plugins/media-keys/custom-keybindings/elementary-intelligence-screenshot/",
    );
    assert(RELAY_PATH@ =~= "/org/gnome/settings-daemon/plugins/media-keys/custom-keybindings/"@
        + "elementary-intelligence/"@);
    assert(SCREENSHOT_RELAY_PATH@
        =~= "/org/gnome/settings-daemon/plugins/media-keys/custom-keybindings/"@
        + "elementary-intelligence-screenshot/"@);
    assert(RELAY_PATH@.len() != SCREENSHOT_RELAY_PATH@.len());
}

/// Registering adds the paths that are not there yet, in this order, and no others.
pub proof fn law_missing_paths_are_added(paths: Seq<Seq<char>>)
    ensures
        ({
            let open = paths.contains(RELAY_PATH@);
            let shot = paths.contains(SCREENSHOT_RELAY_PATH@);
            &&& (open && shot) ==> with_relays(paths) == paths
            &&& (open && !shot) ==> with_relays(paths) == paths + seq![SCREENSHOT_RELAY_PATH@]
            &&& (!open && shot) ==> with_relays(paths) == paths + seq![RELAY_PATH@]
            &&& (!open && !shot) ==> with_relays(paths) == paths + seq![
                RELAY_PATH@,
                SCREENSHOT_RELAY_PATH@,
            ]
        }),
{
    lemma_relay_paths();
    let one = with_path(paths, RELAY_PATH@);
    let shot = SCREENSHOT_RELAY_PATH@;
    assert(one.contains(shot) == paths.contains(shot)) by {
        if paths.contains(shot) {
            let i = choose|i: int| 0 <= i < paths.len() && paths[i] == shot;
            assert(one[i] == shot);
        }
        if one.contains(shot) {
            let i = choose|i: int| 0 <= i < one.len() && one[i] == shot;
            assert(i < paths.len());
            assert(paths[i] == shot);
        }
    }
    assert(paths.push(shot) =~= paths + seq![shot]);
    assert(paths.push(RELAY_PATH@) =~= paths + seq![RELAY_PATH@]);
    assert(paths.push(RELAY_PATH@).push(shot) =~= paths + seq![RELAY_PATH@, shot]);
}

// ---------------------------------------------------------------------------
// Launching
// ---------------------------------------------------------------------------

/// A launch with the flag for the entry toggles it, with a screenshot if that is asked for
/// too. A launch without it opens the settings if the application runs already, and does
/// nothing else, whatever other flags it has.
pub proof fn law_launch_is_by_its_flags(args: Seq<Seq<char>>, remote: bool, i: int, j: int)
    ensures
        0 <= i < args.len() && args[i] == "--spotlight"@ && 0 <= j < args.len() && args[j]
            == "--screenshot"@ ==> launch_of(args, remote) == (Launch::Toggle { screenshot: true }),
        0 <= i < args.len() && args[i] == "--spotlight"@ && (forall|k: int|
            0 <= k < args.len() ==> #[trigger] args[k] != "--screenshot"@) ==> launch_of(
            args,
            remote,
        ) == (Launch::Toggle { screenshot: false }),
        (forall|k: int| 0 <= k < args.len() ==> #[trigger] args[k] != "--spotlight"@)
            ==> launch_of(args, remote) == if remote {
            Launch::Settings
        } else {
            Launch::Nothing
        },
{
}

/// The entry opens with a screenshot exactly if one is asked for.
pub proof fn law_entry_toggles(enabled: bool, open: bool, pending: bool, screenshot: bool)
    ensures
        toggled_to(true, false, false, screenshot) == (Toggled::Present { capture: screenshot }),
        toggled_to(true, true, pending, screenshot) == Toggled::Close,
        toggled_to(true, false, true, screenshot) == Toggled::Ignore,
        toggled_to(false, open, pending, screenshot) == Toggled::Ignore,
{
}

/// Only the one scheme that asks for dark colors does.
pub proof fn law_dark_colors_are_asked_for(scheme: Seq<char>)
    ensures
        is_dark("prefer-dark"@),
        scheme != "prefer-dark"@ ==> !is_dark(scheme),
{
}

/// The corner radius is filled in wherever the stylesheet has the mark for it; all else
/// stays.
pub proof fn law_radius_is_filled_in(s: Seq<char>, n: int)
    ensures
        !has_part(s, "{corner_radius}"@) ==> filled_sheet(s) == s,
        has_at(s, "{corner_radius}"@, n) && (forall|m: int|
            0 <= m < n ==> !#[trigger] has_at(s, "{corner_radius}"@, m)) ==> filled_sheet(s)
            == s.take(n) + seq!['8'] + filled_sheet(s.skip(n + 15)),
{
    reveal_strlit("{corner_radius}");
    let mark = "{corner_radius}"@;
    assert(mark.len() == 15);
    law_first_occurrence_is_found(s, mark);
    assert(decimal(8) =~= seq!['8']);
    if has_at(s, mark, n) && (forall|m: int| 0 <= m < n ==> !#[trigger] has_at(s, mark, m)) {
        assert(has_part(s, mark));
        let k = find(s, mark)->0;
        assert(has_at(s, mark, k));
        assert(k == n);
    }
}

// ---------------------------------------------------------------------------
// Screenshots
// ---------------------------------------------------------------------------

/// A picture is scaled exactly if one of its edges is longer than the greatest length.
/// Its longer edge gets that length, the other one as many pixels as its share of it
/// has whole ones, and at least one.
pub proof fn law_longer_edge_is_capped(width: int, height: int)
    requires
        width >= 1,
        height >= 1,
    ensures
        scaled_size(width, height) is None <==> width <= 1568 && height <= 1568,
        scaled_size(width, height) matches Some((w, h)) ==> {
            &&& width >= height ==> w == 1568 && (h * width <= height * 1568 || h == 1) && height
                * 1568 < (h + 1) * width
            &&& width < height ==> h == 1568 && (w * height <= width * 1568 || w == 1) && width
                * 1568 < (w + 1) * height
            &&& w >= 1
            &&& h >= 1
        },
{
    if width > 1568 || height > 1568 {
        let (edge, longer) = if width >= height {
            (height, width)
        } else {
            (width, height)
        };
        let p = edge * 1568;
        let n = p / longer;
        vstd::arithmetic::div_mod::lemma_fundamental_div_mod(p, longer);
        vstd::arithmetic::div_mod::lemma_mod_pos_bound(p, longer);
        vstd::arithmetic::div_mod::lemma_div_pos_is_pos(p, longer);
        assert(longer * n == n * longer) by (nonlinear_arith);
        assert((n + 1) * longer == n * longer + longer) by (nonlinear_arith);
        assert(2 * longer == longer + longer);
        assert(scaled(edge, longer) == if n < 1 {
            1
        } else {
            n
        });
        if n < 1 {
            assert(n == 0);
            assert(0 * longer == 0);
        }
    }
}

/// A picture that was taken is attached, from the file that was written, and then exactly
/// the files that may be there are removed: the one that was asked for, and the one that
/// was written if it is another. A failure is told.
pub proof fn law_screenshot_files_are_removed(asked: Seq<char>, used: Seq<char>)
    ensures
        answered_with(asked, true, asked) == AnsweredData::Encode(asked, seq![asked]),
        used != asked ==> answered_with(asked, true, used) == AnsweredData::Encode(
            used,
            seq![used, asked],
        ),
        answered_with(asked, false, used) == AnsweredData::Fail(
            seq![asked],
            "compositor reported failure"@,
        ),
{
}

/// A picture is attached as what it is, and its file goes by the process.
pub proof fn law_pictures_are_named(base64: Seq<char>, pid: nat)
    ensures
        picture_url(base64) == "data:image/png;base64,"@ + base64,
        temp_text(pid) == "elementary-intelligence-"@ + (decimal(pid) + ".png"@),
{
    assert(temp_text(pid) =~= "elementary-intelligence-"@ + (decimal(pid) + ".png"@));
}

/// An answer without models changes nothing; any other brings the choices, and where the
/// configured model stands among them.
pub proof fn law_answer_brings_the_choices(listed: Seq<Seq<char>>, current: Seq<char>)
    ensures
        merged(Seq::<Seq<char>>::empty(), current) is None,
        listed.len() > 0 ==> merged(listed, current) == Some(
            (choices(listed, current), position_from(choices(listed, current), current, 0)),
        ),
{
}

/// The list of keybindings is written exactly if it changes.
pub proof fn law_paths_are_written_if_they_change(paths: Seq<Seq<char>>)
    ensures
        new_paths(paths) is None <==> paths.contains(RELAY_PATH@) && paths.contains(
            SCREENSHOT_RELAY_PATH@,
        ),
        new_paths(paths) matches Some(p) ==> p == with_relays(paths),
{
    law_missing_paths_are_added(paths);
    let open = paths.contains(RELAY_PATH@);
    let shot = paths.contains(SCREENSHOT_RELAY_PATH@);
    if !open || !shot {
        assert(with_relays(paths).len() > paths.len());
    }
}

} // verus!
