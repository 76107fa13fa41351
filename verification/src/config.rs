//! The settings, and what they are where the file does not say.

use crate::text::{copy_strings, has_string, opt_view, same_str, trim, trim_str, views};
use vstd::prelude::*;

verus! {

/// Application id, also used as the config directory and icon name.
pub const APP_ID: &'static str = "com.github.breitburg.beckon";

/// Name of the settings file in the config directory of the application.
pub const FILE_NAME: &'static str = "config.toml";

/// Permissions of the settings file: it holds the API key, so it is private to
/// the user.
pub const FILE_MODE: u32 = 0o600;

pub fn default_true() -> (r: bool)
    ensures
        r,
{
    true
}

pub fn default_shortcut() -> (r: String)
    ensures
        r@ == "<Control><Shift>space"@,
{
    "<Control><Shift>space".to_owned()
}

pub fn default_screenshot_shortcut() -> (r: String)
    ensures
        r@ == "<Control><Shift>s"@,
{
    "<Control><Shift>s".to_owned()
}

pub fn default_api_base_url() -> (r: String)
    ensures
        r@ == "https://api.openai.com/v1"@,
{
    "https://api.openai.com/v1".to_owned()
}

pub fn default_model() -> (r: String)
    ensures
        r@ == "gpt-4o-mini"@,
{
    "gpt-4o-mini".to_owned()
}

/// What the model is told first, unless the user says otherwise.
pub open spec fn system_prompt_text() -> Seq<char> {
    "You're a helpful assistant called El. You aim to respond in 1-2 sentences, straight to the point."@
}

pub fn default_system_prompt() -> (r: String)
    ensures
        r@ == system_prompt_text(),
{
    "You're a helpful assistant called El. You aim to respond in 1-2 sentences, straight to the point.".to_owned()
}

/// The settings.
pub struct Config {
    /// Whether the global shortcuts are active.
    pub enabled: bool,
    /// GTK accelerator string, e.g. `<Control><Shift>space`.
    pub shortcut: String,
    /// Accelerator that opens the entry with a screenshot attached.
    pub screenshot_shortcut: String,
    /// Whether to launch the background service on login.
    pub start_on_login: bool,
    /// OpenAI-compatible API root, e.g. `https://api.openai.com/v1`.
    pub api_base_url: String,
    pub api_key: String,
    pub model: String,
    /// System prompt prepended to every conversation. Empty = none.
    pub system_prompt: String,
    /// Names of the toolsets the model may use. Empty disables tool calling
    /// entirely.
    pub enabled_tools: Vec<String>,
}

pub struct ConfigData {
    pub enabled: bool,
    pub shortcut: Seq<char>,
    pub screenshot_shortcut: Seq<char>,
    pub start_on_login: bool,
    pub api_base_url: Seq<char>,
    pub api_key: Seq<char>,
    pub model: Seq<char>,
    pub system_prompt: Seq<char>,
    pub enabled_tools: Seq<Seq<char>>,
}

impl View for Config {
    type V = ConfigData;

    open spec fn view(&self) -> ConfigData {
        ConfigData {
            enabled: self.enabled,
            shortcut: self.shortcut@,
            screenshot_shortcut: self.screenshot_shortcut@,
            start_on_login: self.start_on_login,
            api_base_url: self.api_base_url@,
            api_key: self.api_key@,
            model: self.model@,
            system_prompt: self.system_prompt@,
            enabled_tools: views(self.enabled_tools@),
        }
    }
}

/// The settings of a first run.
pub open spec fn default_config() -> ConfigData {
    ConfigData {
        enabled: true,
        shortcut: "<Control><Shift>space"@,
        screenshot_shortcut: "<Control><Shift>s"@,
        start_on_login: true,
        api_base_url: "https://api.openai.com/v1"@,
        api_key: seq![],
        model: "gpt-4o-mini"@,
        system_prompt: system_prompt_text(),
        enabled_tools: seq![],
    }
}

impl Default for Config {
    fn default() -> (r: Self)
        ensures
            r@ == default_config(),
    {
        let r = Config {
            enabled: true,
            shortcut: default_shortcut(),
            screenshot_shortcut: default_screenshot_shortcut(),
            start_on_login: true,
            api_base_url: default_api_base_url(),
            api_key: String::new(),
            model: default_model(),
            system_prompt: default_system_prompt(),
            enabled_tools: Vec::new(),
        };
        assert(r@.enabled_tools =~= seq![]);
        r
    }
}

// ---------------------------------------------------------------------------
// Loading
// ---------------------------------------------------------------------------

/// What a settings file says. A setting may be missing, as in a file that an
/// older version wrote.
pub struct PartialConfig {
    pub enabled: Option<bool>,
    pub shortcut: Option<String>,
    pub screenshot_shortcut: Option<String>,
    pub start_on_login: Option<bool>,
    pub api_base_url: Option<String>,
    pub api_key: Option<String>,
    pub model: Option<String>,
    pub system_prompt: Option<String>,
    pub enabled_tools: Option<Vec<String>>,
}

/// The text, or the default.
pub open spec fn or_text(s: Option<String>, d: Seq<char>) -> Seq<char> {
    match s {
        Some(t) => t@,
        None => d,
    }
}

/// The settings that a file amounts to: each missing one has its default.
pub open spec fn filled(p: PartialConfig) -> ConfigData {
    let d = default_config();
    ConfigData {
        enabled: match p.enabled {
            Some(b) => b,
            None => d.enabled,
        },
        shortcut: or_text(p.shortcut, d.shortcut),
        screenshot_shortcut: or_text(p.screenshot_shortcut, d.screenshot_shortcut),
        start_on_login: match p.start_on_login {
            Some(b) => b,
            None => d.start_on_login,
        },
        api_base_url: or_text(p.api_base_url, d.api_base_url),
        api_key: or_text(p.api_key, d.api_key),
        model: or_text(p.model, d.model),
        system_prompt: or_text(p.system_prompt, d.system_prompt),
        enabled_tools: match p.enabled_tools {
            Some(v) => views(v@),
            None => d.enabled_tools,
        },
    }
}

/// The settings file as it was found.
pub enum ConfigFile {
    /// It cannot be read; on a first run there is none.
    Unreadable,
    /// It can be read, but not understood.
    Malformed,
    Parsed(PartialConfig),
}

/// The settings that a file gives.
pub open spec fn loaded(file: ConfigFile) -> ConfigData {
    match file {
        ConfigFile::Parsed(p) => filled(p),
        _ => default_config(),
    }
}

impl PartialConfig {
    /// Fill in the missing settings.
    pub fn fill(self) -> (r: Config)
        ensures
            r@ == filled(self),
    {
        let d = Config::default();
        Config {
            enabled: match self.enabled {
                Some(b) => b,
                None => default_true(),
            },
            shortcut: match self.shortcut {
                Some(s) => s,
                None => d.shortcut,
            },
            screenshot_shortcut: match self.screenshot_shortcut {
                Some(s) => s,
                None => d.screenshot_shortcut,
            },
            start_on_login: match self.start_on_login {
                Some(b) => b,
                None => default_true(),
            },
            api_base_url: match self.api_base_url {
                Some(s) => s,
                None => d.api_base_url,
            },
            api_key: match self.api_key {
                Some(s) => s,
                None => d.api_key,
            },
            model: match self.model {
                Some(s) => s,
                None => d.model,
            },
            system_prompt: match self.system_prompt {
                Some(s) => s,
                None => d.system_prompt,
            },
            enabled_tools: match self.enabled_tools {
                Some(v) => v,
                None => d.enabled_tools,
            },
        }
    }
}

/// What a file says that states all settings.
pub open spec fn states_all(p: PartialConfig, c: ConfigData) -> bool {
    &&& p.enabled == Some(c.enabled)
    &&& opt_view(p.shortcut) == Some(c.shortcut)
    &&& opt_view(p.screenshot_shortcut) == Some(c.screenshot_shortcut)
    &&& p.start_on_login == Some(c.start_on_login)
    &&& opt_view(p.api_base_url) == Some(c.api_base_url)
    &&& opt_view(p.api_key) == Some(c.api_key)
    &&& opt_view(p.model) == Some(c.model)
    &&& opt_view(p.system_prompt) == Some(c.system_prompt)
    &&& p.enabled_tools matches Some(v) && views(v@) == c.enabled_tools
}

/// Whether the settings are to be written out once a file has been looked at.
pub open spec fn is_first_run(file: ConfigFile) -> bool {
    file is Unreadable
}

/// What loading comes to: the settings, and whether to write them out.
pub struct Loaded {
    pub config: Config,
    /// Whether the file is to be written, so that it is there to edit.
    pub save: bool,
}

impl Config {
    /// The settings from the file, falling back to defaults on any error. On a
    /// first run the defaults are to be written out, so that the file is there
    /// to edit; a file that is there is left alone.
    pub fn load(file: ConfigFile) -> (r: Loaded)
        ensures
            r.config@ == loaded(file),
            r.save == (file is Unreadable),
            r.save == is_first_run(file),
    {
        match file {
            ConfigFile::Unreadable => Loaded { config: Config::default(), save: true },
            ConfigFile::Malformed => Loaded { config: Config::default(), save: false },
            ConfigFile::Parsed(p) => Loaded { config: p.fill(), save: false },
        }
    }

    /// What the file says when these settings are written.
    pub fn stated(&self) -> (r: PartialConfig)
        ensures
            states_all(r, self@),
    {
        PartialConfig {
            enabled: Some(self.enabled),
            shortcut: Some(self.shortcut.clone()),
            screenshot_shortcut: Some(self.screenshot_shortcut.clone()),
            start_on_login: Some(self.start_on_login),
            api_base_url: Some(self.api_base_url.clone()),
            api_key: Some(self.api_key.clone()),
            model: Some(self.model.clone()),
            system_prompt: Some(self.system_prompt.clone()),
            enabled_tools: Some(copy_strings(&self.enabled_tools)),
        }
    }
}

/// Settings that are written and loaded again are the same.
pub proof fn law_saved_settings_are_loaded(p: PartialConfig, c: ConfigData)
    requires
        states_all(p, c),
    ensures
        loaded(ConfigFile::Parsed(p)) == c,
{
}

/// A file that says nothing gives the settings of a first run.
pub proof fn law_empty_file_is_default(p: PartialConfig)
    requires
        p.enabled is None,
        p.shortcut is None,
        p.screenshot_shortcut is None,
        p.start_on_login is None,
        p.api_base_url is None,
        p.api_key is None,
        p.model is None,
        p.system_prompt is None,
        p.enabled_tools is None,
    ensures
        loaded(ConfigFile::Parsed(p)) == default_config(),
        loaded(ConfigFile::Parsed(p)) == loaded(ConfigFile::Unreadable),
{
}

// ---------------------------------------------------------------------------
// Changing
// ---------------------------------------------------------------------------

/// The list without the name, and with it at the end if it is switched on.
pub open spec fn toggled(
    names: Seq<Seq<char>>,
    name: Seq<char>,
    active: bool,
) -> Seq<Seq<char>> {
    let rest = without(names, name);
    if active {
        rest.push(name)
    } else {
        rest
    }
}

/// The list without the name.
pub open spec fn without(names: Seq<Seq<char>>, name: Seq<char>) -> Seq<Seq<char>>
    decreases names.len(),
{
    if names.len() == 0 {
        seq![]
    } else if names.last() == name {
        without(names.drop_last(), name)
    } else {
        without(names.drop_last(), name).push(names.last())
    }
}

/// The settings with the API URL as typed.
pub open spec fn with_base_url(c: ConfigData, text: Seq<char>) -> ConfigData {
    ConfigData { api_base_url: trim(text), ..c }
}

/// The settings with the API key as typed.
pub open spec fn with_key(c: ConfigData, text: Seq<char>) -> ConfigData {
    ConfigData { api_key: trim(text), ..c }
}

impl Config {
    /// Take over the API URL as typed.
    pub fn set_api_base_url(&mut self, text: &str)
        ensures
            final(self)@ == (ConfigData { api_base_url: trim(text@), ..old(self)@ }),
            final(self)@ == with_base_url(old(self)@, text@),
    {
        self.api_base_url = trim_str(text);
    }

    /// Take over the API key as typed.
    pub fn set_api_key(&mut self, text: &str)
        ensures
            final(self)@ == (ConfigData { api_key: trim(text@), ..old(self)@ }),
            final(self)@ == with_key(old(self)@, text@),
    {
        self.api_key = trim_str(text);
    }

    /// Switch a toolset on or off.
    pub fn toggle_tool(&mut self, name: &str, active: bool)
        ensures
            final(self)@ == (ConfigData {
                enabled_tools: toggled(old(self)@.enabled_tools, name@, active),
                ..old(self)@
            }),
    {
        let mut kept: Vec<String> = Vec::new();
        let ghost all = views(self.enabled_tools@);
        let mut i: usize = 0;
        proof {
            assert(all.take(0) =~= Seq::<Seq<char>>::empty());
            assert(views(kept@) =~= without(all.take(0), name@));
        }
        while i < self.enabled_tools.len()
            invariant
                i <= self.enabled_tools@.len(),
                *self == *old(self),
                all == views(self.enabled_tools@),
                views(kept@) == without(all.take(i as int), name@),
            decreases self.enabled_tools@.len() - i,
        {
            let ghost before = views(kept@);
            proof {
                assert(all.take(i + 1).drop_last() =~= all.take(i as int));
                assert(all.take(i + 1).last() == self.enabled_tools@[i as int]@);
            }
            if !same_str(self.enabled_tools[i].as_str(), name) {
                kept.push(self.enabled_tools[i].clone());
                assert(views(kept@) =~= before.push(self.enabled_tools@[i as int]@));
            }
            i = i + 1;
        }
        assert(all.take(i as int) =~= all);
        if active {
            let ghost before = views(kept@);
            kept.push(name.to_owned());
            assert(views(kept@) =~= before.push(name@));
        }
        self.enabled_tools = kept;
    }

    /// Whether a toolset is switched on.
    pub fn has_tool(&self, name: &str) -> (r: bool)
        ensures
            r == self@.enabled_tools.contains(name@),
    {
        has_string(&self.enabled_tools, name)
    }
}

/// What `without` keeps is all names but the one.
proof fn lemma_without(names: Seq<Seq<char>>, name: Seq<char>)
    ensures
        !without(names, name).contains(name),
        forall|n: Seq<char>|
            n != name ==> (without(names, name).contains(n) <==> #[trigger] names.contains(n)),
    decreases names.len(),
{
    if names.len() > 0 {
        let before = names.drop_last();
        lemma_without(before, name);
        let some = without(before, name);
        let kept = without(names, name);
        if names.last() != name {
            assert forall|n: Seq<char>| kept.contains(n) <==> some.contains(n) || n
                == names.last() by {
                if some.contains(n) {
                    let i = choose|i: int| 0 <= i < some.len() && some[i] == n;
                    assert(kept[i] == n);
                }
                if n == names.last() {
                    assert(kept[some.len() as int] == n);
                }
            }
        }
        assert forall|n: Seq<char>| names.contains(n) <==> before.contains(n) || n
            == names.last() by {
            if names.contains(n) && n != names.last() {
                let i = choose|i: int| 0 <= i < names.len() && names[i] == n;
                assert(before[i] == n);
            }
            if before.contains(n) {
                let i = choose|i: int| 0 <= i < before.len() && before[i] == n;
                assert(names[i] == n);
            }
            if n == names.last() {
                assert(names[names.len() - 1] == n);
            }
        }
        assert forall|n: Seq<char>| n != name implies (kept.contains(n)
            <==> #[trigger] names.contains(n)) by {
            assert(some.contains(n) <==> before.contains(n));
        }
    }
}

/// A toolset is switched on exactly if it was last switched on, and no other
/// toolset is touched.
pub proof fn law_toggling_sets_one_tool(names: Seq<Seq<char>>, name: Seq<char>, active: bool)
    ensures
        toggled(names, name, active).contains(name) == active,
        forall|n: Seq<char>|
            n != name ==> (toggled(names, name, active).contains(n)
                <==> #[trigger] names.contains(n)),
{
    lemma_without(names, name);
    let rest = without(names, name);
    let out = toggled(names, name, active);
    if active {
        assert(out[rest.len() as int] == name);
        assert forall|n: Seq<char>| n != name implies (out.contains(n)
            <==> #[trigger] names.contains(n)) by {
            if rest.contains(n) {
                let i = choose|i: int| 0 <= i < rest.len() && rest[i] == n;
                assert(out[i] == n);
            }
        }
    }
}

} // verus!
