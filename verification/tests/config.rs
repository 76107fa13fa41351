use beckon::config::{
    default_api_base_url, default_model, default_screenshot_shortcut, default_shortcut,
    default_system_prompt, default_true, Config, ConfigFile, PartialConfig, APP_ID, FILE_MODE,
    FILE_NAME,
};

fn nothing() -> PartialConfig {
    PartialConfig {
        enabled: None,
        shortcut: None,
        screenshot_shortcut: None,
        start_on_login: None,
        api_base_url: None,
        api_key: None,
        model: None,
        system_prompt: None,
        enabled_tools: None,
    }
}

#[test]
fn defaults() {
    assert!(default_true());
    assert_eq!(default_shortcut(), "<Control><Shift>space");
    assert_eq!(default_screenshot_shortcut(), "<Control><Shift>s");
    assert_eq!(default_api_base_url(), "https://api.openai.com/v1");
    assert_eq!(default_model(), "gpt-4o-mini");
    assert_eq!(
        default_system_prompt(),
        "You're a helpful assistant called El. You aim to respond in 1-2 sentences, straight to the point."
    );
    let c = Config::default();
    assert!(c.enabled && c.start_on_login);
    assert_eq!(c.api_key, "");
    assert!(c.enabled_tools.is_empty());
    assert_eq!((APP_ID, FILE_NAME, FILE_MODE), ("com.github.breitburg.beckon", "config.toml", 0o600));
}

#[test]
fn a_first_run_writes_the_file() {
    let l = Config::load(ConfigFile::Unreadable);
    assert!(l.save);
    assert_eq!(l.config.model, "gpt-4o-mini");
}

#[test]
fn a_malformed_file_is_left_alone() {
    let l = Config::load(ConfigFile::Malformed);
    assert!(!l.save);
    assert_eq!(l.config.shortcut, "<Control><Shift>space");
}

#[test]
fn missing_settings_have_defaults() {
    let l = Config::load(ConfigFile::Parsed(PartialConfig {
        enabled: Some(false),
        model: Some("m".to_string()),
        ..nothing()
    }));
    assert!(!l.save);
    assert!(!l.config.enabled);
    assert!(l.config.start_on_login);
    assert_eq!(l.config.model, "m");
    assert_eq!(l.config.api_base_url, "https://api.openai.com/v1");
}

#[test]
fn saved_settings_come_back() {
    let mut c = Config::default();
    c.enabled = false;
    c.set_api_key("  sk-...\n");
    c.set_api_base_url(" http://localhost ");
    c.toggle_tool("calendar", true);
    let again = Config::load(ConfigFile::Parsed(c.stated())).config;
    assert!(!again.enabled);
    assert_eq!(again.api_key, "sk-...");
    assert_eq!(again.api_base_url, "http://localhost");
    assert_eq!(again.enabled_tools, vec!["calendar".to_string()]);
    assert_eq!(again.system_prompt, c.system_prompt);
}

#[test]
fn tools_are_toggled() {
    let mut c = Config::default();
    c.enabled_tools = vec!["a".to_string(), "b".to_string(), "a".to_string()];
    c.toggle_tool("a", true);
    assert_eq!(c.enabled_tools, vec!["b".to_string(), "a".to_string()]);
    assert!(c.has_tool("a"));
    c.toggle_tool("b", false);
    assert_eq!(c.enabled_tools, vec!["a".to_string()]);
    assert!(!c.has_tool("b"));
}
