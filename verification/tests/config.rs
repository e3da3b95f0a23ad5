use cryolock::config::{
    default_background_color, default_clock_format, default_dpms_timeout, default_font_family,
    default_font_size, default_ring_idle_color, default_ring_typing_color,
    default_ring_wrong_color, default_show_clock, default_text_color, fallback_config_path,
    parse_hex_color, rgb_to_argb8888, Config, LoadError, LoadStep, Settings, DEFAULT_CONFIG,
};
use cryolock::text::{chars_of, is_control, is_printable, is_white_space, trim};

fn no_settings() -> Settings {
    Settings {
        dpms_timeout_seconds: None,
        background_color: None,
        text_color: None,
        ring_idle_color: None,
        ring_typing_color: None,
        ring_wrong_color: None,
        font_family: None,
        font_size: None,
        show_clock: None,
        clock_format: None,
    }
}

fn string_of(table: &toml::Table, key: &str) -> Option<String> {
    table.get(key).map(|v| v.as_str().expect("a string").to_string())
}

fn settings_of(table: &toml::Table) -> Settings {
    Settings {
        dpms_timeout_seconds: table
            .get("dpms_timeout_seconds")
            .map(|v| u64::try_from(v.as_integer().expect("an integer")).expect("a u64")),
        background_color: string_of(table, "background_color"),
        text_color: string_of(table, "text_color"),
        ring_idle_color: string_of(table, "ring_idle_color"),
        ring_typing_color: string_of(table, "ring_typing_color"),
        ring_wrong_color: string_of(table, "ring_wrong_color"),
        font_family: string_of(table, "font_family"),
        font_size: table
            .get("font_size")
            .map(|v| u32::try_from(v.as_integer().expect("an integer")).expect("a u32")),
        show_clock: table.get("show_clock").map(|v| v.as_bool().expect("a bool")),
        clock_format: string_of(table, "clock_format"),
    }
}

fn fields(c: &Config) -> (u64, [String; 7], u32, bool) {
    (
        c.dpms_timeout_seconds,
        [
            c.background_color.clone(),
            c.text_color.clone(),
            c.ring_idle_color.clone(),
            c.ring_typing_color.clone(),
            c.ring_wrong_color.clone(),
            c.font_family.clone(),
            c.clock_format.clone(),
        ],
        c.font_size,
        c.show_clock,
    )
}

#[test]
fn embedded_default_parses() {
    let table: toml::Table =
        toml::from_str(DEFAULT_CONFIG).expect("Embedded default_config.toml must parse");
    let config = Config::from_settings(settings_of(&table));
    assert_eq!(config.dpms_timeout_seconds, 120);
    assert_eq!(config.background_color, "#1a1b26");
    assert!(config.show_clock);
}

#[test]
fn embedded_default_spells_out_the_defaults() {
    let table: toml::Table = toml::from_str(DEFAULT_CONFIG).expect("the default file parses");
    assert_eq!(table.len(), 10);
    let spelled = Config::from_settings(settings_of(&table));
    let empty = Config::from_settings(no_settings());
    assert_eq!(fields(&spelled), fields(&empty));
}

#[test]
fn parse_hex_colors() {
    assert_eq!(parse_hex_color("#1a1b26"), Some((0x1a, 0x1b, 0x26)));
    assert_eq!(parse_hex_color("c0caf5"), Some((0xc0, 0xca, 0xf5)));
    assert_eq!(parse_hex_color("#fff"), None); // Too short
    assert_eq!(parse_hex_color("zzzzzz"), None); // Invalid hex
}

#[test]
fn argb8888_byte_order() {
    let px = rgb_to_argb8888(0x1a, 0x1b, 0x26);
    // ARGB8888 little-endian: [B, G, R, A]
    assert_eq!(px, [0x26, 0x1b, 0x1a, 0xFF]);
}

#[test]
fn color_edge_cases() {
    assert_eq!(parse_hex_color(""), None);
    assert_eq!(parse_hex_color("#"), None);
    assert_eq!(parse_hex_color("  #1A1B26\t\n"), Some((0x1a, 0x1b, 0x26)));
    assert_eq!(parse_hex_color("\u{3000}1a1b26\u{a0}"), Some((0x1a, 0x1b, 0x26)));
    assert_eq!(parse_hex_color("##1a1b26"), None);
    assert_eq!(parse_hex_color("##1a1b2"), None);
    assert_eq!(parse_hex_color("#7AaB9f"), Some((0x7a, 0xab, 0x9f)));
    assert_eq!(parse_hex_color("# 1a1b26"), None);
    assert_eq!(parse_hex_color("#1a1b2600"), None);
    assert_eq!(parse_hex_color("+a+b+c"), None);
    assert_eq!(parse_hex_color("1a1b+6"), None);
    assert_eq!(parse_hex_color("-1-a-F"), None);
    assert_eq!(parse_hex_color("++++++"), None);
    // Six bytes, but a character lies across the first two digits.
    assert_eq!(parse_hex_color("a\u{e9}123"), None);
    assert_eq!(parse_hex_color("\u{e9}\u{e9}\u{e9}"), None);
}

#[test]
fn every_color_is_read_back() {
    for n in 0..=255u8 {
        let (r, g, b) = (n, n.wrapping_mul(7), n.wrapping_add(91));
        assert_eq!(parse_hex_color(&format!("#{:02x}{:02x}{:02x}", r, g, b)), Some((r, g, b)));
        assert_eq!(parse_hex_color(&format!("{:02X}{:02X}{:02X}", r, g, b)), Some((r, g, b)));
    }
}

#[test]
fn defaults() {
    assert_eq!(default_dpms_timeout(), 120);
    assert_eq!(default_background_color(), "#1a1b26");
    assert_eq!(default_text_color(), "#c0caf5");
    assert_eq!(default_ring_idle_color(), "#565f89");
    assert_eq!(default_ring_typing_color(), "#7aa2f7");
    assert_eq!(default_ring_wrong_color(), "#f7768e");
    assert_eq!(default_font_family(), "monospace");
    assert_eq!(default_font_size(), 64);
    assert!(default_show_clock());
    assert_eq!(default_clock_format(), "%H:%M");
}

#[test]
fn settings_override_defaults() {
    let mut settings = no_settings();
    settings.dpms_timeout_seconds = Some(0);
    settings.text_color = Some("#ffffff".to_string());
    settings.show_clock = Some(false);
    let config = Config::from_settings(settings);
    assert_eq!(config.dpms_timeout_seconds, 0);
    assert_eq!(config.text_color, "#ffffff");
    assert!(!config.show_clock);
    assert_eq!(config.background_color, "#1a1b26");
    assert_eq!(config.font_size, 64);
}

#[test]
fn fallback_path_below_home() {
    let path = |home: Option<&str>| fallback_config_path(home.map(|h| h.to_string()));
    assert_eq!(path(Some("/home/ada")), "/home/ada/.config/cryolock/config.toml");
    assert_eq!(path(Some("/home/ada/")), "/home/ada/.config/cryolock/config.toml");
    assert_eq!(path(Some("")), ".config/cryolock/config.toml");
    assert_eq!(path(None), "/tmp/.config/cryolock/config.toml");
    for home in ["/", "/root", "rel", "rel/"] {
        let joined = std::path::PathBuf::from(home)
            .join(".config")
            .join("cryolock")
            .join("config.toml");
        assert_eq!(path(Some(home)), joined.to_str().unwrap());
    }
}

#[test]
fn loading_creates_what_is_missing() {
    let mut step = LoadStep::first(true);
    assert_eq!(step, LoadStep::CheckDirectory);
    step = step.after(false);
    assert_eq!(step, LoadStep::CreateDirectory);
    step = step.after(true);
    assert_eq!(step, LoadStep::CheckFile);
    step = step.after(false);
    assert_eq!(step, LoadStep::WriteDefault);
    step = step.after(true);
    assert_eq!(step, LoadStep::Read);
    step = step.after(true);
    assert_eq!(step, LoadStep::Parse);
    step = step.after(true);
    assert_eq!(step, LoadStep::Ready);
    assert_eq!(step.after(false), LoadStep::Ready);
}

#[test]
fn loading_keeps_an_existing_file() {
    let step = LoadStep::first(true).after(true).after(true);
    assert_eq!(step, LoadStep::Read);
    assert_eq!(LoadStep::first(false), LoadStep::CheckFile);
}

#[test]
fn loading_failures_are_fatal() {
    assert_eq!(
        LoadStep::CreateDirectory.after(false),
        LoadStep::Failed(LoadError::CreateDirectory)
    );
    assert_eq!(LoadStep::WriteDefault.after(false), LoadStep::Failed(LoadError::WriteDefault));
    assert_eq!(LoadStep::Read.after(false), LoadStep::Failed(LoadError::Read));
    assert_eq!(LoadStep::Parse.after(false), LoadStep::Failed(LoadError::Parse));
    assert_eq!(
        LoadStep::Failed(LoadError::Parse).after(true),
        LoadStep::Failed(LoadError::Parse)
    );
}

#[test]
fn character_classes_agree_with_unicode() {
    for n in 0..0x110000u32 {
        if let Some(c) = char::from_u32(n) {
            assert_eq!(is_white_space(c), c.is_whitespace(), "U+{:04X}", n);
            assert_eq!(is_control(c), c.is_control(), "U+{:04X}", n);
        }
    }
}

#[test]
fn trimming_agrees_with_str() {
    for s in ["", " ", "a", " a ", "\t a b \u{2028}", "\u{200b}a", "\u{3000}\u{3000}"] {
        assert_eq!(trim(s), s.trim());
    }
    assert_eq!(chars_of("a\u{e9}"), vec!['a', '\u{e9}']);
}

#[test]
fn printable_text() {
    assert!(is_printable("a"));
    assert!(is_printable("\u{1b}a"));
    assert!(is_printable(" "));
    assert!(!is_printable(""));
    assert!(!is_printable("\r"));
    assert!(!is_printable("\u{7f}\u{9f}"));
}
