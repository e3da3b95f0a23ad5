//! Configuration: the settings, their defaults, colours, and the steps that
//! bring the configuration file into being.
//!
//! The file is optional and so is every setting in it. A setting that the file
//! leaves out takes its default; a file that is missing is created from
//! [`DEFAULT_CONFIG`]; a file that cannot be read or parsed is fatal.

use vstd::prelude::*;
use vstd::string::StringExecFns;

use crate::text;

verus! {

/// The configuration file that is written when there is none.
pub const DEFAULT_CONFIG: &'static str = "\
# CryoLock configuration

# Seconds without input before the monitors are powered off (0 = never).
dpms_timeout_seconds = 120

# Colours, as #RRGGBB.
background_color = \"#1a1b26\"
text_color = \"#c0caf5\"
ring_idle_color = \"#565f89\"
ring_typing_color = \"#7aa2f7\"
ring_wrong_color = \"#f7768e\"

# Font family of the clock and the status line, and the clock's size in pixels.
font_family = \"monospace\"
font_size = 64

# The clock above the ring, with its strftime format.
show_clock = true
clock_format = \"%H:%M\"
";

/// Complete configuration of the lock screen.
#[derive(Debug, Clone)]
pub struct Config {
    /// Seconds of inactivity before DPMS powers off monitors (0 = disabled).
    pub dpms_timeout_seconds: u64,
    /// Lock screen background color (hex).
    pub background_color: String,
    /// Clock and status text color (hex).
    pub text_color: String,
    /// Ring indicator color when idle.
    pub ring_idle_color: String,
    /// Ring indicator color while typing.
    pub ring_typing_color: String,
    /// Ring indicator color on wrong password.
    pub ring_wrong_color: String,
    /// System font family name.
    pub font_family: String,
    /// Font size in pixels for the clock display.
    pub font_size: u32,
    /// Whether to show the clock above the ring.
    pub show_clock: bool,
    /// strftime-style clock format string.
    pub clock_format: String,
}

/// The settings that a configuration file gives; `None` where it gives none.
#[derive(Debug, Clone)]
pub struct Settings {
    pub dpms_timeout_seconds: Option<u64>,
    pub background_color: Option<String>,
    pub text_color: Option<String>,
    pub ring_idle_color: Option<String>,
    pub ring_typing_color: Option<String>,
    pub ring_wrong_color: Option<String>,
    pub font_family: Option<String>,
    pub font_size: Option<u32>,
    pub show_clock: Option<bool>,
    pub clock_format: Option<String>,
}

/// What a [`Config`] says, with each string as its characters.
#[verifier::ext_equal]
pub struct ConfigView {
    pub dpms_timeout_seconds: u64,
    pub background_color: Seq<char>,
    pub text_color: Seq<char>,
    pub ring_idle_color: Seq<char>,
    pub ring_typing_color: Seq<char>,
    pub ring_wrong_color: Seq<char>,
    pub font_family: Seq<char>,
    pub font_size: u32,
    pub show_clock: bool,
    pub clock_format: Seq<char>,
}

impl View for Config {
    type V = ConfigView;

    open spec fn view(&self) -> ConfigView {
        ConfigView {
            dpms_timeout_seconds: self.dpms_timeout_seconds,
            background_color: self.background_color@,
            text_color: self.text_color@,
            ring_idle_color: self.ring_idle_color@,
            ring_typing_color: self.ring_typing_color@,
            ring_wrong_color: self.ring_wrong_color@,
            font_family: self.font_family@,
            font_size: self.font_size,
            show_clock: self.show_clock,
            clock_format: self.clock_format@,
        }
    }
}

/// The configuration that holds where nothing is set.
pub open spec fn default_config() -> ConfigView {
    ConfigView {
        dpms_timeout_seconds: 120,
        background_color: "#1a1b26"@,
        text_color: "#c0caf5"@,
        ring_idle_color: "#565f89"@,
        ring_typing_color: "#7aa2f7"@,
        ring_wrong_color: "#f7768e"@,
        font_family: "monospace"@,
        font_size: 64,
        show_clock: true,
        clock_format: "%H:%M"@,
    }
}

/// The characters that were set, or else those of the default.
pub open spec fn text_or(set: Option<String>, default: Seq<char>) -> Seq<char> {
    match set {
        Some(s) => s@,
        None => default,
    }
}

/// The value that was set, or else the default.
pub open spec fn value_or<T>(set: Option<T>, default: T) -> T {
    match set {
        Some(v) => v,
        None => default,
    }
}

impl Settings {
    /// The configuration that these settings describe.
    pub open spec fn resolved(self) -> ConfigView {
        let d = default_config();
        ConfigView {
            dpms_timeout_seconds: value_or(self.dpms_timeout_seconds, d.dpms_timeout_seconds),
            background_color: text_or(self.background_color, d.background_color),
            text_color: text_or(self.text_color, d.text_color),
            ring_idle_color: text_or(self.ring_idle_color, d.ring_idle_color),
            ring_typing_color: text_or(self.ring_typing_color, d.ring_typing_color),
            ring_wrong_color: text_or(self.ring_wrong_color, d.ring_wrong_color),
            font_family: text_or(self.font_family, d.font_family),
            font_size: value_or(self.font_size, d.font_size),
            show_clock: value_or(self.show_clock, d.show_clock),
            clock_format: text_or(self.clock_format, d.clock_format),
        }
    }

    /// Whether nothing at all is set.
    pub open spec fn nothing_set(self) -> bool {
        &&& self.dpms_timeout_seconds is None
        &&& self.background_color is None
        &&& self.text_color is None
        &&& self.ring_idle_color is None
        &&& self.ring_typing_color is None
        &&& self.ring_wrong_color is None
        &&& self.font_family is None
        &&& self.font_size is None
        &&& self.show_clock is None
        &&& self.clock_format is None
    }

    /// The settings that spell out every field of `config`.
    pub open spec fn spells_out(self, config: Config) -> bool {
        &&& self.dpms_timeout_seconds == Some(config.dpms_timeout_seconds)
        &&& self.background_color == Some(config.background_color)
        &&& self.text_color == Some(config.text_color)
        &&& self.ring_idle_color == Some(config.ring_idle_color)
        &&& self.ring_typing_color == Some(config.ring_typing_color)
        &&& self.ring_wrong_color == Some(config.ring_wrong_color)
        &&& self.font_family == Some(config.font_family)
        &&& self.font_size == Some(config.font_size)
        &&& self.show_clock == Some(config.show_clock)
        &&& self.clock_format == Some(config.clock_format)
    }
}

/// Seconds of inactivity before the monitors are blanked.
pub fn default_dpms_timeout() -> (r: u64)
    ensures
        r == default_config().dpms_timeout_seconds,
{
    120
}

/// Background of the lock screen.
pub fn default_background_color() -> (r: String)
    ensures
        r@ == default_config().background_color,
{
    "#1a1b26".to_string()
}

/// Colour of the clock, the dots and the status line.
pub fn default_text_color() -> (r: String)
    ensures
        r@ == default_config().text_color,
{
    "#c0caf5".to_string()
}

/// Ring colour without input.
pub fn default_ring_idle_color() -> (r: String)
    ensures
        r@ == default_config().ring_idle_color,
{
    "#565f89".to_string()
}

/// Ring colour while typing.
pub fn default_ring_typing_color() -> (r: String)
    ensures
        r@ == default_config().ring_typing_color,
{
    "#7aa2f7".to_string()
}

/// Ring colour after a wrong password.
pub fn default_ring_wrong_color() -> (r: String)
    ensures
        r@ == default_config().ring_wrong_color,
{
    "#f7768e".to_string()
}

/// Font family of all text.
pub fn default_font_family() -> (r: String)
    ensures
        r@ == default_config().font_family,
{
    "monospace".to_string()
}

/// Size of the clock in pixels.
pub fn default_font_size() -> (r: u32)
    ensures
        r == default_config().font_size,
{
    64
}

/// Whether the clock is shown.
pub fn default_show_clock() -> (r: bool)
    ensures
        r == default_config().show_clock,
{
    true
}

/// Format of the clock.
pub fn default_clock_format() -> (r: String)
    ensures
        r@ == default_config().clock_format,
{
    "%H:%M".to_string()
}

impl Config {
    /// The configuration that `settings` describe: what is set is taken over,
    /// what is not set takes its default.
    pub fn from_settings(settings: Settings) -> (config: Config)
        ensures
            config@ == settings.resolved(),
    {
        Config {
            dpms_timeout_seconds: match settings.dpms_timeout_seconds {
                Some(v) => v,
                None => default_dpms_timeout(),
            },
            background_color: match settings.background_color {
                Some(v) => v,
                None => default_background_color(),
            },
            text_color: match settings.text_color {
                Some(v) => v,
                None => default_text_color(),
            },
            ring_idle_color: match settings.ring_idle_color {
                Some(v) => v,
                None => default_ring_idle_color(),
            },
            ring_typing_color: match settings.ring_typing_color {
                Some(v) => v,
                None => default_ring_typing_color(),
            },
            ring_wrong_color: match settings.ring_wrong_color {
                Some(v) => v,
                None => default_ring_wrong_color(),
            },
            font_family: match settings.font_family {
                Some(v) => v,
                None => default_font_family(),
            },
            font_size: match settings.font_size {
                Some(v) => v,
                None => default_font_size(),
            },
            show_clock: match settings.show_clock {
                Some(v) => v,
                None => default_show_clock(),
            },
            clock_format: match settings.clock_format {
                Some(v) => v,
                None => default_clock_format(),
            },
        }
    }
}

/// A file that sets nothing gives the default configuration.
pub proof fn lemma_empty_settings_give_defaults(settings: Settings)
    requires
        settings.nothing_set(),
    ensures
        settings.resolved() == default_config(),
{
}

/// A file that spells out every setting of a configuration gives that
/// configuration: no default overrides what is set.
pub proof fn lemma_spelled_out_settings_are_kept(settings: Settings, config: Config)
    requires
        settings.spells_out(config),
    ensures
        settings.resolved() == config@,
{
}

// ---------------------------------------------------------------------------
// Colours
// ---------------------------------------------------------------------------

/// The value of a hexadecimal digit of either case.
pub open spec fn hex_digit(c: char) -> Option<u8> {
    if '0' <= c <= '9' {
        Some((c as u8 - '0' as u8) as u8)
    } else if 'a' <= c <= 'f' {
        Some((c as u8 - 'a' as u8 + 10) as u8)
    } else if 'A' <= c <= 'F' {
        Some((c as u8 - 'A' as u8 + 10) as u8)
    } else {
        None
    }
}

/// The byte that two hexadecimal digits spell.
pub open spec fn hex_byte(high: char, low: char) -> Option<u8> {
    match (hex_digit(high), hex_digit(low)) {
        (Some(h), Some(l)) => Some((16 * h + l) as u8),
        _ => None,
    }
}

/// What remains of a colour string once the white space around it and a
/// number sign before it are gone.
pub open spec fn bare_color(s: Seq<char>) -> Seq<char> {
    let t = text::trimmed(s);
    if t.len() > 0 && t[0] == '#' {
        t.drop_first()
    } else {
        t
    }
}

/// The colour that `s` spells, as red, green and blue.
pub open spec fn hex_color(s: Seq<char>) -> Option<(u8, u8, u8)> {
    let t = bare_color(s);
    if t.len() != 6 {
        None
    } else {
        match (hex_byte(t[0], t[1]), hex_byte(t[2], t[3]), hex_byte(t[4], t[5])) {
            (Some(r), Some(g), Some(b)) => Some((r, g, b)),
            _ => None,
        }
    }
}

fn parse_hex_digit(c: char) -> (r: Option<u8>)
    ensures
        r == hex_digit(c),
{
    if '0' <= c && c <= '9' {
        Some(c as u8 - '0' as u8)
    } else if 'a' <= c && c <= 'f' {
        Some(c as u8 - 'a' as u8 + 10)
    } else if 'A' <= c && c <= 'F' {
        Some(c as u8 - 'A' as u8 + 10)
    } else {
        None
    }
}

fn parse_hex_byte(high: char, low: char) -> (r: Option<u8>)
    ensures
        r == hex_byte(high, low),
{
    match (parse_hex_digit(high), parse_hex_digit(low)) {
        (Some(h), Some(l)) => Some(16 * h + l),
        _ => None,
    }
}

/// Parse a CSS hex color string (#RRGGBB or RRGGBB) into (R, G, B).
/// Returns `None` for malformed input.
pub fn parse_hex_color(hex: &str) -> (r: Option<(u8, u8, u8)>)
    ensures
        r == hex_color(hex@),
{
    let chars: Vec<char> = text::chars_of(hex);
    let (from, end) = text::trim_bounds(&chars);
    let start: usize = if from < end && chars[from] == '#' {
        from + 1
    } else {
        from
    };
    assert(chars@.subrange(start as int, end as int) == bare_color(hex@));
    if end - start != 6 {
        return None;
    }
    let r = parse_hex_byte(chars[start], chars[start + 1]);
    let g = parse_hex_byte(chars[start + 2], chars[start + 3]);
    let b = parse_hex_byte(chars[start + 4], chars[start + 5]);
    match (r, g, b) {
        (Some(r), Some(g), Some(b)) => Some((r, g, b)),
        _ => None,
    }
}

/// Convert (R, G, B) to an ARGB8888 pixel in little-endian byte order [B, G, R, A].
pub fn rgb_to_argb8888(r: u8, g: u8, b: u8) -> (pixel: [u8; 4])
    ensures
        pixel@ == seq![b, g, r, 0xFFu8],
{
    [b, g, r, 0xFF]
}

/// The hexadecimal digit for `n`, in upper case or in lower case.
pub open spec fn hex_char(n: int, upper: bool) -> char
    recommends
        0 <= n < 16,
{
    if n < 10 {
        ('0' as int + n) as char
    } else if upper {
        ('A' as int + n - 10) as char
    } else {
        ('a' as int + n - 10) as char
    }
}

/// Whether `s` spells a colour as RRGGBB, each digit in either case.
pub open spec fn spells_color(s: Seq<char>, r: u8, g: u8, b: u8) -> bool {
    &&& s.len() == 6
    &&& spells_byte(s[0], s[1], r)
    &&& spells_byte(s[2], s[3], g)
    &&& spells_byte(s[4], s[5], b)
}

/// Whether two characters are the hexadecimal digits of `n`, in either case.
pub open spec fn spells_byte(high: char, low: char, n: u8) -> bool {
    spells_digit(high, n as int / 16) && spells_digit(low, n as int % 16)
}

/// Whether a character is the hexadecimal digit for `n`, in either case.
pub open spec fn spells_digit(c: char, n: int) -> bool {
    c == hex_char(n, true) || c == hex_char(n, false)
}

proof fn lemma_spelled_digit(c: char, n: int)
    requires
        0 <= n < 16,
        spells_digit(c, n),
    ensures
        hex_digit(c) == Some(n as u8),
        !text::white_space(c),
        c != '#',
{
}

proof fn lemma_spelled_byte(high: char, low: char, n: u8)
    requires
        spells_byte(high, low, n),
    ensures
        hex_byte(high, low) == Some(n),
{
    lemma_spelled_digit(high, n as int / 16);
    lemma_spelled_digit(low, n as int % 16);
}

/// Text without white space at its ends is not changed by trimming.
proof fn lemma_trimmed_keeps(s: Seq<char>)
    requires
        s.len() > 0,
        !text::white_space(s[0]),
        !text::white_space(s.last()),
    ensures
        text::trimmed(s) == s,
{
}

/// Every colour is read back from its spelling, whichever case each digit has,
/// with a number sign and without one.
pub proof fn lemma_spelled_color_is_read_back(s: Seq<char>, r: u8, g: u8, b: u8)
    requires
        spells_color(s, r, g, b),
    ensures
        hex_color(s) == Some((r, g, b)),
        hex_color(seq!['#'] + s) == Some((r, g, b)),
{
    lemma_spelled_digit(s[0], r as int / 16);
    lemma_spelled_digit(s[5], b as int % 16);
    lemma_trimmed_keeps(s);
    assert(bare_color(s) == s);
    lemma_spelled_byte(s[0], s[1], r);
    lemma_spelled_byte(s[2], s[3], g);
    lemma_spelled_byte(s[4], s[5], b);
    lemma_number_sign_is_optional(s);
}

/// A number sign before a colour that has none changes nothing.
pub proof fn lemma_number_sign_is_optional(s: Seq<char>)
    requires
        s.len() > 0 ==> !text::white_space(s[0]) && s[0] != '#',
    ensures
        hex_color(seq!['#'] + s) == hex_color(s),
{
    let p = |c: char| text::white_space(c);
    let t = seq!['#'] + s;
    assert(text::skip_front(t, p) == t);
    assert(text::skip_front(s, p) == s);
    lemma_skip_back_under_prefix(s);
    lemma_skip_back_is_prefix(s);
    let u = seq!['#'] + text::skip_back(s, p);
    assert(text::trimmed(t) == u);
    assert(u.drop_first() == text::skip_back(s, p));
}

/// Every string that is read as a colour consists of six hexadecimal digits
/// once white space and a number sign are gone, and every such string is read.
pub proof fn lemma_only_six_digits_are_a_color(s: Seq<char>)
    ensures
        hex_color(s) is Some <==> bare_color(s).len() == 6 && forall|i: int|
            0 <= i < 6 ==> hex_digit(#[trigger] bare_color(s)[i]) is Some,
{
    let t = bare_color(s);
    if t.len() == 6 && hex_color(s) is Some {
        assert(hex_byte(t[0], t[1]) is Some);
        assert(hex_byte(t[2], t[3]) is Some);
        assert(hex_byte(t[4], t[5]) is Some);
    }
}

proof fn lemma_skip_back_is_prefix(s: Seq<char>)
    ensures
        text::skip_back(s, |c: char| text::white_space(c)).is_prefix_of(s),
    decreases s.len(),
{
    if s.len() > 0 && text::white_space(s.last()) {
        lemma_skip_back_is_prefix(s.drop_last());
    }
}

proof fn lemma_skip_back_under_prefix(s: Seq<char>)
    ensures
        text::skip_back(seq!['#'] + s, |c: char| text::white_space(c)) == seq!['#']
            + text::skip_back(s, |c: char| text::white_space(c)),
    decreases s.len(),
{
    let p = |c: char| text::white_space(c);
    let t = seq!['#'] + s;
    if s.len() > 0 && p(s.last()) {
        assert(t.drop_last() == seq!['#'] + s.drop_last());
        lemma_skip_back_under_prefix(s.drop_last());
    } else {
        assert(t.last() == if s.len() > 0 { s.last() } else { '#' });
    }
}

// ---------------------------------------------------------------------------
// Where the file lies
// ---------------------------------------------------------------------------

/// A relative path appended to a directory, with one slash between the two.
pub open spec fn joined(base: Seq<char>, part: Seq<char>) -> Seq<char> {
    if base.len() == 0 || base.last() == '/' {
        base + part
    } else {
        base + seq!['/'] + part
    }
}

/// The configuration file below a home directory, or below `/tmp` where the
/// home directory is not known.
pub open spec fn fallback_path(home: Option<String>) -> Seq<char> {
    let base = text_or(home, "/tmp"@);
    joined(joined(joined(base, ".config"@), "cryolock"@), "config.toml"@)
}

fn join_path(base: String, part: &str) -> (r: String)
    ensures
        r@ == joined(base@, part@),
{
    let chars: Vec<char> = text::chars_of(base.as_str());
    let n: usize = chars.len();
    proof {
        reveal_strlit("/");
    }
    assert("/"@ == seq!['/']);
    if n == 0 || chars[n - 1] == '/' {
        base.concat(part)
    } else {
        base.concat("/").concat(part)
    }
}

/// The configuration file for a system without a per-user configuration
/// directory: `$HOME/.config/cryolock/config.toml`, with `/tmp` in place of an
/// unknown home directory.
pub fn fallback_config_path(home: Option<String>) -> (r: String)
    ensures
        r@ == fallback_path(home),
{
    let base: String = match home {
        Some(h) => h,
        None => "/tmp".to_string(),
    };
    join_path(join_path(join_path(base, ".config"), "cryolock"), "config.toml")
}

// ---------------------------------------------------------------------------
// Bringing the file into being and reading it
// ---------------------------------------------------------------------------

/// Why the configuration could not be loaded.
#[derive(Debug, Clone, Copy, PartialEq, Eq, Structural)]
pub enum LoadError {
    /// The directory of the file could not be created.
    CreateDirectory,
    /// The default file could not be written.
    WriteDefault,
    /// The file could not be read.
    Read,
    /// The file is malformed.
    Parse,
}

/// A step of loading the configuration: what is to be tested or done next.
#[derive(Debug, Clone, Copy, PartialEq, Eq, Structural)]
pub enum LoadStep {
    /// Test whether the directory of the file exists.
    CheckDirectory,
    /// Create the directory of the file.
    CreateDirectory,
    /// Test whether the file exists.
    CheckFile,
    /// Write [`DEFAULT_CONFIG`] to the file.
    WriteDefault,
    /// Read the file.
    Read,
    /// Parse what was read.
    Parse,
    /// The configuration is there.
    Ready,
    /// The configuration cannot be had.
    Failed(LoadError),
}

/// The first step: the directory is tested only if the path has one.
pub open spec fn first_load_step(has_directory: bool) -> LoadStep {
    if has_directory {
        LoadStep::CheckDirectory
    } else {
        LoadStep::CheckFile
    }
}

impl LoadStep {
    /// The step after this one, which succeeded or not. For a test, success
    /// means that the thing exists.
    pub open spec fn next(self, ok: bool) -> LoadStep {
        match self {
            LoadStep::CheckDirectory => if ok {
                LoadStep::CheckFile
            } else {
                LoadStep::CreateDirectory
            },
            LoadStep::CreateDirectory => if ok {
                LoadStep::CheckFile
            } else {
                LoadStep::Failed(LoadError::CreateDirectory)
            },
            LoadStep::CheckFile => if ok {
                LoadStep::Read
            } else {
                LoadStep::WriteDefault
            },
            LoadStep::WriteDefault => if ok {
                LoadStep::Read
            } else {
                LoadStep::Failed(LoadError::WriteDefault)
            },
            LoadStep::Read => if ok {
                LoadStep::Parse
            } else {
                LoadStep::Failed(LoadError::Read)
            },
            LoadStep::Parse => if ok {
                LoadStep::Ready
            } else {
                LoadStep::Failed(LoadError::Parse)
            },
            LoadStep::Ready => LoadStep::Ready,
            LoadStep::Failed(e) => LoadStep::Failed(e),
        }
    }

    /// Whether loading is over.
    pub open spec fn is_final(self) -> bool {
        self is Ready || self is Failed
    }

    /// How many steps may still follow.
    pub open spec fn rank(self) -> nat {
        match self {
            LoadStep::CheckDirectory => 6,
            LoadStep::CreateDirectory => 5,
            LoadStep::CheckFile => 4,
            LoadStep::WriteDefault => 3,
            LoadStep::Read => 2,
            LoadStep::Parse => 1,
            LoadStep::Ready => 0,
            LoadStep::Failed(_) => 0,
        }
    }

    /// Start loading the file at a path with or without a directory.
    pub fn first(has_directory: bool) -> (step: LoadStep)
        ensures
            step == first_load_step(has_directory),
    {
        if has_directory {
            LoadStep::CheckDirectory
        } else {
            LoadStep::CheckFile
        }
    }

    /// Go on from this step, which succeeded or not.
    pub fn after(self, ok: bool) -> (step: LoadStep)
        ensures
            step == self.next(ok),
    {
        match self {
            LoadStep::CheckDirectory => if ok {
                LoadStep::CheckFile
            } else {
                LoadStep::CreateDirectory
            },
            LoadStep::CreateDirectory => if ok {
                LoadStep::CheckFile
            } else {
                LoadStep::Failed(LoadError::CreateDirectory)
            },
            LoadStep::CheckFile => if ok {
                LoadStep::Read
            } else {
                LoadStep::WriteDefault
            },
            LoadStep::WriteDefault => if ok {
                LoadStep::Read
            } else {
                LoadStep::Failed(LoadError::WriteDefault)
            },
            LoadStep::Read => if ok {
                LoadStep::Parse
            } else {
                LoadStep::Failed(LoadError::Read)
            },
            LoadStep::Parse => if ok {
                LoadStep::Ready
            } else {
                LoadStep::Failed(LoadError::Parse)
            },
            LoadStep::Ready => LoadStep::Ready,
            LoadStep::Failed(e) => LoadStep::Failed(e),
        }
    }
}

/// The step that is reached when the steps from `start` on end as `outcomes` say.
pub open spec fn load_run(start: LoadStep, outcomes: Seq<bool>) -> LoadStep
    decreases outcomes.len(),
{
    if outcomes.len() == 0 {
        start
    } else {
        load_run(start.next(outcomes[0]), outcomes.drop_first())
    }
}

/// Loading ends, whatever the steps meet with: six steps are always enough.
pub proof fn lemma_loading_ends(start: LoadStep, outcomes: Seq<bool>)
    requires
        outcomes.len() >= start.rank(),
    ensures
        load_run(start, outcomes).is_final(),
        start.rank() <= 6,
    decreases outcomes.len(),
{
    if outcomes.len() > 0 {
        lemma_loading_ends(start.next(outcomes[0]), outcomes.drop_first());
    }
}

/// A configuration is there only if the file was read and parsed, and whatever
/// fails on the way is fatal.
pub proof fn lemma_failures_are_fatal(step: LoadStep, ok: bool)
    ensures
        step.next(ok) is Ready ==> step is Ready || (step is Parse && ok),
        step.next(ok) is Parse ==> step is Read && ok,
        !ok && (step is CreateDirectory || step is WriteDefault || step is Read || step is Parse)
            ==> step.next(ok) is Failed,
        step is Failed ==> step.next(ok) == step,
{
}

/// What is missing is created, and nothing else: the directory if it was found
/// to be missing, and the default file if there was no file. An existing file
/// is never overwritten.
pub proof fn lemma_only_what_is_missing_is_created(step: LoadStep, ok: bool)
    ensures
        step.next(ok) is CreateDirectory <==> step is CheckDirectory && !ok,
        step.next(ok) is WriteDefault <==> step is CheckFile && !ok,
{
}

/// Loading succeeds exactly if the directory is there or can be created, the
/// file is there or can be written, and it can be read and parsed. Otherwise it
/// fails with the first of these that went wrong.
pub proof fn lemma_what_loading_takes(
    directory_exists: bool,
    directory_created: bool,
    file_exists: bool,
    default_written: bool,
    read: bool,
    parsed: bool,
)
    ensures
        ({
            let checked = first_load_step(true).next(directory_exists);
            let file = if directory_exists {
                checked
            } else {
                checked.next(directory_created)
            };
            let found = file.next(file_exists);
            let reading = if file_exists {
                found
            } else {
                found.next(default_written)
            };
            let end = reading.next(read).next(parsed);
            end == if !directory_exists && !directory_created {
                LoadStep::Failed(LoadError::CreateDirectory)
            } else if !file_exists && !default_written {
                LoadStep::Failed(LoadError::WriteDefault)
            } else if !read {
                LoadStep::Failed(LoadError::Read)
            } else if !parsed {
                LoadStep::Failed(LoadError::Parse)
            } else {
                LoadStep::Ready
            }
        }),
        first_load_step(false) == first_load_step(true).next(true),
{
}

/// Once loading is over, nothing changes any more.
pub proof fn lemma_loading_stays_over(step: LoadStep, ok: bool)
    requires
        step is Ready || step is Failed,
    ensures
        step.next(ok) == step,
{
}

// ---------------------------------------------------------------------------
// Laws of settings, colours and paths
// ---------------------------------------------------------------------------

/// Each setting stands for itself: one that is set is taken over as it is, and
/// one that is not set takes its own default, whatever the others are.
pub proof fn lemma_each_setting_stands_for_itself(settings: Settings)
    ensures
        settings.dpms_timeout_seconds matches Some(v) ==> settings.resolved().dpms_timeout_seconds
            == v,
        settings.dpms_timeout_seconds is None ==> settings.resolved().dpms_timeout_seconds == 120,
        settings.background_color matches Some(v) ==> settings.resolved().background_color == v@,
        settings.background_color is None ==> settings.resolved().background_color == "#1a1b26"@,
        settings.text_color matches Some(v) ==> settings.resolved().text_color == v@,
        settings.text_color is None ==> settings.resolved().text_color == "#c0caf5"@,
        settings.ring_idle_color matches Some(v) ==> settings.resolved().ring_idle_color == v@,
        settings.ring_idle_color is None ==> settings.resolved().ring_idle_color == "#565f89"@,
        settings.ring_typing_color matches Some(v) ==> settings.resolved().ring_typing_color == v@,
        settings.ring_typing_color is None ==> settings.resolved().ring_typing_color == "#7aa2f7"@,
        settings.ring_wrong_color matches Some(v) ==> settings.resolved().ring_wrong_color == v@,
        settings.ring_wrong_color is None ==> settings.resolved().ring_wrong_color == "#f7768e"@,
        settings.font_family matches Some(v) ==> settings.resolved().font_family == v@,
        settings.font_family is None ==> settings.resolved().font_family == "monospace"@,
        settings.font_size matches Some(v) ==> settings.resolved().font_size == v,
        settings.font_size is None ==> settings.resolved().font_size == 64,
        settings.show_clock matches Some(v) ==> settings.resolved().show_clock == v,
        settings.show_clock is None ==> settings.resolved().show_clock,
        settings.clock_format matches Some(v) ==> settings.resolved().clock_format == v@,
        settings.clock_format is None ==> settings.resolved().clock_format == "%H:%M"@,
{
}

/// A configuration is seen field by field, as it is.
pub proof fn lemma_configuration_is_seen_as_it_is(config: Config)
    ensures
        config@.dpms_timeout_seconds == config.dpms_timeout_seconds,
        config@.background_color == config.background_color@,
        config@.text_color == config.text_color@,
        config@.ring_idle_color == config.ring_idle_color@,
        config@.ring_typing_color == config.ring_typing_color@,
        config@.ring_wrong_color == config.ring_wrong_color@,
        config@.font_family == config.font_family@,
        config@.font_size == config.font_size,
        config@.show_clock == config.show_clock,
        config@.clock_format == config.clock_format@,
{
}

proof fn lemma_digit_value(c: char, n: int)
    requires
        0 <= n < 16,
        if n < 10 {
            c as int == 48 + n
        } else {
            c as int == 55 + n || c as int == 87 + n
        },
    ensures
        hex_digit(c) == Some(n as u8),
        !text::white_space(c),
        c != '#',
{
}

/// Six hexadecimal digits are read pair by pair, as red, green and blue, each
/// as sixteen times its first digit plus its second, with a number sign before
/// them or without, and with any white space around. The digits are U+0030 to
/// U+0039 for 0 to 9, and U+0041 to U+0046 or U+0061 to U+0066 for 10 to 15.
pub proof fn lemma_digits_are_read_in_pairs(
    front: Seq<char>,
    digits: Seq<char>,
    values: Seq<int>,
    back: Seq<char>,
)
    requires
        forall|i: int| 0 <= i < front.len() ==> text::white_space(#[trigger] front[i]),
        forall|i: int| 0 <= i < back.len() ==> text::white_space(#[trigger] back[i]),
        digits.len() == 6,
        values.len() == 6,
        forall|i: int|
            0 <= i < 6 ==> 0 <= #[trigger] values[i] < 16 && if values[i] < 10 {
                digits[i] as int == 48 + values[i]
            } else {
                digits[i] as int == 55 + values[i] || digits[i] as int == 87 + values[i]
            },
    ensures
        ({
            let color = Some(
                (
                    (16 * values[0] + values[1]) as u8,
                    (16 * values[2] + values[3]) as u8,
                    (16 * values[4] + values[5]) as u8,
                ),
            );
            &&& hex_color(front + digits + back) == color
            &&& hex_color(front + (seq!['#'] + digits) + back) == color
        }),
{
    assert forall|i: int| 0 <= i < 6 implies hex_digit(#[trigger] digits[i]) == Some(
        values[i] as u8,
    ) && !text::white_space(digits[i]) && digits[i] != '#' by {
        assert(0 <= values[i] < 16);
        lemma_digit_value(digits[i], values[i]);
    }
    let signed = seq!['#'] + digits;
    assert(signed[0] == '#' && signed[6] == digits[5]);
    assert(!text::white_space('#'));
    text::lemma_trimming_takes_the_white_space(front, digits, back);
    text::lemma_trimming_takes_the_white_space(front, signed, back);
    assert(signed.drop_first() =~= digits);
    assert(values[0] < 16 && values[1] < 16 && values[2] < 16);
    assert(values[3] < 16 && values[4] < 16 && values[5] < 16);
    assert(hex_digit(digits[0]) is Some && hex_digit(digits[1]) is Some);
    assert(hex_digit(digits[2]) is Some && hex_digit(digits[3]) is Some);
    assert(hex_digit(digits[4]) is Some && hex_digit(digits[5]) is Some);
}

/// Nothing else is read as a colour: there are six hexadecimal digits in a row,
/// from place `a` on, with white space behind them, and before them white
/// space and at most one number sign, right before the digits.
pub proof fn lemma_nothing_else_is_a_color(s: Seq<char>) -> (a: int)
    requires
        hex_color(s) is Some,
    ensures
        0 <= a && a + 6 <= s.len(),
        forall|i: int|
            a <= i < a + 6 ==> {
                ||| 48 <= (#[trigger] s[i]) as int <= 57
                ||| 65 <= s[i] as int <= 70
                ||| 97 <= s[i] as int <= 102
            },
        forall|i: int|
            0 <= i < a ==> text::white_space(#[trigger] s[i]) || (i == a - 1 && s[i] == '#'),
        forall|i: int| a + 6 <= i < s.len() ==> text::white_space(#[trigger] s[i]),
{
    let (from, end) = text::lemma_trimmed_text_lies_within(s);
    let t = text::trimmed(s);
    let a = if t.len() > 0 && t[0] == '#' {
        from + 1
    } else {
        from
    };
    assert(bare_color(s) =~= s.subrange(a, end));
    lemma_only_six_digits_are_a_color(s);
    assert forall|i: int| a <= i < a + 6 implies {
        ||| 48 <= (#[trigger] s[i]) as int <= 57
        ||| 65 <= s[i] as int <= 70
        ||| 97 <= s[i] as int <= 102
    } by {
        assert(hex_digit(bare_color(s)[i - a]) is Some);
    }
    a
}

/// Below a home directory the file lies at `.config/cryolock/config.toml`, with
/// exactly one slash between the two; without one it lies below `/tmp`.
pub proof fn lemma_where_the_file_lies(home: String)
    ensures
        home@.len() > 0 && home@.last() != '/' ==> fallback_path(Some(home)) == home@
            + "/.config/cryolock/config.toml"@,
        home@.len() == 0 || home@.last() == '/' ==> fallback_path(Some(home)) == home@
            + ".config/cryolock/config.toml"@,
        fallback_path(None) == "/tmp/.config/cryolock/config.toml"@,
{
    reveal_strlit("/.config/cryolock/config.toml");
    reveal_strlit(".config/cryolock/config.toml");
    reveal_strlit("/tmp/.config/cryolock/config.toml");
    reveal_strlit("/tmp");
    reveal_strlit(".config");
    reveal_strlit("cryolock");
    reveal_strlit("config.toml");
    assert(fallback_path(None) =~= "/tmp/.config/cryolock/config.toml"@);
    if home@.len() > 0 && home@.last() != '/' {
        assert(fallback_path(Some(home)) =~= home@ + "/.config/cryolock/config.toml"@);
    } else {
        assert(fallback_path(Some(home)) =~= home@ + ".config/cryolock/config.toml"@);
    }
}

} // verus!
