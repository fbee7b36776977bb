use vstd::prelude::*;
use crate::paths::{config_home, home_dir, join_path, opt_chars, spec_join};

verus! {

/// Interface theme: affects the settings window only.
#[derive(Debug, Clone, Copy, PartialEq, Eq, Structural)]
pub enum Theme {
    Light,
    Dark,
    System,
}

impl Default for Theme {
    fn default() -> (t: Theme)
        ensures
            t == Theme::System,
    {
        Theme::System
    }
}

/// Image format used when saving a capture: decides the file extension
/// and the encoder.
#[derive(Debug, Clone, Copy, PartialEq, Eq, Structural)]
pub enum ImageFormat {
    Png,
    Jpg,
    WebP,
}

impl Default for ImageFormat {
    fn default() -> (f: ImageFormat)
        ensures
            f == ImageFormat::Png,
    {
        ImageFormat::Png
    }
}

/// The extension, without the dot, of a file saved in `format`.
pub open spec fn spec_extension(format: ImageFormat) -> Seq<char> {
    match format {
        ImageFormat::Png => seq!['p', 'n', 'g'],
        ImageFormat::Jpg => seq!['j', 'p', 'g'],
        ImageFormat::WebP => seq!['w', 'e', 'b', 'p'],
    }
}

impl ImageFormat {
    pub fn extension(self) -> (ext: &'static str)
        ensures
            ext@ == spec_extension(self),
    {
        match self {
            ImageFormat::Png => {
                proof { reveal_strlit("png"); }
                "png"
            },
            ImageFormat::Jpg => {
                proof { reveal_strlit("jpg"); }
                "jpg"
            },
            ImageFormat::WebP => {
                proof { reveal_strlit("webp"); }
                "webp"
            },
        }
    }
}


/// Value of the boolean settings whose default is on.
pub fn default_true() -> (b: bool)
    ensures
        b,
{
    true
}

/// The file name pattern used until the user picks another.
pub open spec fn spec_default_pattern() -> Seq<char> {
    "printcher_%Y-%m-%d_%H-%M-%S"@
}

pub fn default_pattern() -> (p: String)
    ensures
        p@ == spec_default_pattern(),
{
    "printcher_%Y-%m-%d_%H-%M-%S".to_owned()
}

/// The settings that printcher remembers between runs. The capture
/// shortcut itself is not here: the portal and the compositor keep it.
#[derive(Debug, Clone)]
pub struct Config {
    pub start_on_login: bool,
    /// Whether the tray icon is shown.
    pub tray_enabled: bool,
    pub theme: Theme,
    pub dyslexia_font: bool,
    /// `None`: the default folder (`<pictures>/printcher`), which follows
    /// the system's pictures folder if it moves.
    pub folder: Option<String>,
    pub format: ImageFormat,
    pub pattern: String,
    /// Copy the capture to the clipboard as well when saving it.
    pub auto_copy: bool,
}

/// The settings of [`Config::default`]: every switch off, the system
/// theme, PNG, the default folder and no pattern.
pub open spec fn is_default_config(c: Config) -> bool {
    &&& !c.start_on_login
    &&& !c.tray_enabled
    &&& c.theme == Theme::System
    &&& !c.dyslexia_font
    &&& c.folder is None
    &&& c.format == ImageFormat::Png
    &&& c.pattern@ == Seq::<char>::empty()
    &&& !c.auto_copy
}

impl Default for Config {
    fn default() -> (c: Config)
        ensures
            is_default_config(c),
    {
        Config {
            start_on_login: false,
            tray_enabled: false,
            theme: Theme::System,
            dyslexia_font: false,
            folder: None,
            format: ImageFormat::Png,
            pattern: String::new(),
            auto_copy: false,
        }
    }
}

/// The settings found in a configuration file: `None` for each one that
/// the file does not mention.
#[derive(Debug, Clone)]
pub struct ConfigFields {
    pub start_on_login: Option<bool>,
    pub tray_enabled: Option<bool>,
    pub theme: Option<Theme>,
    pub dyslexia_font: Option<bool>,
    pub folder: Option<String>,
    pub format: Option<ImageFormat>,
    pub pattern: Option<String>,
    pub auto_copy: Option<bool>,
}

/// The value of a setting read from a file, or its default.
pub open spec fn or_default<T>(o: Option<T>, d: T) -> T {
    match o {
        Some(v) => v,
        None => d,
    }
}

/// The settings of a configuration file: what it says, and for what it
/// does not mention, the defaults. The tray icon and the automatic copy
/// default to on, so that files written before those settings existed
/// keep them on.
pub open spec fn spec_from_fields(f: ConfigFields, c: Config) -> bool {
    &&& c.start_on_login == or_default(f.start_on_login, false)
    &&& c.tray_enabled == or_default(f.tray_enabled, true)
    &&& c.theme == or_default(f.theme, Theme::System)
    &&& c.dyslexia_font == or_default(f.dyslexia_font, false)
    &&& opt_chars(c.folder) == opt_chars(f.folder)
    &&& c.format == or_default(f.format, ImageFormat::Png)
    &&& c.pattern@ == match f.pattern {
        Some(p) => p@,
        None => spec_default_pattern(),
    }
    &&& c.auto_copy == or_default(f.auto_copy, true)
}

/// The same settings as `c`.
pub open spec fn same_config(a: Config, b: Config) -> bool {
    &&& a.start_on_login == b.start_on_login
    &&& a.tray_enabled == b.tray_enabled
    &&& a.theme == b.theme
    &&& a.dyslexia_font == b.dyslexia_font
    &&& opt_chars(a.folder) == opt_chars(b.folder)
    &&& a.format == b.format
    &&& a.pattern@ == b.pattern@
    &&& a.auto_copy == b.auto_copy
}

/// Every setting of `c`, as a file written from it holds them.
pub open spec fn spec_fields_of(c: Config, f: ConfigFields) -> bool {
    &&& f.start_on_login == Some(c.start_on_login)
    &&& f.tray_enabled == Some(c.tray_enabled)
    &&& f.theme == Some(c.theme)
    &&& f.dyslexia_font == Some(c.dyslexia_font)
    &&& opt_chars(f.folder) == opt_chars(c.folder)
    &&& f.format == Some(c.format)
    &&& (f.pattern matches Some(p) && p@ == c.pattern@)
    &&& f.auto_copy == Some(c.auto_copy)
}

fn clone_opt_string(o: &Option<String>) -> (r: Option<String>)
    ensures
        opt_chars(r) == opt_chars(*o),
{
    match o {
        Some(s) => Some(s.clone()),
        None => None,
    }
}

impl Config {
    /// The settings read from a configuration file, with the defaults for
    /// what it leaves out.
    pub fn from_fields(f: ConfigFields) -> (c: Config)
        ensures
            spec_from_fields(f, c),
    {
        Config {
            start_on_login: match f.start_on_login {
                Some(v) => v,
                None => false,
            },
            tray_enabled: match f.tray_enabled {
                Some(v) => v,
                None => default_true(),
            },
            theme: match f.theme {
                Some(v) => v,
                None => Theme::System,
            },
            dyslexia_font: match f.dyslexia_font {
                Some(v) => v,
                None => false,
            },
            folder: clone_opt_string(&f.folder),
            format: match f.format {
                Some(v) => v,
                None => ImageFormat::Png,
            },
            pattern: match f.pattern {
                Some(p) => p,
                None => default_pattern(),
            },
            auto_copy: match f.auto_copy {
                Some(v) => v,
                None => default_true(),
            },
        }
    }

    /// Every setting, to be written to the configuration file.
    pub fn to_fields(&self) -> (f: ConfigFields)
        ensures
            spec_fields_of(*self, f),
    {
        ConfigFields {
            start_on_login: Some(self.start_on_login),
            tray_enabled: Some(self.tray_enabled),
            theme: Some(self.theme),
            dyslexia_font: Some(self.dyslexia_font),
            folder: clone_opt_string(&self.folder),
            format: Some(self.format),
            pattern: Some(self.pattern.clone()),
            auto_copy: Some(self.auto_copy),
        }
    }
}

/// The settings to use from what reading the configuration file gave: its
/// settings when it could be read and parsed, else [`Config::default`]
/// (everything off, an empty pattern).
pub fn config_from_file(parsed: Option<ConfigFields>) -> (c: Config)
    ensures
        match parsed {
            Some(f) => spec_from_fields(f, c),
            None => is_default_config(c),
        },
{
    match parsed {
        Some(f) => Config::from_fields(f),
        None => Config::default(),
    }
}


/// The settings of the very first run: start on login, tray icon and
/// automatic copy on, the default pattern, the rest as [`Config::default`].
pub fn first_run_config() -> (c: Config)
    ensures
        c.start_on_login,
        c.tray_enabled,
        c.theme == Theme::System,
        !c.dyslexia_font,
        c.folder is None,
        c.format == ImageFormat::Png,
        c.pattern@ == spec_default_pattern(),
        c.auto_copy,
{
    let d = Config::default();
    Config { start_on_login: true, tray_enabled: true, pattern: default_pattern(), auto_copy: true, ..d }
}

/// Writing the settings of `c` to a file and reading them back gives `c`
/// again.
pub proof fn lemma_fields_round_trip(c: Config, f: ConfigFields, back: Config)
    requires
        spec_fields_of(c, f),
        spec_from_fields(f, back),
    ensures
        same_config(c, back),
{
}

/// A configuration file that does not mention the tray icon keeps it on.
pub proof fn lemma_missing_tray_setting_keeps_icon(f: ConfigFields, c: Config)
    requires
        f.tray_enabled is None,
        spec_from_fields(f, c),
    ensures
        c.tray_enabled,
{
}

/// `printcher` inside the configuration directory, or, when the
/// environment has none, inside the home directory.
pub open spec fn spec_config_dir(config_home: Option<String>, home: Option<String>) -> Option<Seq<char>> {
    match config_home {
        Some(c) => Some(spec_join(c@, "printcher"@)),
        None => match home {
            Some(h) => Some(spec_join(h@, "printcher"@)),
            None => None,
        },
    }
}

/// The directory of printcher's settings, from the configuration and home
/// directories of the environment; `None` when there is neither.
pub fn config_dir_in(config_home: Option<String>, home: Option<String>) -> (d: Option<String>)
    ensures
        opt_chars(d) == spec_config_dir(config_home, home),
{
    match config_home {
        Some(c) => Some(join_path(c.as_str(), "printcher")),
        None => match home {
            Some(h) => Some(join_path(h.as_str(), "printcher")),
            None => None,
        },
    }
}

/// The directory of printcher's settings (`~/.config/printcher`).
pub fn config_dir() -> (d: Option<String>)
    ensures
        d is Some ==> exists|base: Seq<char>| d->0@ == spec_join(base, "printcher"@),
{
    config_dir_in(config_home(), home_dir())
}

/// The settings file (`~/.config/printcher/config.toml`).
pub fn config_path() -> (p: Option<String>)
    ensures
        p is Some ==> exists|dir: Seq<char>| p->0@ == spec_join(dir, "config.toml"@),
{
    match config_dir() {
        Some(d) => Some(join_path(d.as_str(), "config.toml")),
        None => None,
    }
}

/// The settings file inside the settings directory `dir`.
pub fn config_path_in(dir: &str) -> (p: String)
    ensures
        p@ == spec_join(dir@, "config.toml"@),
{
    join_path(dir, "config.toml")
}

} // verus!
