//! File system paths as strings: joining, and the directories of the
//! user's session that the program writes to.
use vstd::prelude::*;
use crate::text::chars_of;

verus! {

/// `base` followed by `name`, as `Path::join` does on Unix: an absolute
/// `name` replaces `base`, and a separator is put between them when `base`
/// does not end with one.
pub open spec fn spec_join(base: Seq<char>, name: Seq<char>) -> Seq<char> {
    if name.len() > 0 && name[0] == '/' {
        name
    } else if base.len() > 0 && base.last() != '/' {
        base + seq!['/'] + name
    } else {
        base + name
    }
}

pub fn join_path(base: &str, name: &str) -> (p: String)
    ensures
        p@ == spec_join(base@, name@),
{
    let name_chars = chars_of(name);
    if name_chars.len() > 0 && name_chars[0] == '/' {
        return name.to_owned();
    }
    let base_chars = chars_of(base);
    let mut p = base.to_owned();
    if base_chars.len() > 0 && base_chars[base_chars.len() - 1] != '/' {
        crate::text::push_char(&mut p, '/');
    }
    p.append(name);
    p
}

/// The user's home directory (`dirs::home_dir`), read from the
/// environment; nothing is promised of it.
#[verifier::external_body]
pub(crate) fn home_dir() -> Option<String> {
    dirs::home_dir().map(|p| p.to_string_lossy().into_owned())
}

/// The user's configuration directory (`dirs::config_dir`), read from the
/// environment; nothing is promised of it.
#[verifier::external_body]
pub(crate) fn config_home() -> Option<String> {
    dirs::config_dir().map(|p| p.to_string_lossy().into_owned())
}

/// The user's data directory (`dirs::data_dir`), read from the
/// environment; nothing is promised of it.
#[verifier::external_body]
pub(crate) fn data_home() -> Option<String> {
    dirs::data_dir().map(|p| p.to_string_lossy().into_owned())
}

/// The user's pictures directory (`dirs::picture_dir`), read from the
/// environment and the user-dirs file; nothing is promised of it.
#[verifier::external_body]
pub(crate) fn picture_dir() -> Option<String> {
    dirs::picture_dir().map(|p| p.to_string_lossy().into_owned())
}

/// The characters of an optional string.
pub open spec fn opt_chars(o: Option<String>) -> Option<Seq<char>> {
    match o {
        Some(s) => Some(s@),
        None => None,
    }
}

/// `name` inside the directory `dir`, when there is one.
pub open spec fn spec_subdir(dir: Option<String>, name: Seq<char>) -> Option<Seq<char>> {
    match dir {
        Some(d) => Some(spec_join(d@, name)),
        None => None,
    }
}

/// `autostart` inside the configuration directory.
pub fn autostart_dir_in(config_home: Option<String>) -> (d: Option<String>)
    ensures
        opt_chars(d) == spec_subdir(config_home, "autostart"@),
{
    match config_home {
        Some(c) => Some(join_path(c.as_str(), "autostart")),
        None => None,
    }
}

/// The directory of autostart entries (`~/.config/autostart`), when the
/// environment has a configuration directory.
pub fn autostart_dir() -> (d: Option<String>)
    ensures
        d is Some ==> exists|base: Seq<char>| d->0@ == spec_join(base, "autostart"@),
{
    autostart_dir_in(config_home())
}

} // verus!
