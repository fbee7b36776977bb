//! The `.desktop` entries that printcher installs: the hidden autostart
//! entry that starts the daemon on login, and the launcher entry of the
//! applications menu that opens the settings.
use vstd::prelude::*;
use crate::paths::{data_home, join_path, opt_chars, spec_join};

verus! {

/// File name of the autostart entry, inside the autostart directory.
pub const AUTOSTART_FILE: &'static str = "printcher.desktop";

/// File name of the launcher entry, inside the applications directory.
pub const LAUNCHER_FILE: &'static str = "com.printcher.Printcher.desktop";

/// The autostart entry for the executable `exe`: hidden from menus, it
/// starts printcher as a daemon (`--daemon`), without capturing.
pub open spec fn spec_autostart_entry(exe: Seq<char>) -> Seq<char> {
    "[Desktop Entry]\nType=Application\nName=printcher\nComment=Captura de tela em segundo plano\nExec="@
        + exe + " --daemon\nX-GNOME-Autostart-enabled=true\nNoDisplay=true\n"@
}

pub fn autostart_entry(exe: &str) -> (contents: String)
    ensures
        contents@ == spec_autostart_entry(exe@),
{
    let mut contents =
        "[Desktop Entry]\nType=Application\nName=printcher\nComment=Captura de tela em segundo plano\nExec="
        .to_owned();
    contents.append(exe);
    contents.append(" --daemon\nX-GNOME-Autostart-enabled=true\nNoDisplay=true\n");
    contents
}

/// The launcher entry for the executable `exe`: visible in the
/// applications menu, it opens the settings (`--settings`), starting the
/// daemon if needed; it does not capture.
pub open spec fn spec_launcher_entry(exe: Seq<char>) -> Seq<char> {
    "[Desktop Entry]\nType=Application\nName=printcher\nComment=Captura de tela e anotação\nExec="@ + exe
        + " --settings\nIcon=camera-photo-symbolic\nTerminal=false\nCategories=Graphics;\n"@
}

pub fn launcher_entry(exe: &str) -> (contents: String)
    ensures
        contents@ == spec_launcher_entry(exe@),
{
    let mut contents = "[Desktop Entry]\nType=Application\nName=printcher\nComment=Captura de tela e anotação\nExec="
        .to_owned();
    contents.append(exe);
    contents.append(" --settings\nIcon=camera-photo-symbolic\nTerminal=false\nCategories=Graphics;\n");
    contents
}

/// `applications` inside the data directory, where launcher entries go.
pub fn applications_dir_in(data_home: Option<String>) -> (d: Option<String>)
    ensures
        opt_chars(d) == crate::paths::spec_subdir(data_home, "applications"@),
{
    match data_home {
        Some(h) => Some(join_path(h.as_str(), "applications")),
        None => None,
    }
}

/// The directory of launcher entries (`~/.local/share/applications`),
/// when the environment has a data directory.
pub fn applications_dir() -> (d: Option<String>)
    ensures
        d is Some ==> exists|base: Seq<char>| d->0@ == spec_join(base, "applications"@),
{
    applications_dir_in(data_home())
}

/// `fonts` inside the data directory, which fontconfig reads, also inside
/// the Flatpak sandbox.
pub fn fonts_dir_in(data_home: Option<String>) -> (d: Option<String>)
    ensures
        opt_chars(d) == crate::paths::spec_subdir(data_home, "fonts"@),
{
    match data_home {
        Some(h) => Some(join_path(h.as_str(), "fonts")),
        None => None,
    }
}

/// The directory where the bundled fonts are written
/// (`$XDG_DATA_HOME/fonts`), when the environment has a data directory.
pub fn fonts_dir() -> (d: Option<String>)
    ensures
        d is Some ==> exists|base: Seq<char>| d->0@ == spec_join(base, "fonts"@),
{
    fonts_dir_in(data_home())
}

} // verus!
