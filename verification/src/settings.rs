//! Decisions of the settings window: the rows of its choice lists, the
//! "how long ago" labels of the history tab, and which saved captures that
//! tab lists, newest first.
use vstd::prelude::*;
use crate::config::{spec_extension, ImageFormat, Theme};
use crate::text::{chars_of, decimal, push_decimal};

verus! {

/// The row of the format list: PNG, JPG, WebP.
pub open spec fn spec_format_row(format: ImageFormat) -> u32 {
    match format {
        ImageFormat::Png => 0,
        ImageFormat::Jpg => 1,
        ImageFormat::WebP => 2,
    }
}

pub fn format_row(format: ImageFormat) -> (row: u32)
    ensures
        row == spec_format_row(format),
{
    match format {
        ImageFormat::Png => 0,
        ImageFormat::Jpg => 1,
        ImageFormat::WebP => 2,
    }
}

/// The format of a row of the format list; any other row means PNG.
pub open spec fn spec_format_of_row(row: u32) -> ImageFormat {
    if row == 1 {
        ImageFormat::Jpg
    } else if row == 2 {
        ImageFormat::WebP
    } else {
        ImageFormat::Png
    }
}

pub fn format_of_row(row: u32) -> (format: ImageFormat)
    ensures
        format == spec_format_of_row(row),
{
    if row == 1 {
        ImageFormat::Jpg
    } else if row == 2 {
        ImageFormat::WebP
    } else {
        ImageFormat::Png
    }
}

/// The row of the theme list: Light, Dark, System.
pub open spec fn spec_theme_row(theme: Theme) -> u32 {
    match theme {
        Theme::Light => 0,
        Theme::Dark => 1,
        Theme::System => 2,
    }
}

pub fn theme_row(theme: Theme) -> (row: u32)
    ensures
        row == spec_theme_row(theme),
{
    match theme {
        Theme::Light => 0,
        Theme::Dark => 1,
        Theme::System => 2,
    }
}

/// The theme of a row of the theme list; any other row means System.
pub open spec fn spec_theme_of_row(row: u32) -> Theme {
    if row == 0 {
        Theme::Light
    } else if row == 1 {
        Theme::Dark
    } else {
        Theme::System
    }
}

pub fn theme_of_row(row: u32) -> (theme: Theme)
    ensures
        theme == spec_theme_of_row(row),
{
    if row == 0 {
        Theme::Light
    } else if row == 1 {
        Theme::Dark
    } else {
        Theme::System
    }
}

/// Choosing the row that shows a format or a theme chooses that format or
/// theme again: the window shows the saved setting selected, and
/// selecting it saves it unchanged.
pub proof fn lemma_rows_round_trip(format: ImageFormat, theme: Theme)
    ensures
        spec_format_of_row(spec_format_row(format)) == format,
        spec_theme_of_row(spec_theme_row(theme)) == theme,
{
}

/// The format list of the settings window, in its order: "PNG", "JPG",
/// "WebP".
pub open spec fn format_list() -> Seq<ImageFormat> {
    seq![ImageFormat::Png, ImageFormat::Jpg, ImageFormat::WebP]
}

/// The theme list of the settings window, in its order: "Claro",
/// "Escuro", "Sistema".
pub open spec fn theme_list() -> Seq<Theme> {
    seq![Theme::Light, Theme::Dark, Theme::System]
}

/// The row of a format or a theme is its position in the window's list,
/// and each row of the list chooses the entry shown there (any row past
/// the list chooses PNG, or the system's theme). The format chosen on the
/// row labelled "PNG", "JPG" or "WebP" saves files with the extension
/// `png`, `jpg` or `webp`.
pub proof fn lemma_rows_are_list_positions(format: ImageFormat, theme: Theme, row: u32)
    ensures
        spec_format_row(format) < format_list().len(),
        format_list()[spec_format_row(format) as int] == format,
        spec_theme_row(theme) < theme_list().len(),
        theme_list()[spec_theme_row(theme) as int] == theme,
        row < format_list().len() ==> spec_format_of_row(row) == format_list()[row as int],
        row >= format_list().len() ==> spec_format_of_row(row) == ImageFormat::Png,
        row < theme_list().len() ==> spec_theme_of_row(row) == theme_list()[row as int],
        row >= theme_list().len() ==> spec_theme_of_row(row) == Theme::System,
        spec_extension(spec_format_of_row(0)) == "png"@,
        spec_extension(spec_format_of_row(1)) == "jpg"@,
        spec_extension(spec_format_of_row(2)) == "webp"@,
{
    reveal_strlit("png");
    reveal_strlit("jpg");
    reveal_strlit("webp");
}

const MINUTE: u64 = 60;

const HOUR: u64 = 3600;

const DAY: u64 = 86400;

/// How long ago, for the history tab: "agora", "5 min", "2 h", "ontem",
/// "5 dias". `elapsed` is `None` when the clock says the file is from the
/// future.
pub open spec fn spec_relative_time(elapsed: Option<u64>) -> Seq<char> {
    match elapsed {
        None => "agora"@,
        Some(secs) => if secs < 60 {
            "agora"@
        } else if secs < 3600 {
            decimal((secs / 60) as nat) + " min"@
        } else if secs < 86400 {
            decimal((secs / 3600) as nat) + " h"@
        } else if secs < 172800 {
            "ontem"@
        } else {
            decimal((secs / 86400u64) as nat) + " dias"@
        },
    }
}

/// The label of a capture saved `elapsed` seconds ago.
pub fn relative_time(elapsed: Option<u64>) -> (label: String)
    ensures
        label@ == spec_relative_time(elapsed),
{
    let secs = match elapsed {
        None => {
            return "agora".to_owned();
        },
        Some(secs) => secs,
    };
    if secs < MINUTE {
        "agora".to_owned()
    } else if secs < HOUR {
        let mut label = String::new();
        push_decimal(&mut label, secs / MINUTE);
        label.append(" min");
        label
    } else if secs < DAY {
        let mut label = String::new();
        push_decimal(&mut label, secs / HOUR);
        label.append(" h");
        label
    } else if secs < 2 * DAY {
        "ontem".to_owned()
    } else {
        let mut label = String::new();
        push_decimal(&mut label, secs / DAY);
        label.append(" dias");
        label
    }
}


/// `c` with an ASCII upper-case letter turned to lower case.
pub open spec fn ascii_lower(c: char) -> int {
    let v = c as u32;
    if 0x41 <= v <= 0x5A {
        v + 32
    } else {
        v as int
    }
}

/// `s` is `lower`, ignoring ASCII case (`eq_ignore_ascii_case`, with
/// `lower` in lower case).
pub open spec fn eq_ignore_ascii_case(s: Seq<char>, lower: Seq<char>) -> bool {
    &&& s.len() == lower.len()
    &&& forall|i: int| 0 <= i < s.len() ==> ascii_lower(#[trigger] s[i]) == (lower[i] as u32) as int
}

/// The extensions of the files that the history tab lists, whatever their
/// case: png, jpg and webp.
pub open spec fn is_history_extension(ext: Seq<char>) -> bool {
    ||| eq_ignore_ascii_case(ext, "png"@)
    ||| eq_ignore_ascii_case(ext, "jpg"@)
    ||| eq_ignore_ascii_case(ext, "webp"@)
}

fn eq_ignore_case_exec(s: &Vec<char>, lower: &str) -> (b: bool)
    ensures
        b == eq_ignore_ascii_case(s@, lower@),
{
    let l = chars_of(lower);
    if s.len() != l.len() {
        return false;
    }
    let mut i: usize = 0;
    while i < s.len()
        invariant
            i <= s.len(),
            s.len() == l.len(),
            l@ == lower@,
            forall|k: int| 0 <= k < i ==> ascii_lower(#[trigger] s@[k]) == (l@[k] as u32) as int,
        decreases s.len() - i,
    {
        let c = s[i];
        let u = c as u32;
        let v = if 0x41 <= u && u <= 0x5A { u + 32 } else { u };
        assert(v as int == ascii_lower(c));
        if v != l[i] as u32 {
            return false;
        }
        i = i + 1;
    }
    true
}

pub fn history_extension(ext: &str) -> (b: bool)
    ensures
        b == is_history_extension(ext@),
{
    let e = chars_of(ext);
    eq_ignore_case_exec(&e, "png") || eq_ignore_case_exec(&e, "jpg") || eq_ignore_case_exec(&e, "webp")
}

/// Nanoseconds in a second.
pub const NANOS_PER_SECOND: i128 = 1_000_000_000;

/// The whole seconds from `modified` to `now` (both in nanoseconds from
/// the Unix epoch), or `None` when `modified` is later than `now`: the
/// clock then says the file is from the future.
pub open spec fn spec_elapsed_seconds(now: i128, modified: i128) -> Option<u64> {
    if modified > now {
        None
    } else {
        Some(((now - modified) / NANOS_PER_SECOND as int) as u64)
    }
}

/// How many whole seconds ago a file was modified, for its "how long ago"
/// label. The gap must fit a duration, whose seconds are a `u64`.
pub fn elapsed_seconds(now: i128, modified: i128) -> (secs: Option<u64>)
    requires
        now - modified < NANOS_PER_SECOND * 0x1_0000_0000_0000_0000,
    ensures
        secs == spec_elapsed_seconds(now, modified),
        secs matches Some(s) ==> s == (now - modified) / NANOS_PER_SECOND as int,
{
    if modified > now {
        None
    } else {
        let gap: i128 = now - modified;
        Some((gap / NANOS_PER_SECOND) as u64)
    }
}

/// A file of the destination folder, as the history tab sees it.
pub struct FolderFile {
    pub path: String,
    /// The extension of its name, if it has one.
    pub extension: Option<String>,
    /// When it was last modified, in nanoseconds from the Unix epoch
    /// (negative before it); `None` when that could not be read.
    pub modified: Option<i128>,
}

/// A capture listed by the history tab.
pub struct HistoryEntry {
    pub path: String,
    pub modified: i128,
}

/// The history lists the files with a capture's extension whose time of
/// modification can be read.
pub open spec fn is_listed(f: FolderFile) -> bool {
    &&& f.extension matches Some(e) && is_history_extension(e@)
    &&& f.modified is Some
}

/// The entries of the listed files, in the folder's order.
pub open spec fn listed_entries(files: Seq<FolderFile>) -> Seq<(Seq<char>, i128)>
    decreases files.len(),
{
    if files.len() == 0 {
        Seq::empty()
    } else {
        let init = listed_entries(files.drop_last());
        if is_listed(files.last()) {
            init.push((files.last().path@, files.last().modified->0))
        } else {
            init
        }
    }
}

/// `e` put into the newest-first list `s` after every entry that is not
/// older than it.
pub open spec fn insert_newest_first(s: Seq<(Seq<char>, i128)>, e: (Seq<char>, i128)) -> Seq<(Seq<char>, i128)>
    decreases s.len(),
{
    if s.len() == 0 {
        seq![e]
    } else if s[0].1 >= e.1 {
        seq![s[0]] + insert_newest_first(s.skip(1), e)
    } else {
        seq![e] + s
    }
}

/// The entries newest first; entries of the same time keep their order
/// (a stable sort).
pub open spec fn newest_first(s: Seq<(Seq<char>, i128)>) -> Seq<(Seq<char>, i128)>
    decreases s.len(),
{
    if s.len() == 0 {
        s
    } else {
        insert_newest_first(newest_first(s.drop_last()), s.last())
    }
}

/// The path and time of each entry.
pub open spec fn entry_views(v: Seq<HistoryEntry>) -> Seq<(Seq<char>, i128)> {
    v.map_values(|e: HistoryEntry| (e.path@, e.modified))
}

proof fn lemma_insert_at(s: Seq<(Seq<char>, i128)>, e: (Seq<char>, i128), p: int)
    requires
        0 <= p <= s.len(),
        forall|j: int| 0 <= j < p ==> (#[trigger] s[j]).1 >= e.1,
        p == s.len() || s[p].1 < e.1,
    ensures
        insert_newest_first(s, e) == s.take(p) + seq![e] + s.skip(p),
    decreases p,
{
    if p == 0 {
        if s.len() == 0 {
            assert(s.take(0) + seq![e] + s.skip(0) =~= seq![e]);
        } else {
            assert(s.take(0) + seq![e] + s.skip(0) =~= seq![e] + s);
        }
    } else {
        let t = s.skip(1);
        assert forall|j: int| 0 <= j < p - 1 implies (#[trigger] t[j]).1 >= e.1 by {
            assert(t[j] == s[j + 1]);
        }
        lemma_insert_at(t, e, p - 1);
        assert(seq![s[0]] + (t.take(p - 1) + seq![e] + t.skip(p - 1)) =~= s.take(p) + seq![e] + s.skip(p));
    }
}

/// The captures that the history tab lists, newest first: the files with
/// a png, jpg or webp extension (in any case) whose time of modification
/// is known; files of the same time keep the folder's order.
pub fn history_entries(files: Vec<FolderFile>) -> (entries: Vec<HistoryEntry>)
    ensures
        entry_views(entries@) == newest_first(listed_entries(files@)),
{
    let mut entries: Vec<HistoryEntry> = Vec::new();
    let mut i: usize = 0;
    assert(files@.take(0) =~= Seq::<FolderFile>::empty());
    while i < files.len()
        invariant
            i <= files.len(),
            entry_views(entries@) == newest_first(listed_entries(files@.take(i as int))),
        decreases files.len() - i,
    {
        let ghost seen = files@.take(i + 1);
        assert(seen.drop_last() =~= files@.take(i as int));
        assert(seen.last() == files@[i as int]);
        let f = &files[i];
        let listed = match &f.extension {
            Some(e) => history_extension(e.as_str()),
            None => false,
        };
        if listed {
            if let Some(m) = f.modified {
                let mut p: usize = 0;
                while p < entries.len() && entries[p].modified >= m
                    invariant
                        p <= entries.len(),
                        forall|j: int| 0 <= j < p ==> (#[trigger] entries@[j]).modified >= m,
                    decreases entries.len() - p,
                {
                    p = p + 1;
                }
                let ghost before = entry_views(entries@);
                let ghost e = (f.path@, m);
                proof {
                    assert forall|j: int| 0 <= j < p implies (#[trigger] before[j]).1 >= e.1 by {
                        assert(before[j] == (entries@[j].path@, entries@[j].modified));
                    }
                    if p < entries.len() {
                        assert(before[p as int].1 < e.1);
                    }
                    lemma_insert_at(before, e, p as int);
                }
                entries.insert(p, HistoryEntry { path: f.path.clone(), modified: m });
                assert(entry_views(entries@) =~= before.take(p as int) + seq![e] + before.skip(p as int));
                proof {
                    let prev = listed_entries(files@.take(i as int));
                    assert(is_listed(seen.last()));
                    assert(listed_entries(seen) == prev.push(e));
                    assert(prev.push(e).drop_last() =~= prev);
                    assert(prev.push(e).last() == e);
                }
            }
        }
        i = i + 1;
    }
    assert(files@.take(files.len() as int) =~= files@);
    entries
}


/// Newest first: no entry is older than one after it.
pub open spec fn is_newest_first(s: Seq<(Seq<char>, i128)>) -> bool {
    forall|i: int, j: int| 0 <= i < j < s.len() ==> (#[trigger] s[i]).1 >= (#[trigger] s[j]).1
}

proof fn lemma_insert_bounded(s: Seq<(Seq<char>, i128)>, e: (Seq<char>, i128), b: i128)
    requires
        forall|i: int| 0 <= i < s.len() ==> (#[trigger] s[i]).1 <= b,
        e.1 <= b,
    ensures
        forall|i: int|
            0 <= i < insert_newest_first(s, e).len() ==> (#[trigger] insert_newest_first(s, e)[i]).1 <= b,
        insert_newest_first(s, e).len() == s.len() + 1,
    decreases s.len(),
{
    if s.len() > 0 && s[0].1 >= e.1 {
        let t = s.skip(1);
        assert forall|i: int| 0 <= i < t.len() implies (#[trigger] t[i]).1 <= b by {
            assert(t[i] == s[i + 1]);
        }
        lemma_insert_bounded(t, e, b);
        let r = insert_newest_first(s, e);
        assert forall|i: int| 0 <= i < r.len() implies (#[trigger] r[i]).1 <= b by {
            if i > 0 {
                assert(r[i] == insert_newest_first(t, e)[i - 1]);
            }
        }
    }
}

proof fn lemma_insert_keeps_order(s: Seq<(Seq<char>, i128)>, e: (Seq<char>, i128))
    requires
        is_newest_first(s),
    ensures
        is_newest_first(insert_newest_first(s, e)),
        insert_newest_first(s, e).to_multiset() == s.to_multiset().insert(e),
    decreases s.len(),
{
    broadcast use vstd::seq_lib::group_to_multiset_ensures;
    broadcast use vstd::multiset::group_multiset_axioms;

    let r = insert_newest_first(s, e);
    if s.len() == 0 {
        assert(seq![e] =~= Seq::<(Seq<char>, i128)>::empty().push(e));
    } else if s[0].1 >= e.1 {
        let t = s.skip(1);
        assert(is_newest_first(t)) by {
            assert forall|i: int, j: int| 0 <= i < j < t.len() implies (#[trigger] t[i]).1 >= (
            #[trigger] t[j]).1 by {
                assert(t[i] == s[i + 1]);
                assert(t[j] == s[j + 1]);
            }
        }
        lemma_insert_keeps_order(t, e);
        assert forall|i: int| 0 <= i < t.len() implies (#[trigger] t[i]).1 <= s[0].1 by {
            assert(t[i] == s[i + 1]);
        }
        lemma_insert_bounded(t, e, s[0].1);
        let it = insert_newest_first(t, e);
        assert forall|i: int, j: int| 0 <= i < j < r.len() implies (#[trigger] r[i]).1 >= (
        #[trigger] r[j]).1 by {
            assert(r[j] == it[j - 1]);
            if i > 0 {
                assert(r[i] == it[i - 1]);
            }
        }
        vstd::seq_lib::lemma_multiset_commutative(seq![s[0]], it);
        vstd::seq_lib::lemma_multiset_commutative(seq![s[0]], t);
        assert(seq![s[0]] + t =~= s);
        assert(seq![s[0]].to_multiset() =~= Seq::<(Seq<char>, i128)>::empty().push(s[0]).to_multiset()) by {
            assert(seq![s[0]] =~= Seq::<(Seq<char>, i128)>::empty().push(s[0]));
        }
    } else {
        assert forall|i: int, j: int| 0 <= i < j < r.len() implies (#[trigger] r[i]).1 >= (
        #[trigger] r[j]).1 by {
            assert(r[j] == s[j - 1]);
            if i > 0 {
                assert(r[i] == s[i - 1]);
            } else {
                assert(s[0].1 >= s[j - 1].1) by {
                    if j - 1 > 0 {
                        assert(s[0].1 >= s[j - 1].1);
                    }
                }
            }
        }
        vstd::seq_lib::lemma_multiset_commutative(seq![e], s);
        assert(seq![e] =~= Seq::<(Seq<char>, i128)>::empty().push(e));
    }
}

/// The history is listed newest first, and holds each listed capture once:
/// the same entries as the folder, in another order.
pub proof fn lemma_history_newest_first(s: Seq<(Seq<char>, i128)>)
    ensures
        is_newest_first(newest_first(s)),
        newest_first(s).to_multiset() == s.to_multiset(),
    decreases s.len(),
{
    broadcast use vstd::seq_lib::group_to_multiset_ensures;

    if s.len() > 0 {
        lemma_history_newest_first(s.drop_last());
        lemma_insert_keeps_order(newest_first(s.drop_last()), s.last());
        assert(s.drop_last().push(s.last()) =~= s);
    }
}

} // verus!
