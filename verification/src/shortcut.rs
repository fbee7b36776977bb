//! The GNOME custom keybinding of printcher: reading and writing the list
//! of keybinding paths in the text form of `gsettings`, and deciding what
//! to write to add or remove printcher's entry.
use vstd::prelude::*;
use crate::paths::opt_chars;
use crate::text::{chars_of, push_char, replace_all, replace_all_chars, string_from_chars};

verus! {

pub const SCHEMA: &'static str = "org.gnome.settings-daemon.plugins.media-keys";

pub const KEYBINDING_SCHEMA: &'static str = "org.gnome.settings-daemon.plugins.media-keys.custom-keybinding";

pub const PATH: &'static str = "/org/gnome/settings-daemon/plugins/media-keys/custom-keybindings/printcher/";

pub const NAME: &'static str = "printcher";

pub const DEFAULT_BINDING: &'static str = "<Control><Super>p";

/// The characters with the Unicode `White_Space` property, those that
/// `char::is_whitespace` accepts.
pub open spec fn is_ws(c: char) -> bool {
    let v = c as u32;
    ||| 0x09 <= v <= 0x0D
    ||| v == 0x20
    ||| v == 0x85
    ||| v == 0xA0
    ||| v == 0x1680
    ||| 0x2000 <= v <= 0x200A
    ||| v == 0x2028
    ||| v == 0x2029
    ||| v == 0x202F
    ||| v == 0x205F
    ||| v == 0x3000
}

/// What a strip removes: white space, or one given character.
#[derive(Clone, Copy)]
pub enum Strip {
    Whitespace,
    Char(char),
}

pub open spec fn strips(w: Strip, c: char) -> bool {
    match w {
        Strip::Whitespace => is_ws(c),
        Strip::Char(d) => c == d,
    }
}

fn strips_exec(w: Strip, c: char) -> (b: bool)
    ensures
        b == strips(w, c),
{
    match w {
        Strip::Whitespace => {
            let v = c as u32;
            (0x09 <= v && v <= 0x0D) || v == 0x20 || v == 0x85 || v == 0xA0 || v == 0x1680 || (0x2000 <= v
                && v <= 0x200A) || v == 0x2028 || v == 0x2029 || v == 0x202F || v == 0x205F || v == 0x3000
        },
        Strip::Char(d) => c == d,
    }
}

/// `s` without the characters that `w` strips at its start.
pub open spec fn strip_start(s: Seq<char>, w: Strip) -> Seq<char>
    decreases s.len(),
{
    if s.len() > 0 && strips(w, s[0]) {
        strip_start(s.skip(1), w)
    } else {
        s
    }
}

/// `s` without the characters that `w` strips at its end.
pub open spec fn strip_end(s: Seq<char>, w: Strip) -> Seq<char>
    decreases s.len(),
{
    if s.len() > 0 && strips(w, s.last()) {
        strip_end(s.drop_last(), w)
    } else {
        s
    }
}

/// `s` without the characters that `w` strips at either end
/// (`trim`, `trim_matches`).
pub open spec fn strip_both(s: Seq<char>, w: Strip) -> Seq<char> {
    strip_end(strip_start(s, w), w)
}

pub open spec fn trim(s: Seq<char>) -> Seq<char> {
    strip_both(s, Strip::Whitespace)
}

proof fn lemma_strip_start_at(s: Seq<char>, w: Strip, k: int)
    requires
        0 <= k <= s.len(),
        forall|j: int| 0 <= j < k ==> strips(w, #[trigger] s[j]),
        k == s.len() || !strips(w, s[k]),
    ensures
        strip_start(s, w) == s.skip(k),
    decreases k,
{
    if k == 0 {
        assert(s.skip(0) =~= s);
    } else {
        assert forall|j: int| 0 <= j < k - 1 implies strips(w, #[trigger] s.skip(1)[j]) by {
            assert(s.skip(1)[j] == s[j + 1]);
        }
        lemma_strip_start_at(s.skip(1), w, k - 1);
        assert(s.skip(1).skip(k - 1) =~= s.skip(k));
    }
}

proof fn lemma_strip_end_at(s: Seq<char>, w: Strip, k: int)
    requires
        0 <= k <= s.len(),
        forall|j: int| k <= j < s.len() ==> strips(w, #[trigger] s[j]),
        k == 0 || !strips(w, s[k - 1]),
    ensures
        strip_end(s, w) == s.take(k),
    decreases s.len() - k,
{
    if k == s.len() {
        assert(s.take(k) =~= s);
    } else {
        assert forall|j: int| k <= j < s.len() - 1 implies strips(w, #[trigger] s.drop_last()[j]) by {
            assert(s.drop_last()[j] == s[j]);
        }
        lemma_strip_end_at(s.drop_last(), w, k);
        assert(s.drop_last().take(k) =~= s.take(k));
    }
}

/// `s[lo..hi]`.
fn copy_range(s: &Vec<char>, lo: usize, hi: usize) -> (v: Vec<char>)
    requires
        lo <= hi <= s.len(),
    ensures
        v@ == s@.subrange(lo as int, hi as int),
{
    let mut v: Vec<char> = Vec::new();
    let mut i = lo;
    while i < hi
        invariant
            lo <= i <= hi <= s.len(),
            v@ == s@.subrange(lo as int, i as int),
        decreases hi - i,
    {
        v.push(s[i]);
        assert(s@.subrange(lo as int, i + 1) =~= s@.subrange(lo as int, i as int).push(s@[i as int]));
        i = i + 1;
    }
    v
}

fn strip_start_chars(s: &Vec<char>, w: Strip) -> (v: Vec<char>)
    ensures
        v@ == strip_start(s@, w),
{
    let mut lo: usize = 0;
    while lo < s.len() && strips_exec(w, s[lo])
        invariant
            lo <= s.len(),
            forall|j: int| 0 <= j < lo ==> strips(w, #[trigger] s@[j]),
        decreases s.len() - lo,
    {
        lo = lo + 1;
    }
    proof {
        lemma_strip_start_at(s@, w, lo as int);
        assert(s@.skip(lo as int) =~= s@.subrange(lo as int, s.len() as int));
    }
    copy_range(s, lo, s.len())
}

fn strip_end_chars(s: &Vec<char>, w: Strip) -> (v: Vec<char>)
    ensures
        v@ == strip_end(s@, w),
{
    let mut hi: usize = s.len();
    while hi > 0 && strips_exec(w, s[hi - 1])
        invariant
            hi <= s.len(),
            forall|j: int| hi <= j < s.len() ==> strips(w, #[trigger] s@[j]),
        decreases hi,
    {
        hi = hi - 1;
    }
    proof {
        lemma_strip_end_at(s@, w, hi as int);
        assert(s@.take(hi as int) =~= s@.subrange(0, hi as int));
    }
    copy_range(s, 0, hi)
}

fn strip_both_chars(s: &Vec<char>, w: Strip) -> (v: Vec<char>)
    ensures
        v@ == strip_both(s@, w),
{
    let t = strip_start_chars(s, w);
    strip_end_chars(&t, w)
}

/// The pieces of `s` between commas (as `str::split(',')`: one piece more
/// than there are commas).
pub open spec fn split_commas(s: Seq<char>) -> Seq<Seq<char>>
    decreases s.len(),
{
    if s.len() == 0 {
        seq![Seq::empty()]
    } else {
        let init = split_commas(s.drop_last());
        if s.last() == ',' {
            init.push(Seq::empty())
        } else {
            init.update(init.len() - 1, init.last().push(s.last()))
        }
    }
}

proof fn lemma_split_nonempty(s: Seq<char>)
    ensures
        split_commas(s).len() >= 1,
    decreases s.len(),
{
    if s.len() > 0 {
        lemma_split_nonempty(s.drop_last());
    }
}

/// The `gsettings` text of a path array, such as `['/a/', '/b/']` or
/// `@as []`, read as its paths: white space around the array and its items
/// is dropped, and so are the quotes around each item.
pub open spec fn spec_parse_path_array(raw: Seq<char>) -> Seq<Seq<char>> {
    let r = trim(raw);
    let r = if r.len() >= 3 && r.take(3) == seq!['@', 'a', 's'] {
        trim(r.skip(3))
    } else {
        r
    };
    let inner = trim(strip_end(strip_start(r, Strip::Char('[')), Strip::Char(']')));
    if inner.len() == 0 {
        Seq::empty()
    } else {
        split_commas(inner).map_values(|piece: Seq<char>| strip_both(trim(piece), Strip::Char('\'')))
    }
}

/// The characters of each string.
pub open spec fn views(v: Seq<String>) -> Seq<Seq<char>> {
    v.map_values(|s: String| s@)
}

/// The characters of each vector.
pub open spec fn vec_views(v: Seq<Vec<char>>) -> Seq<Seq<char>> {
    v.map_values(|p: Vec<char>| p@)
}

fn split_commas_chars(s: &Vec<char>) -> (pieces: Vec<Vec<char>>)
    ensures
        vec_views(pieces@) == split_commas(s@),
{
    let mut done: Vec<Vec<char>> = Vec::new();
    let mut cur: Vec<char> = Vec::new();
    let mut i: usize = 0;
    assert(s@.take(0) =~= Seq::<char>::empty());
    assert(vec_views(done@).push(cur@) =~= split_commas(s@.take(0)));
    while i < s.len()
        invariant
            i <= s.len(),
            vec_views(done@).push(cur@) == split_commas(s@.take(i as int)),
        decreases s.len() - i,
    {
        let ghost prev = s@.take(i as int);
        let ghost d0 = vec_views(done@);
        let ghost c0 = cur@;
        assert(s@.take(i + 1).drop_last() =~= prev);
        assert(s@.take(i + 1).last() == s@[i as int]);
        if s[i] == ',' {
            done.push(cur);
            cur = Vec::new();
            assert(vec_views(done@) =~= d0.push(c0));
        } else {
            cur.push(s[i]);
        }
        assert(vec_views(done@).push(cur@) =~= split_commas(s@.take(i + 1)));
        i = i + 1;
    }
    let ghost d0 = vec_views(done@);
    done.push(cur);
    assert(s@.take(s.len() as int) =~= s@);
    assert(vec_views(done@) =~= d0.push(cur@));
    done
}


/// Reads the text that `gsettings get` prints for a path array, such as
/// `['/a/', '/b/']` or `@as []`.
pub fn parse_path_array(raw: &str) -> (paths: Vec<String>)
    ensures
        views(paths@) == spec_parse_path_array(raw@),
{
    let s = chars_of(raw);
    let r = strip_both_chars(&s, Strip::Whitespace);
    let r = if r.len() >= 3 && r[0] == '@' && r[1] == 'a' && r[2] == 's' {
        assert(r@.take(3) =~= seq!['@', 'a', 's']);
        let rest = copy_range(&r, 3, r.len());
        assert(rest@ =~= r@.skip(3));
        strip_both_chars(&rest, Strip::Whitespace)
    } else {
        proof {
            if r@.len() >= 3 && r@.take(3) == seq!['@', 'a', 's'] {
                assert(r@[0] == r@.take(3)[0]);
                assert(r@[1] == r@.take(3)[1]);
                assert(r@[2] == r@.take(3)[2]);
            }
        }
        r
    };
    let a = strip_start_chars(&r, Strip::Char('['));
    let b = strip_end_chars(&a, Strip::Char(']'));
    let inner = strip_both_chars(&b, Strip::Whitespace);
    let mut paths: Vec<String> = Vec::new();
    if inner.len() == 0 {
        assert(views(paths@) =~= Seq::<Seq<char>>::empty());
        return paths;
    }
    let pieces = split_commas_chars(&inner);
    let ghost target = split_commas(inner@).map_values(
        |piece: Seq<char>| strip_both(trim(piece), Strip::Char('\'')),
    );
    let mut j: usize = 0;
    while j < pieces.len()
        invariant
            j <= pieces.len(),
            vec_views(pieces@) == split_commas(inner@),
            target == split_commas(inner@).map_values(
                |piece: Seq<char>| strip_both(trim(piece), Strip::Char('\'')),
            ),
            views(paths@) == target.take(j as int),
        decreases pieces.len() - j,
    {
        let t = strip_both_chars(&pieces[j], Strip::Whitespace);
        let q = strip_both_chars(&t, Strip::Char('\''));
        let ghost v0 = views(paths@);
        paths.push(string_from_chars(&q));
        assert(vec_views(pieces@)[j as int] == pieces@[j as int]@);
        assert(views(paths@) =~= v0.push(q@));
        assert(target.take(j + 1) =~= target.take(j as int).push(target[j as int]));
        j = j + 1;
    }
    assert(target.take(pieces.len() as int) =~= target);
    paths
}

/// A value quoted for `gsettings`: in single quotes, with the single quotes
/// inside escaped by a backslash.
pub open spec fn spec_quote(s: Seq<char>) -> Seq<char> {
    seq!['\''] + replace_all(s, seq!['\''], seq!['\\', '\'']) + seq!['\'']
}

pub fn quote(value: &str) -> (q: String)
    ensures
        q@ == spec_quote(value@),
{
    let v = chars_of(value);
    let pat = vec!['\''];
    let rep = vec!['\\', '\''];
    assert(pat@ =~= seq!['\'']);
    assert(rep@ =~= seq!['\\', '\'']);
    let escaped = replace_all_chars(&v, &pat, &rep);
    let mut q = String::new();
    push_char(&mut q, '\'');
    let e = string_from_chars(&escaped);
    q.append(e.as_str());
    push_char(&mut q, '\'');
    assert(q@ =~= spec_quote(value@));
    q
}

/// The items separated by `sep`.
pub open spec fn join_with(items: Seq<Seq<char>>, sep: Seq<char>) -> Seq<char>
    decreases items.len(),
{
    if items.len() == 0 {
        Seq::empty()
    } else if items.len() == 1 {
        items[0]
    } else {
        join_with(items.drop_last(), sep) + sep + items.last()
    }
}

/// A path array in the text form that `gsettings set` reads:
/// `['/a/', '/b/']`.
pub open spec fn spec_format_path_array(paths: Seq<Seq<char>>) -> Seq<char> {
    seq!['['] + join_with(paths.map_values(|p: Seq<char>| spec_quote(p)), seq![',', ' ']) + seq![']']
}

pub fn format_path_array(paths: &[String]) -> (text: String)
    ensures
        text@ == spec_format_path_array(views(paths@)),
{
    let ghost quoted = views(paths@).map_values(|p: Seq<char>| spec_quote(p));
    let mut body = String::new();
    let mut i: usize = 0;
    while i < paths.len()
        invariant
            i <= paths.len(),
            quoted == views(paths@).map_values(|p: Seq<char>| spec_quote(p)),
            body@ == join_with(quoted.take(i as int), seq![',', ' ']),
        decreases paths.len() - i,
    {
        let q = quote(paths[i].as_str());
        let ghost before = body@;
        if i > 0 {
            push_char(&mut body, ',');
            push_char(&mut body, ' ');
        }
        body.append(q.as_str());
        proof {
            let t = quoted.take(i + 1);
            assert(t.drop_last() =~= quoted.take(i as int));
            assert(t.last() == q@);
            if i == 0 {
                assert(body@ =~= join_with(t, seq![',', ' ']));
            } else {
                assert(body@ =~= join_with(t, seq![',', ' ']));
            }
        }
        i = i + 1;
    }
    assert(quoted.take(paths.len() as int) =~= quoted);
    let mut text = String::new();
    push_char(&mut text, '[');
    text.append(body.as_str());
    push_char(&mut text, ']');
    assert(text@ =~= spec_format_path_array(views(paths@)));
    text
}


/// A path that survives being written and read back: no comma, no single
/// quote, and no white space at either end.
pub open spec fn plain_path(p: Seq<char>) -> bool {
    &&& !p.contains(',')
    &&& !p.contains('\'')
    &&& (p.len() > 0 ==> !is_ws(p[0]) && !is_ws(p.last()))
}

proof fn lemma_no_char_subrange(s: Seq<char>, c: char)
    requires
        !s.contains(c),
    ensures
        forall|i: int| 0 <= i && i + 1 <= s.len() ==> #[trigger] s.subrange(i, i + 1) != seq![c],
{
    assert forall|i: int| 0 <= i && i + 1 <= s.len() implies #[trigger] s.subrange(i, i + 1) != seq![c] by {
        if s.subrange(i, i + 1) == seq![c] {
            assert(s[i] == s.subrange(i, i + 1)[0]);
        }
    }
}

proof fn lemma_quote_plain(p: Seq<char>)
    requires
        plain_path(p),
    ensures
        spec_quote(p) == seq!['\''] + p + seq!['\''],
{
    lemma_no_char_subrange(p, '\'');
    crate::text::lemma_replace_absent(p, seq!['\''], seq!['\\', '\'']);
}

proof fn lemma_split_no_comma(y: Seq<char>)
    requires
        !y.contains(','),
    ensures
        split_commas(y) == seq![y],
    decreases y.len(),
{
    if y.len() > 0 {
        assert(!y.drop_last().contains(',')) by {
            if y.drop_last().contains(',') {
                let k = choose|k: int| 0 <= k < y.drop_last().len() && y.drop_last()[k] == ',';
                assert(y[k] == ',');
            }
        }
        lemma_split_no_comma(y.drop_last());
        assert(y.last() != ',') by {
            assert(y[y.len() - 1] == y.last());
        }
        assert(y.drop_last().push(y.last()) =~= y);
        assert(seq![y.drop_last()].update(0, y.drop_last().push(y.last())) =~= seq![y]);
    } else {
        assert(y =~= Seq::<char>::empty());
    }
}

proof fn lemma_split_after_comma(x: Seq<char>, y: Seq<char>)
    requires
        !y.contains(','),
    ensures
        split_commas(x + seq![','] + y) == split_commas(x).push(y),
    decreases y.len(),
{
    if y.len() == 0 {
        assert(y =~= Seq::<char>::empty());
        assert(x + seq![','] + y =~= x.push(','));
        assert((x.push(',')).drop_last() =~= x);
        assert((x.push(',')).last() == ',');
    } else {
        let y0 = y.drop_last();
        assert(!y0.contains(',')) by {
            if y0.contains(',') {
                let k = choose|k: int| 0 <= k < y0.len() && y0[k] == ',';
                assert(y[k] == ',');
            }
        }
        lemma_split_after_comma(x, y0);
        let s = x + seq![','] + y;
        assert(s.drop_last() =~= x + seq![','] + y0);
        assert(s.last() == y.last());
        assert(y.last() != ',') by {
            assert(y[y.len() - 1] == y.last());
        }
        lemma_split_nonempty(x);
        assert(y0.push(y.last()) =~= y);
        assert(split_commas(x).push(y0).update(split_commas(x).len() as int, y0.push(y.last())) =~= split_commas(
            x,
        ).push(y));
        assert(y0.push(y.last()) =~= y);
    }
}

/// The text between the brackets of a formatted array of at least one path.
spec fn quoted_items(paths: Seq<Seq<char>>) -> Seq<Seq<char>> {
    paths.map_values(|p: Seq<char>| spec_quote(p))
}

/// The pieces between the commas of the joined quoted paths: the first
/// quoted path, then each next one after the space of its separator.
proof fn lemma_split_joined(paths: Seq<Seq<char>>)
    requires
        paths.len() > 0,
        forall|i: int| 0 <= i < paths.len() ==> plain_path(#[trigger] paths[i]),
    ensures
        split_commas(join_with(quoted_items(paths), seq![',', ' '])) == Seq::new(
            paths.len(),
            |i: int|
                if i == 0 {
                    seq!['\''] + paths[i] + seq!['\'']
                } else {
                    seq![' ', '\''] + paths[i] + seq!['\'']
                },
        ),
        join_with(quoted_items(paths), seq![',', ' '])[0] == '\'',
        join_with(quoted_items(paths), seq![',', ' ']).last() == '\'',
        join_with(quoted_items(paths), seq![',', ' ']).len() >= 2,
    decreases paths.len(),
{
    let q = quoted_items(paths);
    let n = paths.len();
    lemma_quote_plain(paths[n - 1]);
    let last_piece = seq!['\''] + paths[n - 1] + seq!['\''];
    assert(q.last() == last_piece);
    let target = Seq::new(
        n,
        |i: int|
            if i == 0 {
                seq!['\''] + paths[i] + seq!['\'']
            } else {
                seq![' ', '\''] + paths[i] + seq!['\'']
            },
    );
    if n == 1 {
        assert(join_with(q, seq![',', ' ']) == last_piece);
        assert(!last_piece.contains(',')) by {
            if last_piece.contains(',') {
                let k = choose|k: int| 0 <= k < last_piece.len() && last_piece[k] == ',';
                assert(paths[0][k - 1] == ',');
            }
        }
        lemma_split_no_comma(last_piece);
        assert(split_commas(last_piece) =~= target);
    } else {
        let init = paths.drop_last();
        assert forall|i: int| 0 <= i < init.len() implies plain_path(#[trigger] init[i]) by {
            assert(init[i] == paths[i]);
        }
        lemma_split_joined(init);
        assert(quoted_items(init) =~= q.drop_last());
        let j0 = join_with(q.drop_last(), seq![',', ' ']);
        let y = seq![' '] + last_piece;
        assert(join_with(q, seq![',', ' ']) =~= j0 + seq![','] + y);
        assert(!y.contains(',')) by {
            if y.contains(',') {
                let k = choose|k: int| 0 <= k < y.len() && y[k] == ',';
                assert(paths[n - 1][k - 2] == ',');
            }
        }
        lemma_split_after_comma(j0, y);
        assert(y =~= seq![' ', '\''] + paths[n - 1] + seq!['\'']);
        assert forall|i: int| 0 <= i < n implies #[trigger] split_commas(j0).push(y)[i] == target[i] by {
            if i < n - 1 {
                assert(init[i] == paths[i]);
            }
        }
        assert(split_commas(j0).push(y) =~= target);
    }
}

proof fn lemma_piece_reads_back(p: Seq<char>, piece: Seq<char>, first: bool)
    requires
        plain_path(p),
        piece == if first {
            seq!['\''] + p + seq!['\'']
        } else {
            seq![' ', '\''] + p + seq!['\'']
        },
    ensures
        strip_both(trim(piece), Strip::Char('\'')) == p,
{
    let quoted = seq!['\''] + p + seq!['\''];
    let ws = Strip::Whitespace;
    let qu = Strip::Char('\'');
    if first {
        lemma_strip_start_at(piece, ws, 0);
        assert(piece.skip(0) =~= piece);
    } else {
        lemma_strip_start_at(piece, ws, 1);
        assert(piece.skip(1) =~= quoted);
    }
    lemma_strip_end_at(quoted, ws, quoted.len() as int);
    assert(quoted.take(quoted.len() as int) =~= quoted);
    if p.len() == 0 {
        lemma_strip_start_at(quoted, qu, 2);
        assert(quoted.skip(2) =~= Seq::<char>::empty());
    } else {
        assert(p[0] != '\'') by {
            assert(p.contains(p[0]));
        }
        assert(p.last() != '\'') by {
            assert(p[p.len() - 1] == p.last());
            assert(p.contains(p[p.len() - 1]));
        }
        lemma_strip_start_at(quoted, qu, 1);
        let rest = quoted.skip(1);
        assert(rest =~= p + seq!['\'']);
        lemma_strip_end_at(rest, qu, p.len() as int);
        assert(rest.take(p.len() as int) =~= p);
    }
}

/// Writing a list of plain paths and reading it back gives the same list.
pub proof fn lemma_parse_format_round_trip(paths: Seq<Seq<char>>)
    requires
        forall|i: int| 0 <= i < paths.len() ==> plain_path(#[trigger] paths[i]),
    ensures
        spec_parse_path_array(spec_format_path_array(paths)) == paths,
{
    let raw = spec_format_path_array(paths);
    let ws = Strip::Whitespace;
    let j = join_with(quoted_items(paths), seq![',', ' ']);
    assert(raw =~= seq!['['] + j + seq![']']);
    lemma_strip_start_at(raw, ws, 0);
    assert(raw.skip(0) =~= raw);
    lemma_strip_end_at(raw, ws, raw.len() as int);
    assert(raw.take(raw.len() as int) =~= raw);
    assert(trim(raw) == raw);
    assert(!(raw.len() >= 3 && raw.take(3) == seq!['@', 'a', 's'])) by {
        if raw.len() >= 3 && raw.take(3) == seq!['@', 'a', 's'] {
            assert(raw.take(3)[0] == raw[0]);
        }
    }
    if paths.len() == 0 {
        assert(j =~= Seq::<char>::empty());
        lemma_strip_start_at(raw, Strip::Char('['), 1);
        let a = raw.skip(1);
        assert(a =~= seq![']']);
        lemma_strip_end_at(a, Strip::Char(']'), 0);
        assert(a.take(0) =~= Seq::<char>::empty());
        lemma_strip_start_at(Seq::<char>::empty(), ws, 0);
        lemma_strip_end_at(Seq::<char>::empty(), ws, 0);
        assert(Seq::<char>::empty().skip(0) =~= Seq::<char>::empty());
        assert(Seq::<char>::empty().take(0) =~= Seq::<char>::empty());
        assert(spec_parse_path_array(raw) =~= paths);
    } else {
        lemma_split_joined(paths);
        lemma_strip_start_at(raw, Strip::Char('['), 1);
        let a = raw.skip(1);
        assert(a =~= j + seq![']']);
        lemma_strip_end_at(a, Strip::Char(']'), j.len() as int);
        assert(a.take(j.len() as int) =~= j);
        lemma_strip_start_at(j, ws, 0);
        assert(j.skip(0) =~= j);
        lemma_strip_end_at(j, ws, j.len() as int);
        assert(j.take(j.len() as int) =~= j);
        let pieces = split_commas(j);
        let back = pieces.map_values(|piece: Seq<char>| strip_both(trim(piece), Strip::Char('\'')));
        assert forall|i: int| 0 <= i < paths.len() implies #[trigger] back[i] == paths[i] by {
            lemma_piece_reads_back(paths[i], pieces[i], i == 0);
        }
        assert(back =~= paths);
    }
}


/// `paths` without the ones equal to `x`.
pub open spec fn without(paths: Seq<Seq<char>>, x: Seq<char>) -> Seq<Seq<char>>
    decreases paths.len(),
{
    if paths.len() == 0 {
        paths
    } else {
        let init = without(paths.drop_last(), x);
        if paths.last() == x {
            init
        } else {
            init.push(paths.last())
        }
    }
}

/// What to write to add printcher's keybinding to the list `current`
/// printed by `gsettings get`: the list with printcher's path at its end,
/// or nothing when the path is already there.
pub open spec fn spec_install_update(current: Seq<char>) -> Option<Seq<char>> {
    let paths = spec_parse_path_array(current);
    if paths.contains(PATH@) {
        None
    } else {
        Some(spec_format_path_array(paths.push(PATH@)))
    }
}

/// What to write to remove printcher's keybinding from the list
/// `current`: the list without printcher's path, or nothing when it was
/// not there.
pub open spec fn spec_uninstall_update(current: Seq<char>) -> Option<Seq<char>> {
    let paths = spec_parse_path_array(current);
    let kept = without(paths, PATH@);
    if kept.len() == paths.len() {
        None
    } else {
        Some(spec_format_path_array(kept))
    }
}

fn contains_path(paths: &Vec<String>, path: &String) -> (b: bool)
    ensures
        b == views(paths@).contains(path@),
{
    let mut i: usize = 0;
    while i < paths.len()
        invariant
            i <= paths.len(),
            forall|k: int| 0 <= k < i ==> paths@[k]@ != path@,
        decreases paths.len() - i,
    {
        if paths[i] == *path {
            assert(views(paths@)[i as int] == path@);
            return true;
        }
        i = i + 1;
    }
    proof {
        if views(paths@).contains(path@) {
            let k = choose|k: int| 0 <= k < views(paths@).len() && views(paths@)[k] == path@;
            assert(paths@[k]@ == path@);
        }
    }
    false
}

/// The new value of the keybinding list when installing printcher's
/// keybinding, or `None` when the list already holds it.
pub fn keybindings_after_install(current: &str) -> (r: Option<String>)
    ensures
        opt_chars(r) == spec_install_update(current@),
{
    let mut paths = parse_path_array(current);
    let path = PATH.to_owned();
    if contains_path(&paths, &path) {
        return None;
    }
    let ghost before = views(paths@);
    paths.push(path);
    assert(views(paths@) =~= before.push(PATH@));
    Some(format_path_array(paths.as_slice()))
}

/// The new value of the keybinding list when removing printcher's
/// keybinding, or `None` when the list does not hold it.
pub fn keybindings_after_uninstall(current: &str) -> (r: Option<String>)
    ensures
        opt_chars(r) == spec_uninstall_update(current@),
{
    let paths = parse_path_array(current);
    let path = PATH.to_owned();
    let mut kept: Vec<String> = Vec::new();
    let mut i: usize = 0;
    while i < paths.len()
        invariant
            i <= paths.len(),
            path@ == PATH@,
            views(kept@) == without(views(paths@).take(i as int), PATH@),
        decreases paths.len() - i,
    {
        let ghost t = views(paths@).take(i + 1);
        assert(t.drop_last() =~= views(paths@).take(i as int));
        assert(t.last() == paths@[i as int]@);
        if paths[i] != path {
            let ghost k0 = views(kept@);
            kept.push(paths[i].clone());
            assert(views(kept@) =~= k0.push(paths@[i as int]@));
        }
        i = i + 1;
    }
    assert(views(paths@).take(paths.len() as int) =~= views(paths@));
    if kept.len() == paths.len() {
        None
    } else {
        Some(format_path_array(kept.as_slice()))
    }
}

proof fn lemma_without_absent(paths: Seq<Seq<char>>, x: Seq<char>)
    requires
        !paths.contains(x),
    ensures
        without(paths, x) == paths,
    decreases paths.len(),
{
    if paths.len() > 0 {
        assert(!paths.drop_last().contains(x)) by {
            if paths.drop_last().contains(x) {
                let k = choose|k: int| 0 <= k < paths.drop_last().len() && paths.drop_last()[k] == x;
                assert(paths[k] == x);
            }
        }
        lemma_without_absent(paths.drop_last(), x);
        assert(paths.last() != x) by {
            assert(paths[paths.len() - 1] == paths.last());
        }
        assert(paths.drop_last().push(paths.last()) =~= paths);
    }
}

/// printcher's keybinding path is plain: it is written and read back as
/// it is.
proof fn lemma_path_is_plain()
    ensures
        plain_path(PATH@),
{
    reveal_strlit("/org/gnome/settings-daemon/plugins/media-keys/custom-keybindings/printcher/");
    let p = PATH@;
    assert(!p.contains(',')) by {
        if p.contains(',') {
            let k = choose|k: int| 0 <= k < p.len() && p[k] == ',';
        }
    }
    assert(!p.contains('\'')) by {
        if p.contains('\'') {
            let k = choose|k: int| 0 <= k < p.len() && p[k] == '\'';
        }
    }
}

/// Installing printcher's keybinding and then removing it gives back the
/// list of keybindings there was before, for a list of plain paths without
/// printcher's.
pub proof fn lemma_install_then_uninstall_restores(current: Seq<char>)
    requires
        forall|i: int|
            0 <= i < spec_parse_path_array(current).len() ==> plain_path(
                #[trigger] spec_parse_path_array(current)[i],
            ),
        !spec_parse_path_array(current).contains(PATH@),
    ensures
        spec_install_update(current) matches Some(t) && spec_uninstall_update(t) matches Some(u)
            && spec_parse_path_array(u) == spec_parse_path_array(current),
{
    let paths = spec_parse_path_array(current);
    let added = paths.push(PATH@);
    lemma_path_is_plain();
    assert forall|i: int| 0 <= i < added.len() implies plain_path(#[trigger] added[i]) by {
        if i < paths.len() {
            assert(added[i] == paths[i]);
        }
    }
    lemma_parse_format_round_trip(added);
    let t = spec_format_path_array(added);
    lemma_without_absent(paths, PATH@);
    assert(added.drop_last() =~= paths);
    assert(without(added, PATH@) == paths);
    lemma_parse_format_round_trip(paths);
}

/// Installing printcher's keybinding a second time changes nothing, for a
/// list of plain paths.
pub proof fn lemma_install_is_idempotent(current: Seq<char>)
    requires
        forall|i: int|
            0 <= i < spec_parse_path_array(current).len() ==> plain_path(
                #[trigger] spec_parse_path_array(current)[i],
            ),
    ensures
        spec_install_update(current) matches Some(t) ==> spec_install_update(t) is None,
{
    let paths = spec_parse_path_array(current);
    if !paths.contains(PATH@) {
        let added = paths.push(PATH@);
        lemma_path_is_plain();
        assert forall|i: int| 0 <= i < added.len() implies plain_path(#[trigger] added[i]) by {
            if i < paths.len() {
                assert(added[i] == paths[i]);
            }
        }
        lemma_parse_format_round_trip(added);
        assert(added[added.len() - 1] == PATH@);
    }
}

} // verus!
