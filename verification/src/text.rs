//! Characters, decimal numbers and text substitution, stated over the
//! sequences of characters that strings stand for.
use vstd::prelude::*;

verus! {

broadcast use vstd::string::group_string_axioms;

/// Appends one character to `s` (`String::push`).
#[verifier::external_body]
pub(crate) fn push_char(s: &mut String, c: char)
    ensures
        final(s)@ == old(s)@.push(c),
{
    s.push(c);
}

/// Whether `a` and `b` hold the same text.
pub fn same_text(a: &str, b: &str) -> (r: bool)
    ensures
        r == (a@ == b@),
{
    a.to_owned() == b.to_owned()
}

/// The characters of `s`, in order.
pub fn chars_of(s: &str) -> (v: Vec<char>)
    ensures
        v@ == s@,
{
    let mut v: Vec<char> = Vec::new();
    for c in it: s.chars()
        invariant
            v@ == it.seq().take(it.index() as int),
            it.seq() == s@,
    {
        v.push(c);
    }
    v
}


/// The string made of the characters of `v`.
pub fn string_from_chars(v: &Vec<char>) -> (s: String)
    ensures
        s@ == v@,
{
    let mut s = String::new();
    let mut i: usize = 0;
    while i < v.len()
        invariant
            i <= v.len(),
            s@ == v@.take(i as int),
        decreases v.len() - i,
    {
        push_char(&mut s, v[i]);
        assert(v@.take(i + 1) =~= v@.take(i as int).push(v@[i as int]));
        i = i + 1;
    }
    assert(v@.take(v.len() as int) =~= v@);
    s
}

/// The character of the decimal digit `d`.
pub open spec fn digit_char(d: int) -> char {
    if d == 0 {
        '0'
    } else if d == 1 {
        '1'
    } else if d == 2 {
        '2'
    } else if d == 3 {
        '3'
    } else if d == 4 {
        '4'
    } else if d == 5 {
        '5'
    } else if d == 6 {
        '6'
    } else if d == 7 {
        '7'
    } else if d == 8 {
        '8'
    } else {
        '9'
    }
}

/// `n` written in decimal, without leading zeros ("0" for zero).
pub open spec fn decimal(n: nat) -> Seq<char>
    decreases n,
{
    if n < 10 {
        seq![digit_char(n as int)]
    } else {
        decimal(n / 10).push(digit_char((n % 10) as int))
    }
}

/// `k` copies of `c`.
pub open spec fn repeat(c: char, k: nat) -> Seq<char> {
    Seq::new(k, |i: int| c)
}

/// `n` in decimal, with zeros in front up to `width` digits (as the
/// `{:0width$}` format does).
pub open spec fn zero_padded(n: nat, width: nat) -> Seq<char> {
    let d = decimal(n);
    if d.len() >= width {
        d
    } else {
        repeat('0', (width - d.len()) as nat) + d
    }
}

fn digit(d: u64) -> (c: char)
    requires
        d < 10,
    ensures
        c == digit_char(d as int),
{
    if d == 0 {
        '0'
    } else if d == 1 {
        '1'
    } else if d == 2 {
        '2'
    } else if d == 3 {
        '3'
    } else if d == 4 {
        '4'
    } else if d == 5 {
        '5'
    } else if d == 6 {
        '6'
    } else if d == 7 {
        '7'
    } else if d == 8 {
        '8'
    } else {
        '9'
    }
}

/// Appends `n` in decimal.
pub fn push_decimal(s: &mut String, n: u64)
    ensures
        final(s)@ == old(s)@ + decimal(n as nat),
    decreases n,
{
    if n >= 10 {
        push_decimal(s, n / 10);
    }
    push_char(s, digit(n % 10));
    proof {
        if n >= 10 {
            assert(old(s)@ + decimal((n / 10) as nat) + seq![digit_char((n % 10) as int)] =~= old(s)@
                + decimal(n as nat));
        } else {
            assert(old(s)@.push(digit_char((n % 10) as int)) =~= old(s)@ + decimal(n as nat));
        }
    }
}

proof fn lemma_decimal_len_monotone(a: nat, b: nat)
    requires
        a <= b,
    ensures
        1 <= decimal(a).len() <= decimal(b).len(),
    decreases b,
{
    if b >= 10 && a >= 10 {
        lemma_decimal_len_monotone(a / 10, b / 10);
    }
}

/// Number of decimal digits of `n`.
pub fn decimal_len(n: u64) -> (len: usize)
    ensures
        len == decimal(n as nat).len(),
        1 <= len <= 20,
    decreases n,
{
    proof {
        lemma_decimal_len_monotone(n as nat, u64::MAX as nat);
        assert(decimal(u64::MAX as nat).len() == 20) by {
            reveal_with_fuel(decimal, 21);
        }
    }
    if n >= 10 {
        1 + decimal_len(n / 10)
    } else {
        1
    }
}

/// Appends `n` in decimal with zeros in front up to `width` digits.
pub fn push_zero_padded(s: &mut String, n: u64, width: usize)
    ensures
        final(s)@ == old(s)@ + zero_padded(n as nat, width as nat),
{
    let len = decimal_len(n);
    let mut i = len;
    while i < width
        invariant
            len <= i,
            len == decimal(n as nat).len(),
            i <= width || i == len,
            s@ == old(s)@ + repeat('0', (i - len) as nat),
        decreases width - i,
    {
        push_char(s, '0');
        assert(repeat('0', (i - len) as nat).push('0') =~= repeat('0', (i + 1 - len) as nat));
        i = i + 1;
    }
    let ghost before = s@;
    push_decimal(s, n);
    proof {
        if len >= width {
            assert(repeat('0', 0) =~= Seq::<char>::empty());
            assert(before =~= old(s)@);
        } else {
            assert(i == width);
        }
        assert(s@ =~= old(s)@ + zero_padded(n as nat, width as nat));
    }
}

/// Replaces, left to right, every occurrence of the non-empty `pat` in `s`
/// that does not overlap an earlier one (as `str::replace` does).
pub open spec fn replace_all(s: Seq<char>, pat: Seq<char>, rep: Seq<char>) -> Seq<char>
    decreases s.len(),
{
    if pat.len() == 0 || s.len() < pat.len() {
        s
    } else if s.take(pat.len() as int) == pat {
        rep + replace_all(s.skip(pat.len() as int), pat, rep)
    } else {
        seq![s[0]] + replace_all(s.skip(1), pat, rep)
    }
}

/// Whether `pat` occurs in `s` at position `i`.
fn occurs_at(s: &Vec<char>, i: usize, pat: &Vec<char>) -> (b: bool)
    requires
        i <= s.len(),
    ensures
        b == (i + pat.len() <= s.len() && s@.subrange(i as int, i + pat.len()) == pat@),
{
    if pat.len() > s.len() - i {
        return false;
    }
    let mut j: usize = 0;
    while j < pat.len()
        invariant
            j <= pat.len(),
            i + pat.len() <= s.len(),
            forall|k: int| 0 <= k < j ==> s@[i + k] == pat@[k],
        decreases pat.len() - j,
    {
        if s[i + j] != pat[j] {
            assert(s@.subrange(i as int, i + pat.len())[j as int] != pat@[j as int]);
            return false;
        }
        j = j + 1;
    }
    assert(s@.subrange(i as int, i + pat.len()) =~= pat@);
    true
}

/// `s` with every occurrence of the non-empty `pat` replaced by `rep`.
pub fn replace_all_chars(s: &Vec<char>, pat: &Vec<char>, rep: &Vec<char>) -> (out: Vec<char>)
    requires
        pat.len() > 0,
    ensures
        out@ == replace_all(s@, pat@, rep@),
{
    let mut out: Vec<char> = Vec::new();
    let mut i: usize = 0;
    assert(s@.skip(0) =~= s@);
    while i < s.len()
        invariant
            i <= s.len(),
            pat.len() > 0,
            out@ + replace_all(s@.skip(i as int), pat@, rep@) == replace_all(s@, pat@, rep@),
        decreases s.len() - i,
    {
        let ghost rest = s@.skip(i as int);
        if occurs_at(s, i, pat) {
            assert(rest.take(pat.len() as int) =~= s@.subrange(i as int, i + pat.len()));
            assert(rest.skip(pat.len() as int) =~= s@.skip(i + pat.len()));
            let mut j: usize = 0;
            let ghost out0 = out@;
            while j < rep.len()
                invariant
                    j <= rep.len(),
                    out@ == out0 + rep@.take(j as int),
                decreases rep.len() - j,
            {
                out.push(rep[j]);
                assert(rep@.take(j + 1) =~= rep@.take(j as int).push(rep@[j as int]));
                j = j + 1;
            }
            assert(rep@.take(rep.len() as int) =~= rep@);
            assert(out0 + (rep@ + replace_all(s@.skip(i + pat.len()), pat@, rep@)) =~= out@ + replace_all(
                s@.skip(i + pat.len()),
                pat@,
                rep@,
            ));
            i = i + pat.len();
        } else {
            proof {
                assert(rest.skip(1) =~= s@.skip(i + 1));
                if rest.len() >= pat@.len() {
                    assert(rest.take(pat.len() as int) =~= s@.subrange(i as int, i + pat.len()));
                } else {
                    assert(rest =~= seq![rest[0]] + rest.skip(1));
                    assert(replace_all(rest.skip(1), pat@, rep@) == rest.skip(1));
                }
            }
            let ghost out0 = out@;
            out.push(s[i]);
            assert(out0 + (seq![s@[i as int]] + replace_all(s@.skip(i + 1), pat@, rep@)) =~= out@ + replace_all(
                s@.skip(i + 1),
                pat@,
                rep@,
            ));
            i = i + 1;
        }
    }
    assert(s@.skip(i as int) =~= Seq::<char>::empty());
    assert(out@ + Seq::<char>::empty() =~= out@);
    out
}

/// If `pat` does not occur in `s`, replacing it changes nothing.
pub proof fn lemma_replace_absent(s: Seq<char>, pat: Seq<char>, rep: Seq<char>)
    requires
        pat.len() > 0,
        forall|i: int| 0 <= i && i + pat.len() <= s.len() ==> #[trigger] s.subrange(i, i + pat.len()) != pat,
    ensures
        replace_all(s, pat, rep) == s,
    decreases s.len(),
{
    if s.len() >= pat.len() {
        assert(s.subrange(0int, 0int + pat.len()) != pat);
        assert(s.take(pat.len() as int) =~= s.subrange(0int, 0int + pat.len()));
        let t = s.skip(1);
        assert forall|i: int| 0 <= i && i + pat.len() <= t.len() implies #[trigger] t.subrange(i, i + pat.len())
            != pat by {
            assert(t.subrange(i, i + pat.len()) =~= s.subrange(i + 1, i + 1 + pat.len()));
        }
        lemma_replace_absent(t, pat, rep);
        assert(seq![s[0]] + t =~= s);
    }
}

/// No decimal digit is `%`.
pub proof fn lemma_decimal_plain(n: nat)
    ensures
        decimal(n).len() > 0,
        !decimal(n).contains('%'),
    decreases n,
{
    if n >= 10 {
        lemma_decimal_plain(n / 10);
        let d = decimal(n / 10);
        assert(!decimal(n).contains('%')) by {
            if decimal(n).contains('%') {
                let i = choose|i: int| 0 <= i < decimal(n).len() && decimal(n)[i] == '%';
                if i < d.len() {
                    assert(d[i] == '%');
                }
            }
        }
    }
}

/// Zero-padded decimal text is not empty when a width is asked, and holds
/// no `%`.
pub proof fn lemma_zero_padded_plain(n: nat, width: nat)
    requires
        width > 0,
    ensures
        zero_padded(n, width).len() > 0,
        !zero_padded(n, width).contains('%'),
{
    lemma_decimal_plain(n);
    let d = decimal(n);
    if d.len() < width {
        let z = repeat('0', (width - d.len()) as nat);
        assert(!zero_padded(n, width).contains('%')) by {
            if zero_padded(n, width).contains('%') {
                let i = choose|i: int| 0 <= i < zero_padded(n, width).len() && zero_padded(n, width)[i] == '%';
                if i >= z.len() {
                    assert(d[i - z.len()] == '%');
                }
            }
        }
    }
}

/// A number below 100 written on two digits: tens, then units.
pub proof fn lemma_two_digits(v: nat)
    requires
        v < 100,
    ensures
        zero_padded(v, 2) == seq![digit_char((v / 10) as int), digit_char((v % 10) as int)],
{
    reveal_with_fuel(decimal, 2);
    if v < 10 {
        assert(zero_padded(v, 2) =~= seq![digit_char((v / 10) as int), digit_char((v % 10) as int)]);
    } else {
        assert(decimal(v / 10) == seq![digit_char((v / 10) as int)]);
        assert(zero_padded(v, 2) =~= seq![digit_char((v / 10) as int), digit_char((v % 10) as int)]);
    }
}

/// A number below 1000 written on three digits: hundreds, tens, units.
pub proof fn lemma_three_digits(v: nat)
    requires
        v < 1000,
    ensures
        zero_padded(v, 3) == seq![digit_char((v / 100) as int), digit_char(((v / 10) % 10) as int), digit_char((v % 10) as int)],
{
    reveal_with_fuel(decimal, 3);
    assert((v / 10) / 10 == v / 100) by {
        vstd::arithmetic::div_mod::lemma_div_denominator(v as int, 10, 10);
    }
    if v < 10 {
        assert(zero_padded(v, 3) =~= seq![digit_char((v / 100) as int), digit_char(((v / 10) % 10) as int), digit_char((v % 10) as int)]);
    } else if v < 100 {
        assert(decimal(v / 10) == seq![digit_char((v / 10) as int)]);
        assert(zero_padded(v, 3) =~= seq![digit_char((v / 100) as int), digit_char(((v / 10) % 10) as int), digit_char((v % 10) as int)]);
    } else {
        let t = (v / 10) as nat;
        assert(decimal(t / 10) == seq![digit_char((t / 10) as int)]);
        assert(decimal(t) == seq![digit_char((t / 10) as int), digit_char((t % 10) as int)]);
        assert(zero_padded(v, 3) =~= seq![digit_char((v / 100) as int), digit_char(((v / 10) % 10) as int), digit_char((v % 10) as int)]);
    }
}

/// A number below 10000 written on four digits: thousands, hundreds, tens,
/// units.
pub proof fn lemma_four_digits(v: nat)
    requires
        v < 10000,
    ensures
        zero_padded(v, 4) == seq![
            digit_char((v / 1000) as int),
            digit_char(((v / 100) % 10) as int),
            digit_char(((v / 10) % 10) as int),
            digit_char((v % 10) as int),
        ],
{
    let t = (v / 10) as nat;
    lemma_three_digits(t);
    assert(t / 100 == v / 1000) by {
        vstd::arithmetic::div_mod::lemma_div_denominator(v as int, 10, 100);
    }
    assert(t / 10 == v / 100) by {
        vstd::arithmetic::div_mod::lemma_div_denominator(v as int, 10, 10);
    }
    reveal_with_fuel(decimal, 2);
    let want = seq![digit_char((v / 1000) as int), digit_char(((v / 100) % 10) as int), digit_char(((v / 10) % 10) as int), digit_char((v % 10) as int)];
    if v < 10 {
        assert(zero_padded(v, 4) =~= want);
    } else {
        assert(decimal(v) == decimal(t).push(digit_char((v % 10) as int)));
        lemma_decimal_plain(t);
        if t < 10 {
            assert(decimal(t) == seq![digit_char((t as int) as int)]);
            assert(zero_padded(v, 4) =~= want);
        } else if t < 100 {
            assert(decimal(t) == decimal(t / 10).push(digit_char((t % 10) as int)));
            assert(decimal(t / 10) == seq![digit_char((t / 10) as int)]);
            assert(zero_padded(v, 4) =~= want);
        } else {
            let u = (t / 10) as nat;
            assert(decimal(t) == decimal(u).push(digit_char((t % 10) as int)));
            assert(decimal(u) == decimal(u / 10).push(digit_char((u % 10) as int)));
            assert(decimal(u / 10) == seq![digit_char((u / 10) as int)]);
            assert(zero_padded(v, 4) =~= want);
        }
    }
}

} // verus!
