//! Character-level text handling shared by the probe parsers.

use vstd::prelude::*;
use vstd::std_specs::iter::IteratorSpec;
use vstd::string::*;

verus! {

broadcast use vstd::string::group_string_axioms;

/// Relies on `String::push`: the character is appended at the end.
#[verifier::external_body]
fn push_char(s: &mut String, c: char)
    ensures
        final(s)@ == old(s)@.push(c),
{
    s.push(c);
}

/// The characters of `s`, in order.
pub fn chars_of(s: &str) -> (r: Vec<char>)
    ensures
        r@ == s@,
{
    let mut r: Vec<char> = Vec::new();
    for c in it: s.chars()
        invariant
            r@ == it.seq().subrange(0, it.index() as int),
            it.seq() == s@,
    {
        r.push(c);
        assert(r@ =~= it.seq().subrange(0, it.index() + 1));
    }
    r
}

/// A `String` holding exactly the given characters.
pub fn string_of(v: &Vec<char>) -> (r: String)
    ensures
        r@ == v@,
{
    let mut r = String::new();
    let mut i: usize = 0;
    while i < v.len()
        invariant
            i <= v.len(),
            r@ == v@.subrange(0, i as int),
        decreases v.len() - i,
    {
        push_char(&mut r, v[i]);
        i = i + 1;
        assert(r@ =~= v@.subrange(0, i as int));
    }
    assert(r@ =~= v@);
    r
}


/// Unicode white space, as `char::is_whitespace` and `str::split_whitespace` see it.
pub open spec fn is_ws(c: char) -> bool {
    c == ' ' || c == '\t' || c == '\n' || c == '\x0B' || c == '\x0C' || c == '\r' || c == '\u{85}'
        || c == '\u{A0}' || c == '\u{1680}' || ('\u{2000}' <= c && c <= '\u{200A}') || c
        == '\u{2028}' || c == '\u{2029}' || c == '\u{202F}' || c == '\u{205F}' || c == '\u{3000}'
}

pub fn is_space(c: char) -> (r: bool)
    ensures
        r == is_ws(c),
{
    c == ' ' || c == '\t' || c == '\n' || c == '\x0B' || c == '\x0C' || c == '\r' || c == '\u{85}'
        || c == '\u{A0}' || c == '\u{1680}' || ('\u{2000}' <= c && c <= '\u{200A}') || c
        == '\u{2028}' || c == '\u{2029}' || c == '\u{202F}' || c == '\u{205F}' || c == '\u{3000}'
}

/// The pieces of `s` between occurrences of `sep`; always at least one piece.
pub open spec fn split_by<A>(s: Seq<A>, sep: A) -> Seq<Seq<A>>
    decreases s.len(),
{
    if s.len() == 0 {
        seq![Seq::empty()]
    } else {
        let prev = split_by(s.drop_last(), sep);
        if s.last() == sep {
            prev.push(Seq::empty())
        } else {
            prev.drop_last().push(prev.last().push(s.last()))
        }
    }
}

pub proof fn lemma_split_by_nonempty<A>(s: Seq<A>, sep: A)
    ensures
        split_by(s, sep).len() >= 1,
    decreases s.len(),
{
    if s.len() > 0 {
        lemma_split_by_nonempty(s.drop_last(), sep);
    }
}

/// The maximal runs of non-white-space characters of `s`, in order.
pub open spec fn words(s: Seq<char>) -> Seq<Seq<char>>
    decreases s.len(),
{
    if s.len() == 0 {
        Seq::empty()
    } else {
        let prev = words(s.drop_last());
        let c = s.last();
        if is_ws(c) {
            prev
        } else if s.len() >= 2 && !is_ws(s[s.len() - 2]) {
            prev.drop_last().push(prev.last().push(c))
        } else {
            prev.push(seq![c])
        }
    }
}

/// The character sequences held by a vector of character vectors.
pub open spec fn seqs(v: Seq<Vec<char>>) -> Seq<Seq<char>> {
    v.map_values(|w: Vec<char>| w@)
}

pub proof fn lemma_seqs_push(v: Seq<Vec<char>>, w: Vec<char>)
    ensures
        seqs(v.push(w)) == seqs(v).push(w@),
{
    assert(seqs(v.push(w)) =~= seqs(v).push(w@));
}

/// Splits `s` at each occurrence of `sep`.
pub fn split_chars(s: &Vec<char>, sep: char) -> (r: Vec<Vec<char>>)
    ensures
        seqs(r@) == split_by(s@, sep),
{
    let mut acc: Vec<Vec<char>> = Vec::new();
    let mut cur: Vec<char> = Vec::new();
    let mut i: usize = 0;
    while i < s.len()
        invariant
            i <= s.len(),
            seqs(acc@).push(cur@) == split_by(s@.subrange(0, i as int), sep),
        decreases s.len() - i,
    {
        let c = s[i];
        let ghost pre = s@.subrange(0, i as int);
        assert(s@.subrange(0, i + 1).drop_last() =~= pre);
        proof {
            lemma_split_by_nonempty(pre, sep);
        }
        if c == sep {
            proof {
                lemma_seqs_push(acc@, cur);
            }
            acc.push(cur);
            cur = Vec::new();
            assert(seqs(acc@).push(cur@) =~= split_by(pre, sep).push(Seq::empty()));
        } else {
            cur.push(c);
            assert(seqs(acc@).push(cur@) =~= split_by(pre, sep).drop_last().push(
                split_by(pre, sep).last().push(c),
            ));
        }
        i = i + 1;
    }
    assert(s@.subrange(0, i as int) =~= s@);
    proof {
        lemma_seqs_push(acc@, cur);
    }
    acc.push(cur);
    acc
}

/// Splits `s` into its white-space separated words.
pub fn split_words(s: &Vec<char>) -> (r: Vec<Vec<char>>)
    ensures
        seqs(r@) == words(s@),
{
    let mut acc: Vec<Vec<char>> = Vec::new();
    let mut cur: Vec<char> = Vec::new();
    let mut i: usize = 0;
    while i < s.len()
        invariant
            i <= s.len(),
            i > 0 && !is_ws(s@[i - 1]) ==> seqs(acc@).push(cur@) == words(
                s@.subrange(0, i as int),
            ),
            !(i > 0 && !is_ws(s@[i - 1])) ==> seqs(acc@) == words(s@.subrange(0, i as int))
                && cur@.len() == 0,
        decreases s.len() - i,
    {
        let c = s[i];
        let ghost pre = s@.subrange(0, i as int);
        assert(s@.subrange(0, i + 1).drop_last() =~= pre);
        let in_word = i > 0 && !is_space(s[i - 1]);
        if is_space(c) {
            if in_word {
                proof {
                    lemma_seqs_push(acc@, cur);
                }
                acc.push(cur);
                cur = Vec::new();
            }
        } else {
            cur.push(c);
            if in_word {
                assert(seqs(acc@).push(cur@) =~= words(pre).drop_last().push(
                    words(pre).last().push(c),
                ));
            } else {
                assert(cur@ =~= seq![c]);
                assert(seqs(acc@).push(cur@) =~= words(pre).push(seq![c]));
            }
        }
        i = i + 1;
    }
    assert(s@.subrange(0, i as int) =~= s@);
    if i > 0 && !is_space(s[i - 1]) {
        proof {
            lemma_seqs_push(acc@, cur);
        }
        acc.push(cur);
    }
    acc
}


pub open spec fn is_digit(c: char) -> bool {
    '0' <= c && c <= '9'
}

pub open spec fn digit_value(c: char) -> nat {
    (c as u32 - '0' as u32) as nat
}

pub open spec fn all_digits(s: Seq<char>) -> bool {
    forall|i: int| 0 <= i < s.len() ==> is_digit(#[trigger] s[i])
}

/// The number written by the decimal digits `s` (0 for no digits).
pub open spec fn digits_value(s: Seq<char>) -> nat
    decreases s.len(),
{
    if s.len() == 0 {
        0
    } else {
        digits_value(s.drop_last()) * 10 + digit_value(s.last())
    }
}

/// What `str::parse` gives for an unsigned integer type whose largest value is
/// `max`: an optional `+`, then one or more ASCII digits, and a value that fits.
pub open spec fn uint_value(w: Seq<char>, max: nat) -> Option<nat> {
    let d = if w.len() > 0 && w[0] == '+' {
        w.drop_first()
    } else {
        w
    };
    if d.len() > 0 && all_digits(d) && digits_value(d) <= max {
        Some(digits_value(d))
    } else {
        None
    }
}

proof fn lemma_digits_value_grows(s: Seq<char>, i: int)
    requires
        0 <= i <= s.len(),
    ensures
        digits_value(s.subrange(0, i)) <= digits_value(s),
    decreases s.len() - i,
{
    if i < s.len() {
        lemma_digits_value_grows(s, i + 1);
        assert(s.subrange(0, i + 1).drop_last() =~= s.subrange(0, i));
    } else {
        assert(s.subrange(0, i) =~= s);
    }
}

/// Reads the digits of `d` from position `start` on.
fn digits_from(d: &Vec<char>, start: usize, max: u64) -> (r: Option<u64>)
    requires
        start <= d.len(),
    ensures
        ({
            let t = d@.subrange(start as int, d@.len() as int);
            r == (if t.len() > 0 && all_digits(t) && digits_value(t) <= max {
                Some(digits_value(t) as u64)
            } else {
                None
            })
        }),
{
    let ghost t = d@.subrange(start as int, d@.len() as int);
    if start == d.len() {
        return None;
    }
    let mut acc: u64 = 0;
    let mut i: usize = start;
    while i < d.len()
        invariant
            start <= i <= d.len(),
            t == d@.subrange(start as int, d@.len() as int),
            all_digits(d@.subrange(start as int, i as int)),
            acc as nat == digits_value(d@.subrange(start as int, i as int)),
            acc <= max,
        decreases d.len() - i,
    {
        let c = d[i];
        let ghost pre = d@.subrange(start as int, i as int);
        assert(d@.subrange(start as int, i + 1).drop_last() =~= pre);
        if !('0' <= c && c <= '9') {
            assert(t[i - start] == c);
            return None;
        }
        let dv = (c as u32 - '0' as u32) as u64;
        if dv > max || acc > (max - dv) / 10 {
            proof {
                assert(acc * 10 + dv > max) by (nonlinear_arith)
                    requires
                        dv > max || acc > (max - dv) / 10,
                        dv <= 9,
                ;
                assert(t.subrange(0, i - start + 1) =~= d@.subrange(start as int, i + 1));
                lemma_digits_value_grows(t, i - start + 1);
            }
            return None;
        }
        assert(acc * 10 + dv <= max) by (nonlinear_arith)
            requires
                acc <= (max - dv) / 10,
                dv <= max,
        ;
        acc = acc * 10 + dv;
        i = i + 1;
        assert(all_digits(d@.subrange(start as int, i as int))) by {
            assert forall|k: int| 0 <= k < i - start implies is_digit(
                #[trigger] d@.subrange(start as int, i as int)[k],
            ) by {
                if k < i - 1 - start {
                    assert(d@.subrange(start as int, i as int)[k] == pre[k]);
                }
            }
        }
    }
    assert(d@.subrange(start as int, i as int) =~= t);
    Some(acc)
}

/// Parses an unsigned integer no larger than `max`, as `str::parse` does.
pub fn parse_uint(w: &Vec<char>, max: u64) -> (r: Option<u64>)
    ensures
        r matches Some(v) ==> uint_value(w@, max as nat) == Some(v as nat),
        r is None ==> uint_value(w@, max as nat) is None,
{
    let start: usize = if w.len() > 0 && w[0] == '+' {
        1
    } else {
        0
    };
    assert(w@.subrange(start as int, w@.len() as int) =~= (if w@.len() > 0 && w@[0] == '+' {
        w@.drop_first()
    } else {
        w@
    }));
    digits_from(w, start, max)
}


/// Whether every character of `v` is an ASCII digit.
pub fn all_digit_chars(v: &Vec<char>) -> (r: bool)
    ensures
        r == all_digits(v@),
{
    let mut i: usize = 0;
    while i < v.len()
        invariant
            i <= v.len(),
            all_digits(v@.subrange(0, i as int)),
        decreases v.len() - i,
    {
        if !('0' <= v[i] && v[i] <= '9') {
            return false;
        }
        i = i + 1;
        assert forall|k: int| 0 <= k < i implies is_digit(#[trigger] v@.subrange(0, i as int)[k]) by {
            if k < i - 1 {
                assert(v@.subrange(0, i as int)[k] == v@.subrange(0, i - 1)[k]);
            }
        }
    }
    assert(v@.subrange(0, i as int) =~= v@);
    true
}

/// The first three digits after a decimal point, as thousandths.
pub open spec fn frac_milli(f: Seq<char>) -> nat {
    (if f.len() > 0 {
        digit_value(f[0]) * 100
    } else {
        0
    }) + (if f.len() > 1 {
        digit_value(f[1]) * 10
    } else {
        0
    }) + (if f.len() > 2 {
        digit_value(f[2])
    } else {
        0
    })
}

/// A decimal number `digits[.digits]` in thousandths, fraction digits past the
/// third dropped; `None` if it is not of that form or does not fit in `u64`.
pub open spec fn decimal_milli(w: Seq<char>) -> Option<nat> {
    let parts = split_by(w, '.');
    let int_part = parts[0];
    let frac = if parts.len() == 2 {
        parts[1]
    } else {
        Seq::empty()
    };
    if (parts.len() == 1 || parts.len() == 2) && int_part.len() > 0 && all_digits(int_part)
        && all_digits(frac) && digits_value(int_part) * 1000 + frac_milli(frac) <= u64::MAX {
        Some(digits_value(int_part) * 1000 + frac_milli(frac))
    } else {
        None
    }
}

/// Reads a decimal number in thousandths (see `decimal_milli`).
pub fn parse_decimal_milli(w: &Vec<char>) -> (r: Option<u64>)
    ensures
        r matches Some(v) ==> decimal_milli(w@) == Some(v as nat),
        r is None ==> decimal_milli(w@) is None,
{
    let parts = split_chars(w, '.');
    proof {
        lemma_split_by_nonempty(w@, '.');
    }
    if parts.len() > 2 {
        return None;
    }
    let empty: Vec<char> = Vec::new();
    let frac: &Vec<char> = if parts.len() == 2 {
        &parts[1]
    } else {
        &empty
    };
    assert(frac@ == (if seqs(parts@).len() == 2 {
        seqs(parts@)[1]
    } else {
        Seq::empty()
    }));
    if !all_digit_chars(frac) {
        return None;
    }
    let f0: u64 = if frac.len() > 0 {
        (frac[0] as u32 - '0' as u32) as u64 * 100
    } else {
        0
    };
    let f1: u64 = if frac.len() > 1 {
        (frac[1] as u32 - '0' as u32) as u64 * 10
    } else {
        0
    };
    let f2: u64 = if frac.len() > 2 {
        (frac[2] as u32 - '0' as u32) as u64
    } else {
        0
    };
    let fm = f0 + f1 + f2;
    assert(fm == frac_milli(frac@));
    let ip = digits_from(&parts[0], 0, (u64::MAX - fm) / 1000);
    assert(parts[0]@.subrange(0, parts[0]@.len() as int) =~= parts[0]@);
    match ip {
        Some(v) => {
            assert(v * 1000 + fm <= u64::MAX) by (nonlinear_arith)
                requires
                    v <= (u64::MAX - fm) / 1000,
                    fm <= 999,
            ;
            Some(v * 1000 + fm)
        },
        None => {
            proof {
                let iv = digits_value(parts[0]@);
                if parts[0]@.len() > 0 && all_digits(parts[0]@) {
                    assert(iv > (u64::MAX - fm) / 1000);
                    assert(iv * 1000 + fm > u64::MAX) by (nonlinear_arith)
                        requires
                            iv > (u64::MAX - fm) / 1000,
                            fm <= 999,
                    ;
                }
            }
            None
        },
    }
}

/// `s` without its leading white space.
pub open spec fn trim_start(s: Seq<char>) -> Seq<char>
    decreases s.len(),
{
    if s.len() > 0 && is_ws(s[0]) {
        trim_start(s.drop_first())
    } else {
        s
    }
}

/// `s` without its trailing characters that satisfy `p`.
pub open spec fn strip_end(s: Seq<char>, p: spec_fn(char) -> bool) -> Seq<char>
    decreases s.len(),
{
    if s.len() > 0 && p(s.last()) {
        strip_end(s.drop_last(), p)
    } else {
        s
    }
}

/// `s` without leading and trailing white space, as `str::trim` gives it.
pub open spec fn trim(s: Seq<char>) -> Seq<char> {
    strip_end(trim_start(s), |c: char| is_ws(c))
}

/// The characters `v[from..to]`.
pub fn slice_of(v: &Vec<char>, from: usize, to: usize) -> (r: Vec<char>)
    requires
        from <= to <= v.len(),
    ensures
        r@ == v@.subrange(from as int, to as int),
{
    let mut r: Vec<char> = Vec::new();
    let mut i: usize = from;
    while i < to
        invariant
            from <= i <= to <= v.len(),
            r@ == v@.subrange(from as int, i as int),
        decreases to - i,
    {
        r.push(v[i]);
        i = i + 1;
        assert(r@ =~= v@.subrange(from as int, i as int));
    }
    r
}

/// Removes leading and trailing white space.
pub fn trim_chars(v: &Vec<char>) -> (r: Vec<char>)
    ensures
        r@ == trim(v@),
{
    let mut a: usize = 0;
    assert(v@.subrange(0, v@.len() as int) =~= v@);
    while a < v.len() && is_space(v[a])
        invariant
            a <= v.len(),
            trim_start(v@) == trim_start(v@.subrange(a as int, v@.len() as int)),
        decreases v.len() - a,
    {
        assert(v@.subrange(a as int, v@.len() as int).drop_first() =~= v@.subrange(
            a + 1,
            v@.len() as int,
        ));
        a = a + 1;
    }
    let ghost ts = v@.subrange(a as int, v@.len() as int);
    assert(trim_start(v@) == ts);
    let mut b: usize = v.len();
    while b > a && is_space(v[b - 1])
        invariant
            a <= b <= v.len(),
            ts == v@.subrange(a as int, v@.len() as int),
            strip_end(ts, |c: char| is_ws(c)) == strip_end(
                v@.subrange(a as int, b as int),
                |c: char| is_ws(c),
            ),
        decreases b,
    {
        assert(v@.subrange(a as int, b as int).drop_last() =~= v@.subrange(a as int, b - 1));
        b = b - 1;
    }
    slice_of(v, a, b)
}

/// Removes every trailing `c`.
pub fn strip_end_char(v: &Vec<char>, c: char) -> (r: Vec<char>)
    ensures
        r@ == strip_end(v@, |x: char| x == c),
{
    let mut b: usize = v.len();
    assert(v@.subrange(0, v@.len() as int) =~= v@);
    while b > 0 && v[b - 1] == c
        invariant
            b <= v.len(),
            strip_end(v@, |x: char| x == c) == strip_end(v@.subrange(0, b as int), |x: char| x == c),
        decreases b,
    {
        assert(v@.subrange(0, b as int).drop_last() =~= v@.subrange(0, b - 1));
        b = b - 1;
    }
    assert(v@.subrange(0, v@.len() as int) =~= v@);
    slice_of(v, 0, b)
}

/// Whether two character vectors are equal.
pub fn same_chars(a: &Vec<char>, b: &Vec<char>) -> (r: bool)
    ensures
        r == (a@ == b@),
{
    if a.len() != b.len() {
        return false;
    }
    let mut i: usize = 0;
    while i < a.len()
        invariant
            i <= a.len() == b.len(),
            a@.subrange(0, i as int) == b@.subrange(0, i as int),
        decreases a.len() - i,
    {
        if a[i] != b[i] {
            assert(a@.subrange(0, i + 1)[i as int] != b@.subrange(0, i + 1)[i as int]);
            assert(a@.subrange(0, i + 1) != b@.subrange(0, i + 1));
            assert(a@ != b@ ) by {
                if a@ == b@ {
                    assert(a@[i as int] == b@[i as int]);
                }
            }
            return false;
        }
        assert(a@.subrange(0, i + 1) =~= a@.subrange(0, i as int).push(a[i as int]));
        assert(b@.subrange(0, i + 1) =~= b@.subrange(0, i as int).push(b[i as int]));
        i = i + 1;
    }
    assert(a@ =~= a@.subrange(0, i as int));
    assert(b@ =~= b@.subrange(0, i as int));
    true
}

/// Whether two texts are equal.
pub fn same_text(a: &str, b: &str) -> (r: bool)
    ensures
        r == (a@ == b@),
{
    same_chars(&chars_of(a), &chars_of(b))
}

/// Whether `n` occurs in `h` starting at position `i`.
pub open spec fn occurs_at(h: Seq<char>, n: Seq<char>, i: int) -> bool {
    0 <= i && i + n.len() <= h.len() && h.subrange(i, i + n.len()) == n
}

/// Whether `n` occurs anywhere in `h`, as `str::contains` tells it.
pub open spec fn has_substring(h: Seq<char>, n: Seq<char>) -> bool {
    exists|i: int| occurs_at(h, n, i)
}

fn matches_at(h: &Vec<char>, n: &Vec<char>, i: usize) -> (r: bool)
    requires
        i + n.len() <= h.len(),
    ensures
        r == occurs_at(h@, n@, i as int),
{
    let mut k: usize = 0;
    while k < n.len()
        invariant
            k <= n.len(),
            i + n.len() <= h.len(),
            h@.subrange(i as int, i + k) == n@.subrange(0, k as int),
        decreases n.len() - k,
    {
        if h[i + k] != n[k] {
            assert(h@.subrange(i as int, i + n.len())[k as int] != n@[k as int]);
            return false;
        }
        assert(h@.subrange(i as int, i + k + 1) =~= h@.subrange(i as int, i + k).push(h[i + k]));
        assert(n@.subrange(0, k + 1) =~= n@.subrange(0, k as int).push(n[k as int]));
        k = k + 1;
    }
    assert(n@.subrange(0, k as int) =~= n@);
    true
}

/// Whether `n` occurs in `h`.
pub fn contains_chars(h: &Vec<char>, n: &Vec<char>) -> (r: bool)
    ensures
        r == has_substring(h@, n@),
{
    if n.len() > h.len() {
        return false;
    }
    let mut i: usize = 0;
    loop
        invariant
            n.len() <= h.len(),
            i <= h.len() - n.len(),
            forall|j: int| 0 <= j < i ==> !occurs_at(h@, n@, j),
        ensures
            forall|j: int| 0 <= j <= h.len() - n.len() ==> !occurs_at(h@, n@, j),
        decreases h.len() - n.len() - i,
    {
        if matches_at(h, n, i) {
            return true;
        }
        if i == h.len() - n.len() {
            break;
        }
        i = i + 1;
    }
    assert forall|j: int| !occurs_at(h@, n@, j) by {
        if 0 <= j <= h.len() - n.len() {
        }
    }
    false
}

/// Whether the text `h` contains the text `n`.
pub fn contains_str(h: &str, n: &str) -> (r: bool)
    ensures
        r == has_substring(h@, n@),
{
    contains_chars(&chars_of(h), &chars_of(n))
}

} // verus!
