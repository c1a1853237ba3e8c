//! Readers for the text that the probes print: `/proc/meminfo`, `free`,
//! `df`, `/proc/net/dev`, `netstat`, `/proc/stat`, `/proc/loadavg` and `ping`.
//!
//! A text is taken as lines split at `'\n'`; a final newline gives a last,
//! empty line, which no reader counts.

use crate::models::{
    DiskInfo, MemoryInfo, NetworkInfo, ParseError, PingTest, PortInfo,
};
use crate::text::{
    all_digits, chars_of, decimal_milli, digit_value, digits_value, parse_decimal_milli,
    parse_uint, same_chars, seqs, split_by, split_chars, split_words, string_of, strip_end,
    strip_end_char, trim, trim_chars, uint_value, words,
};
use vstd::prelude::*;

verus! {

/// The probe parsers.
pub struct MonitoringService;

/// The lines of a text.
pub open spec fn text_lines(s: Seq<char>) -> Seq<Seq<char>> {
    split_by(s, '\n')
}

/// Splits a text into its lines.
pub fn lines_of(output: &str) -> (r: Vec<Vec<char>>)
    ensures
        seqs(r@) == text_lines(output@),
{
    split_chars(&chars_of(output), '\n')
}

/// The value in bytes of a `/proc/meminfo` line `key value kB`, if `key` is its first word.
pub open spec fn mem_line_value(line: Seq<char>, key: Seq<char>) -> Option<nat> {
    let w = words(line);
    if w.len() >= 2 && w[0] == key && uint_value(w[1], u64::MAX as nat) is Some && uint_value(
        w[1],
        u64::MAX as nat,
    )->0 * 1024 <= u64::MAX {
        Some(uint_value(w[1], u64::MAX as nat)->0 * 1024)
    } else {
        None
    }
}

/// The value of the last line that gives `key`, or 0.
pub open spec fn mem_field(lines: Seq<Seq<char>>, key: Seq<char>) -> nat
    decreases lines.len(),
{
    if lines.len() == 0 {
        0
    } else {
        match mem_line_value(lines.last(), key) {
            Some(v) => v,
            None => mem_field(lines.drop_last(), key),
        }
    }
}

/// What `/proc/meminfo` says, in bytes: always a reading. `used` is
/// `total - free`, or 0 where more is free than there is; `swap_used` likewise.
pub open spec fn meminfo_spec(text: Seq<char>) -> Option<MemoryInfo> {
    let lines = text_lines(text);
    let total = mem_field(lines, "MemTotal:"@);
    let free = mem_field(lines, "MemFree:"@);
    let available = mem_field(lines, "MemAvailable:"@);
    let swap_total = mem_field(lines, "SwapTotal:"@);
    let swap_free = mem_field(lines, "SwapFree:"@);
    Some(
        MemoryInfo {
            total: total as u64,
            used: if free <= total {
                (total - free) as u64
            } else {
                0
            },
            free: free as u64,
            available: available as u64,
            swap_total: swap_total as u64,
            swap_used: if swap_free <= swap_total {
                (swap_total - swap_free) as u64
            } else {
                0
            },
            swap_free: swap_free as u64,
        },
    )
}

fn kib_line_value(w: &Vec<Vec<char>>, key: &Vec<char>) -> (r: Option<u64>)
    ensures
        r matches Some(v) ==> seqs(w@).len() >= 2 && seqs(w@)[0] == key@ && uint_value(
            seqs(w@)[1],
            u64::MAX as nat,
        ) is Some && v == uint_value(seqs(w@)[1], u64::MAX as nat)->0 * 1024,
        r is None ==> !(seqs(w@).len() >= 2 && seqs(w@)[0] == key@ && uint_value(
            seqs(w@)[1],
            u64::MAX as nat,
        ) is Some && uint_value(seqs(w@)[1], u64::MAX as nat)->0 * 1024 <= u64::MAX),
{
    if w.len() < 2 || !same_chars(&w[0], key) {
        return None;
    }
    match parse_uint(&w[1], u64::MAX) {
        Some(v) => {
            if v <= u64::MAX / 1024 {
                Some(v * 1024)
            } else {
                None
            }
        },
        None => None,
    }
}

impl MonitoringService {
    /// Reads `/proc/meminfo`: kilobyte figures become bytes, the last line for
    /// a key wins, a line whose value does not fit in bytes is skipped, a
    /// missing key reads 0,
    /// and `used` is `total - free` (0 where free exceeds total). Never fails.
    pub fn parse_meminfo(output: &str) -> (r: Result<MemoryInfo, ParseError>)
        ensures
            r is Ok,
            r == (match meminfo_spec(output@) {
                Some(m) => Ok::<MemoryInfo, ParseError>(m),
                None => Err(ParseError),
            }),
    {
        let lines = lines_of(output);
        let k_total = chars_of("MemTotal:");
        let k_free = chars_of("MemFree:");
        let k_avail = chars_of("MemAvailable:");
        let k_stotal = chars_of("SwapTotal:");
        let k_sfree = chars_of("SwapFree:");
        let mut total: u64 = 0;
        let mut free: u64 = 0;
        let mut available: u64 = 0;
        let mut swap_total: u64 = 0;
        let mut swap_free: u64 = 0;
        let ghost ls = seqs(lines@);
        let mut i: usize = 0;
        while i < lines.len()
            invariant
                i <= lines.len(),
                ls == seqs(lines@),
                total == mem_field(ls.subrange(0, i as int), "MemTotal:"@),
                free == mem_field(ls.subrange(0, i as int), "MemFree:"@),
                available == mem_field(ls.subrange(0, i as int), "MemAvailable:"@),
                swap_total == mem_field(ls.subrange(0, i as int), "SwapTotal:"@),
                swap_free == mem_field(ls.subrange(0, i as int), "SwapFree:"@),
                k_total@ == "MemTotal:"@,
                k_free@ == "MemFree:"@,
                k_avail@ == "MemAvailable:"@,
                k_stotal@ == "SwapTotal:"@,
                k_sfree@ == "SwapFree:"@,
            decreases lines.len() - i,
        {
            let w = split_words(&lines[i]);
            assert(ls.subrange(0, i + 1).drop_last() =~= ls.subrange(0, i as int));
            assert(ls.subrange(0, i + 1).last() == lines[i as int]@);
            if let Some(v) = kib_line_value(&w, &k_total) {
                total = v;
            }
            if let Some(v) = kib_line_value(&w, &k_free) {
                free = v;
            }
            if let Some(v) = kib_line_value(&w, &k_avail) {
                available = v;
            }
            if let Some(v) = kib_line_value(&w, &k_stotal) {
                swap_total = v;
            }
            if let Some(v) = kib_line_value(&w, &k_sfree) {
                swap_free = v;
            }
            i = i + 1;
        }
        assert(ls.subrange(0, i as int) =~= ls);
        Ok(
            MemoryInfo {
                total,
                used: if free <= total {
                    total - free
                } else {
                    0
                },
                free,
                available,
                swap_total,
                swap_used: if swap_free <= swap_total {
                    swap_total - swap_free
                } else {
                    0
                },
                swap_free,
            },
        )
    }
}


/// What `str::parse::<u64>` gives.
pub open spec fn u64_of(w: Seq<char>) -> Option<nat> {
    uint_value(w, u64::MAX as nat)
}

/// What `free -b` says: the second line holds memory, the third swap.
pub open spec fn free_spec(text: Seq<char>) -> Option<MemoryInfo> {
    let lines = text_lines(text);
    if lines.len() < 3 {
        None
    } else {
        let m = words(lines[1]);
        let s = words(lines[2]);
        if m.len() < 4 || s.len() < 4 || u64_of(m[1]) is None || u64_of(m[2]) is None || u64_of(
            m[3],
        ) is None || u64_of(s[1]) is None || u64_of(s[2]) is None || u64_of(s[3]) is None {
            None
        } else {
            Some(
                MemoryInfo {
                    total: u64_of(m[1])->0 as u64,
                    used: u64_of(m[2])->0 as u64,
                    free: u64_of(m[3])->0 as u64,
                    available: if m.len() > 6 && u64_of(m[6]) is Some {
                        u64_of(m[6])->0 as u64
                    } else {
                        0
                    },
                    swap_total: u64_of(s[1])->0 as u64,
                    swap_used: u64_of(s[2])->0 as u64,
                    swap_free: u64_of(s[3])->0 as u64,
                },
            )
        }
    }
}

/// The multiplier of a size suffix: K, M, G and T in either case are powers of 1024.
pub open spec fn size_unit(c: char) -> nat {
    if c == 'K' || c == 'k' {
        1024
    } else if c == 'M' || c == 'm' {
        1024 * 1024
    } else if c == 'G' || c == 'g' {
        1024 * 1024 * 1024
    } else if c == 'T' || c == 't' {
        1024 * 1024 * 1024 * 1024
    } else {
        1
    }
}

/// `10^n`.
pub open spec fn pow10(n: nat) -> nat
    decreases n,
{
    if n == 0 {
        1
    } else {
        10 * pow10((n - 1) as nat)
    }
}

/// The number part of a size: `digits[.digits]`, with digits on at least one
/// side of the point.
pub open spec fn size_number_ok(number: Seq<char>) -> bool {
    let parts = split_by(number, '.');
    let frac = if parts.len() == 2 {
        parts[1]
    } else {
        Seq::empty()
    };
    (parts.len() == 1 || parts.len() == 2) && parts[0].len() + frac.len() > 0 && all_digits(
        parts[0],
    ) && all_digits(frac)
}

/// A human-readable size such as `4.5G` in bytes, exactly and rounded down:
/// for `i.f` with `k` fraction digits and a unit `m`, `(i * 10^k + f) * m / 10^k`.
/// A number without a suffix is bytes.
pub open spec fn size_value(w: Seq<char>) -> Option<nat> {
    let has_unit = w.len() > 0 && size_unit(w.last()) > 1;
    let unit = if has_unit {
        size_unit(w.last())
    } else {
        1
    };
    let number = if has_unit {
        w.drop_last()
    } else {
        w
    };
    let parts = split_by(number, '.');
    let frac = if parts.len() == 2 {
        parts[1]
    } else {
        Seq::empty()
    };
    let v = (digits_value(parts[0]) * pow10(frac.len()) + digits_value(frac)) * unit / pow10(
        frac.len(),
    );
    if size_number_ok(number) && v <= u64::MAX {
        Some(v)
    } else {
        None
    }
}

/// `floor(0.f * u)` for the fraction digits `f`, computed from the last digit back.
pub open spec fn frac_scaled(f: Seq<char>, u: nat) -> nat
    decreases f.len(),
{
    if f.len() == 0 {
        0
    } else {
        (digit_value(f[0]) * u + frac_scaled(f.drop_first(), u)) / 10
    }
}

proof fn lemma_pow10_pos(n: nat)
    ensures
        pow10(n) > 0,
    decreases n,
{
    if n > 0 {
        lemma_pow10_pos((n - 1) as nat);
    }
}

proof fn lemma_digits_value_first(f: Seq<char>)
    requires
        f.len() >= 1,
    ensures
        digits_value(f) == digit_value(f[0]) * pow10((f.len() - 1) as nat) + digits_value(
            f.drop_first(),
        ),
    decreases f.len(),
{
    if f.len() == 1 {
        assert(f.drop_last() =~= Seq::<char>::empty());
        assert(f.drop_first() =~= Seq::<char>::empty());
        assert(digits_value(f.drop_last()) == 0);
        assert(digits_value(f) == digit_value(f[0]));
        assert(pow10(0) == 1);
        assert(digits_value(f.drop_first()) == 0);
        assert(digit_value(f[0]) * pow10(0) == digit_value(f[0]));
    } else {
        let g = f.drop_last();
        lemma_digits_value_first(g);
        assert(f.drop_first().drop_last() =~= g.drop_first());
        assert(f.drop_first().last() == f.last());
        let a = digit_value(f[0]);
        let b = pow10((f.len() - 2) as nat);
        let c = digits_value(g.drop_first());
        let dl = digit_value(f.last());
        assert(g[0] == f[0]);
        assert(digits_value(g) == a * b + c);
        assert(digits_value(f) == digits_value(g) * 10 + dl);
        assert(digits_value(f.drop_first()) == c * 10 + dl);
        assert(pow10((f.len() - 1) as nat) == 10 * b);
        assert((a * b + c) * 10 == a * (10 * b) + c * 10) by (nonlinear_arith);
        assert(digits_value(f) == a * pow10((f.len() - 1) as nat) + digits_value(f.drop_first()));
    }
}

proof fn lemma_frac_scaled(f: Seq<char>, u: nat)
    ensures
        frac_scaled(f, u) == digits_value(f) * u / pow10(f.len()),
    decreases f.len(),
{
    if f.len() > 0 {
        let r = f.drop_first();
        lemma_frac_scaled(r, u);
        lemma_digits_value_first(f);
        lemma_pow10_pos(r.len());
        let p = pow10(r.len()) as int;
        let d = digit_value(f[0]) as int;
        let rv = digits_value(r) as int;
        let uu = u as int;
        assert(pow10(f.len()) == 10 * p);
        assert(digits_value(f) == d * p + rv);
        assert(p > 0);
        assert((d * p + rv) * uu == (rv * uu) + (d * uu) * p) by (nonlinear_arith);
        vstd::arithmetic::div_mod::lemma_hoist_over_denominator(rv * uu, d * uu, p as nat);
        assert((rv * uu) / p + d * uu == ((d * p + rv) * uu) / p);
        assert(frac_scaled(r, u) == (rv * uu) / p);
        assert(frac_scaled(f, u) == (d * uu + frac_scaled(r, u)) / 10);
        assert((d * p + rv) * uu >= 0) by (nonlinear_arith)
            requires
                rv >= 0,
                uu >= 0,
                d >= 0,
                p >= 0,
        ;
        vstd::arithmetic::div_mod::lemma_div_denominator((d * p + rv) * uu, p, 10);
        assert(p * 10 == 10 * p);
        assert(frac_scaled(f, u) == ((d * p + rv) * uu) / (10 * p));
        assert(digits_value(f) * u / pow10(f.len()) == ((d * p + rv) * uu) / (10 * p));
    } else {
        assert(digits_value(f) == 0);
        assert(pow10(0) == 1);
        assert(0 * u == 0);
    }
}

proof fn lemma_split_size(i: nat, p: nat, f: nat, u: nat)
    requires
        p > 0,
    ensures
        (i * p + f) * u / p == i * u + f * u / p,
        i * u + f * u / p >= i * u,
{
    assert((i * p + f) * u == f * u + (i * u) * p) by (nonlinear_arith);
    vstd::arithmetic::div_mod::lemma_hoist_over_denominator((f * u) as int, (i * u) as int, p);
    assert(f * u / p >= 0) by (nonlinear_arith)
        requires
            p > 0,
    ;
}

fn unit_of(c: char) -> (r: u64)
    ensures
        r == size_unit(c),
{
    if c == 'K' || c == 'k' {
        1024
    } else if c == 'M' || c == 'm' {
        1024 * 1024
    } else if c == 'G' || c == 'g' {
        1024 * 1024 * 1024
    } else if c == 'T' || c == 't' {
        1024 * 1024 * 1024 * 1024
    } else {
        1
    }
}

fn frac_scaled_exec(f: &Vec<char>, unit: u64) -> (r: u64)
    requires
        all_digits(f@),
        unit <= 1024 * 1024 * 1024 * 1024,
    ensures
        r == frac_scaled(f@, unit as nat),
        r <= unit,
{
    let mut x: u64 = 0;
    let mut j: usize = f.len();
    assert(f@.subrange(j as int, f@.len() as int) =~= Seq::<char>::empty());
    while j > 0
        invariant
            j <= f.len(),
            all_digits(f@),
            unit <= 1024 * 1024 * 1024 * 1024,
            x == frac_scaled(f@.subrange(j as int, f@.len() as int), unit as nat),
            x <= unit,
        decreases j,
    {
        let ghost tail = f@.subrange(j - 1, f@.len() as int);
        assert(tail.drop_first() =~= f@.subrange(j as int, f@.len() as int));
        assert(tail[0] == f@[j - 1]);
        assert(crate::text::is_digit(f@[j - 1]));
        let d: u64 = (f[j - 1] as u32 - '0' as u32) as u64;
        assert(d * unit + x <= 10 * unit) by (nonlinear_arith)
            requires
                d <= 9,
                x <= unit,
        ;
        assert((d * unit + x) / 10 <= unit) by (nonlinear_arith)
            requires
                d * unit + x <= 10 * unit,
        ;
        x = (d * unit + x) / 10;
        j = j - 1;
    }
    assert(f@.subrange(0, f@.len() as int) =~= f@);
    x
}

fn size_of_chars(w: &Vec<char>) -> (r: Option<u64>)
    ensures
        r matches Some(v) ==> size_value(w@) == Some(v as nat),
        r is None ==> size_value(w@) is None,
{
    let unit: u64 = if w.len() > 0 {
        unit_of(w[w.len() - 1])
    } else {
        1
    };
    let number = if unit > 1 {
        slice_all_but_last(w)
    } else {
        slice_all(w)
    };
    let parts = split_chars(&number, '.');
    proof {
        crate::text::lemma_split_by_nonempty(number@, '.');
    }
    if parts.len() > 2 {
        return None;
    }
    let empty: Vec<char> = Vec::new();
    let frac: &Vec<char> = if parts.len() == 2 {
        &parts[1]
    } else {
        &empty
    };
    let ghost ps = seqs(parts@);
    assert(ps[0] == parts[0]@);
    assert(frac@ == (if ps.len() == 2 {
        ps[1]
    } else {
        Seq::empty()
    }));
    if (parts[0].len() == 0 && frac.len() == 0) || !crate::text::all_digit_chars(&parts[0])
        || !crate::text::all_digit_chars(frac) {
        return None;
    }
    let ghost k = frac@.len();
    let ghost p = pow10(k);
    let ghost iv = digits_value(parts[0]@);
    let ghost fv = digits_value(frac@);
    proof {
        lemma_pow10_pos(k);
        lemma_split_size(iv, p, fv, unit as nat);
        lemma_frac_scaled(frac@, unit as nat);
    }
    let h = frac_scaled_exec(frac, unit);
    let i: u64 = if parts[0].len() == 0 {
        assert(parts[0]@ =~= Seq::<char>::empty());
        0
    } else {
        match crate::text::parse_uint(&parts[0], u64::MAX) {
            Some(i) => {
                assert(!(parts[0]@.len() > 0 && parts[0]@[0] == '+'));
                assert(parts[0]@ == (if parts[0]@.len() > 0 && parts[0]@[0] == '+' {
                    parts[0]@.drop_first()
                } else {
                    parts[0]@
                }));
                i
            },
            None => {
                proof {
                    assert(parts[0]@[0] != '+') by {
                        assert(crate::text::is_digit(parts[0]@[0]));
                    }
                    assert(iv > u64::MAX);
                    assert(iv * (unit as nat) >= iv) by (nonlinear_arith)
                        requires
                            unit >= 1,
                    ;
                }
                return None;
            },
        }
    };
    assert(i as nat * unit as nat <= u64::MAX as nat * (1024 * 1024 * 1024 * 1024)) by (nonlinear_arith)
        requires
            i <= u64::MAX,
            unit <= 1024 * 1024 * 1024 * 1024,
    ;
    let total: u128 = (i as u128) * (unit as u128) + (h as u128);
    if total <= u64::MAX as u128 {
        Some(total as u64)
    } else {
        None
    }
}

fn slice_all_but_last(w: &Vec<char>) -> (r: Vec<char>)
    requires
        w.len() > 0,
    ensures
        r@ == w@.drop_last(),
{
    let r = crate::text::slice_of(w, 0, w.len() - 1);
    assert(r@ =~= w@.drop_last());
    r
}

fn slice_all(w: &Vec<char>) -> (r: Vec<char>)
    ensures
        r@ == w@,
{
    let r = crate::text::slice_of(w, 0, w.len());
    assert(r@ =~= w@);
    r
}

/// Three load averages in thousandths, when the text has at least three words.
pub open spec fn load_average_spec(text: Seq<char>) -> Option<Seq<nat>> {
    let w = words(text);
    if w.len() < 3 {
        Some(seq![0nat, 0nat, 0nat])
    } else if decimal_milli(w[0]) is Some && decimal_milli(w[1]) is Some && decimal_milli(w[2]) is Some {
        Some(seq![decimal_milli(w[0])->0, decimal_milli(w[1])->0, decimal_milli(w[2])->0])
    } else {
        None
    }
}

impl MonitoringService {
    /// Reads the output of `free -b`; a missing seventh column leaves
    /// `available` at 0.
    pub fn parse_free_output(output: &str) -> (r: Result<MemoryInfo, ParseError>)
        ensures
            r == (match free_spec(output@) {
                Some(m) => Ok::<MemoryInfo, ParseError>(m),
                None => Err(ParseError),
            }),
    {
        let lines = lines_of(output);
        if lines.len() < 3 {
            return Err(ParseError);
        }
        let m = split_words(&lines[1]);
        let s = split_words(&lines[2]);
        assert(seqs(lines@)[1] == lines[1]@ && seqs(lines@)[2] == lines[2]@);
        if m.len() < 4 || s.len() < 4 {
            return Err(ParseError);
        }
        assert(seqs(m@)[1] == m[1]@ && seqs(m@)[2] == m[2]@ && seqs(m@)[3] == m[3]@);
        assert(seqs(s@)[1] == s[1]@ && seqs(s@)[2] == s[2]@ && seqs(s@)[3] == s[3]@);
        let total = match parse_uint(&m[1], u64::MAX) {
            Some(v) => v,
            None => {
                return Err(ParseError);
            },
        };
        let used = match parse_uint(&m[2], u64::MAX) {
            Some(v) => v,
            None => {
                return Err(ParseError);
            },
        };
        let free = match parse_uint(&m[3], u64::MAX) {
            Some(v) => v,
            None => {
                return Err(ParseError);
            },
        };
        let swap_total = match parse_uint(&s[1], u64::MAX) {
            Some(v) => v,
            None => {
                return Err(ParseError);
            },
        };
        let swap_used = match parse_uint(&s[2], u64::MAX) {
            Some(v) => v,
            None => {
                return Err(ParseError);
            },
        };
        let swap_free = match parse_uint(&s[3], u64::MAX) {
            Some(v) => v,
            None => {
                return Err(ParseError);
            },
        };
        let available = if m.len() > 6 {
            assert(seqs(m@)[6] == m[6]@);
            match parse_uint(&m[6], u64::MAX) {
                Some(v) => v,
                None => 0,
            }
        } else {
            0
        };
        Ok(MemoryInfo { total, used, free, available, swap_total, swap_used, swap_free })
    }

    /// A human-readable size in bytes (see `size_value`).
    pub fn parse_size(size_str: &str) -> (r: Result<u64, ParseError>)
        ensures
            r == (match size_value(size_str@) {
                Some(v) => Ok::<u64, ParseError>(v as u64),
                None => Err(ParseError),
            }),
    {
        match size_of_chars(&chars_of(size_str)) {
            Some(v) => Ok(v),
            None => Err(ParseError),
        }
    }

    /// Reads `/proc/loadavg`; fewer than three words read as three zeros.
    pub fn parse_load_average(output: &str) -> (r: Result<[u64; 3], ParseError>)
        ensures
            r matches Ok(a) ==> load_average_spec(output@) == Some(seq![a[0] as nat, a[1] as nat, a[2] as nat]),
            r is Err <==> load_average_spec(output@) is None,
    {
        let w = split_words(&chars_of(output));
        if w.len() < 3 {
            return Ok([0, 0, 0]);
        }
        assert(seqs(w@)[0] == w[0]@ && seqs(w@)[1] == w[1]@ && seqs(w@)[2] == w[2]@);
        let a = parse_decimal_milli(&w[0]);
        let b = parse_decimal_milli(&w[1]);
        let c = parse_decimal_milli(&w[2]);
        match (a, b, c) {
            (Some(x), Some(y), Some(z)) => Ok([x, y, z]),
            _ => Err(ParseError),
        }
    }
}


/// `s` without its first `n` items (empty where it has fewer).
pub open spec fn drop_n<A>(s: Seq<A>, n: nat) -> Seq<A> {
    if n <= s.len() {
        s.subrange(n as int, s.len() as int)
    } else {
        Seq::empty()
    }
}

proof fn lemma_filter_step<A>(s: Seq<A>, p: spec_fn(A) -> bool, i: int)
    requires
        0 <= i < s.len(),
    ensures
        s.subrange(0, i + 1).filter(p) == (if p(s[i]) {
            s.subrange(0, i).filter(p).push(s[i])
        } else {
            s.subrange(0, i).filter(p)
        }),
{
    reveal(Seq::filter);
    assert(s.subrange(0, i + 1).drop_last() =~= s.subrange(0, i));
}

/// The word lists of the lines after the first `skip` that have at least `min` words.
pub open spec fn word_rows(lines: Seq<Seq<char>>, skip: nat, min: nat) -> Seq<Seq<Seq<char>>> {
    drop_n(lines, skip).map_values(|l: Seq<char>| words(l)).filter(
        |w: Seq<Seq<char>>| w.len() >= min,
    )
}

pub open spec fn rows_view(r: Seq<Vec<Vec<char>>>) -> Seq<Seq<Seq<char>>> {
    r.map_values(|w: Vec<Vec<char>>| seqs(w@))
}

/// Splits into words each line after the first `skip` and keeps those with at least `min` words.
fn rows_with(lines: &Vec<Vec<char>>, skip: usize, min: usize) -> (r: Vec<Vec<Vec<char>>>)
    ensures
        rows_view(r@) == word_rows(seqs(lines@), skip as nat, min as nat),
{
    let ghost ls = drop_n(seqs(lines@), skip as nat).map_values(|l: Seq<char>| words(l));
    let ghost p = |w: Seq<Seq<char>>| w.len() >= min;
    let mut r: Vec<Vec<Vec<char>>> = Vec::new();
    if skip >= lines.len() {
        assert(ls =~= Seq::empty());
        reveal(Seq::filter);
        assert(rows_view(r@) =~= ls.filter(p));
        return r;
    }
    let mut i: usize = skip;
    assert(ls.subrange(0, 0).filter(p) =~= Seq::empty()) by {
        reveal(Seq::filter);
    }
    while i < lines.len()
        invariant
            skip <= i <= lines.len(),
            ls == drop_n(seqs(lines@), skip as nat).map_values(|l: Seq<char>| words(l)),
            ls.len() == lines.len() - skip,
            p == (|w: Seq<Seq<char>>| w.len() >= min),
            rows_view(r@) == ls.subrange(0, i - skip).filter(p),
        decreases lines.len() - i,
    {
        let w = split_words(&lines[i]);
        proof {
            lemma_filter_step(ls, p, i - skip);
            assert(ls[i - skip] == seqs(w@));
        }
        if w.len() >= min {
            let ghost before = r@;
            r.push(w);
            assert(rows_view(r@) =~= rows_view(before).push(seqs(w@)));
        }
        i = i + 1;
    }
    assert(ls.subrange(0, i - skip) =~= ls);
    r
}

/// Whether a `df` row reads: three sizes and a percentage.
pub open spec fn disk_row_ok(w: Seq<Seq<char>>) -> bool {
    size_value(w[1]) is Some && size_value(w[2]) is Some && size_value(w[3]) is Some
        && decimal_milli(strip_end(w[4], |x: char| x == '%')) is Some
}

/// The disk that a `df` row describes.
pub open spec fn disk_matches(d: DiskInfo, w: Seq<Seq<char>>) -> bool {
    &&& d.device@ == w[0]
    &&& d.total == size_value(w[1])->0
    &&& d.used == size_value(w[2])->0
    &&& d.free == size_value(w[3])->0
    &&& d.usage_milli_percent == decimal_milli(strip_end(w[4], |x: char| x == '%'))->0
    &&& d.mount_point@ == w[5]
    &&& d.filesystem@ == (if w.len() > 6 {
        w[6]
    } else {
        "unknown"@
    })
}

/// The rows of `df` output: lines after the header with at least six words.
pub open spec fn df_rows(text: Seq<char>) -> Seq<Seq<Seq<char>>> {
    word_rows(text_lines(text), 1, 6)
}

fn disk_from_row(w: &Vec<Vec<char>>) -> (r: Option<DiskInfo>)
    requires
        w.len() >= 6,
    ensures
        r is Some <==> disk_row_ok(seqs(w@)),
        r matches Some(d) ==> disk_matches(d, seqs(w@)),
{
    let ghost sw = seqs(w@);
    assert(sw[1] == w[1]@ && sw[2] == w[2]@ && sw[3] == w[3]@ && sw[4] == w[4]@);
    assert(sw[0] == w[0]@ && sw[5] == w[5]@);
    let total = size_of_chars(&w[1]);
    let used = size_of_chars(&w[2]);
    let free = size_of_chars(&w[3]);
    let pct = parse_decimal_milli(&strip_end_char(&w[4], '%'));
    match (total, used, free, pct) {
        (Some(total), Some(used), Some(free), Some(pct)) => {
            let filesystem = if w.len() > 6 {
                assert(sw[6] == w[6]@);
                string_of(&w[6])
            } else {
                "unknown".to_string()
            };
            Some(
                DiskInfo {
                    device: string_of(&w[0]),
                    mount_point: string_of(&w[5]),
                    total,
                    used,
                    free,
                    usage_milli_percent: pct,
                    filesystem,
                },
            )
        },
        _ => None,
    }
}

/// What `str::to_lowercase` gives for a text.
pub uninterp spec fn lower_of(s: Seq<char>) -> Seq<char>;

/// Relies on `str::to_lowercase`: the lower-case form depends on the
/// characters alone.
#[verifier::external_body]
fn lowercase(s: &str) -> (r: String)
    ensures
        r@ == lower_of(s@),
{
    s.to_lowercase()
}

/// The port that a `netstat` row listens on: what follows the last `:` of its
/// fourth word.
pub open spec fn row_port(w: Seq<Seq<char>>) -> Option<nat> {
    uint_value(split_by(w[3], ':').last(), u16::MAX as nat)
}

/// The rows of `netstat -tuln` output that name a port.
pub open spec fn netstat_rows(text: Seq<char>) -> Seq<Seq<Seq<char>>> {
    word_rows(text_lines(text), 2, 4).filter(|w: Seq<Seq<char>>| row_port(w) is Some)
}

/// The listening port that a `netstat` row describes.
pub open spec fn port_matches(p: PortInfo, w: Seq<Seq<char>>) -> bool {
    &&& p.port == row_port(w)->0
    &&& p.protocol@ == lower_of(w[0])
    &&& p.state@ == "LISTEN"@
    &&& p.process is None
    &&& p.pid is None
}

/// Whether a line of `/proc/net/dev` describes an interface: a `:` and at
/// least sixteen counters after it.
pub open spec fn netdev_line_ok(l: Seq<char>) -> bool {
    split_by(l, ':').len() >= 2 && words(split_by(l, ':')[1]).len() >= 16
}

/// The interface lines of `/proc/net/dev`, after its two header lines.
pub open spec fn netdev_lines(text: Seq<char>) -> Seq<Seq<char>> {
    drop_n(text_lines(text), 2).filter(|l: Seq<char>| netdev_line_ok(l))
}

/// A counter; one that does not read counts 0.
pub open spec fn counter(w: Seq<char>) -> nat {
    match u64_of(w) {
        Some(v) => v,
        None => 0,
    }
}

/// The interface that a `/proc/net/dev` line describes: receive counters come
/// first, transmit counters from the ninth on.
pub open spec fn network_matches(n: NetworkInfo, l: Seq<char>) -> bool {
    let stats = words(split_by(l, ':')[1]);
    &&& n.interface@ == trim(split_by(l, ':')[0])
    &&& n.rx_bytes == counter(stats[0])
    &&& n.rx_packets == counter(stats[1])
    &&& n.rx_errors == counter(stats[2])
    &&& n.tx_bytes == counter(stats[8])
    &&& n.tx_packets == counter(stats[9])
    &&& n.tx_errors == counter(stats[10])
    &&& n.ip_addresses@.len() == 0
}

fn counter_of(w: &Vec<char>) -> (r: u64)
    ensures
        r == counter(w@),
{
    match parse_uint(w, u64::MAX) {
        Some(v) => v,
        None => 0,
    }
}

fn network_from_line(l: &Vec<char>) -> (r: Option<NetworkInfo>)
    ensures
        r is Some <==> netdev_line_ok(l@),
        r matches Some(n) ==> network_matches(n, l@),
{
    let parts = split_chars(l, ':');
    if parts.len() < 2 {
        return None;
    }
    assert(seqs(parts@)[0] == parts[0]@ && seqs(parts@)[1] == parts[1]@);
    let stats = split_words(&parts[1]);
    if stats.len() < 16 {
        return None;
    }
    let ghost st = seqs(stats@);
    assert(st[0] == stats[0]@ && st[1] == stats[1]@ && st[2] == stats[2]@);
    assert(st[8] == stats[8]@ && st[9] == stats[9]@ && st[10] == stats[10]@);
    Some(
        NetworkInfo {
            interface: string_of(&trim_chars(&parts[0])),
            rx_bytes: counter_of(&stats[0]),
            tx_bytes: counter_of(&stats[8]),
            rx_packets: counter_of(&stats[1]),
            tx_packets: counter_of(&stats[9]),
            rx_errors: counter_of(&stats[2]),
            tx_errors: counter_of(&stats[10]),
            ip_addresses: Vec::new(),
        },
    )
}

fn port_from_row(w: &Vec<Vec<char>>) -> (r: Option<PortInfo>)
    requires
        w.len() >= 4,
    ensures
        r is Some <==> row_port(seqs(w@)) is Some,
        r matches Some(p) ==> port_matches(p, seqs(w@)),
{
    let ghost sw = seqs(w@);
    assert(sw[0] == w[0]@ && sw[3] == w[3]@);
    let pieces = split_chars(&w[3], ':');
    proof {
        crate::text::lemma_split_by_nonempty(w[3]@, ':');
    }
    assert(seqs(pieces@).last() == pieces[pieces.len() - 1]@);
    match parse_uint(&pieces[pieces.len() - 1], 65535) {
        Some(port) => Some(
            PortInfo {
                port: port as u16,
                protocol: lowercase(string_of(&w[0]).as_str()),
                state: "LISTEN".to_string(),
                process: None,
                pid: None,
            },
        ),
        None => None,
    }
}

impl MonitoringService {
    /// Reads `df -h` output: one disk per line after the header with at least
    /// six words; fails if such a line holds a size or percentage that does not
    /// read. The filesystem is the seventh word, or `unknown`.
    pub fn parse_df_output(output: &str) -> (r: Result<Vec<DiskInfo>, ParseError>)
        ensures
            r is Ok <==> (forall|i: int|
                0 <= i < df_rows(output@).len() ==> disk_row_ok(#[trigger] df_rows(output@)[i])),
            r matches Ok(v) ==> v@.len() == df_rows(output@).len() && forall|i: int|
                0 <= i < v@.len() ==> disk_matches(#[trigger] v@[i], df_rows(output@)[i]),
    {
        let lines = lines_of(output);
        let rows = rows_with(&lines, 1, 6);
        let ghost rv = rows_view(rows@);
        assert(rv == df_rows(output@));
        let mut disks: Vec<DiskInfo> = Vec::new();
        let mut i: usize = 0;
        while i < rows.len()
            invariant
                i <= rows.len(),
                rv == rows_view(rows@),
                rv == df_rows(output@),
                forall|j: int| 0 <= j < i ==> disk_row_ok(#[trigger] rv[j]),
                disks@.len() == i,
                forall|j: int| 0 <= j < i ==> disk_matches(#[trigger] disks@[j], rv[j]),
            decreases rows.len() - i,
        {
            assert(rv[i as int] == seqs(rows[i as int]@));
            assert(rv[i as int].len() >= 6) by {
                reveal(Seq::filter);
                let ls = drop_n(text_lines(output@), 1).map_values(|l: Seq<char>| words(l));
                ls.lemma_filter_pred(|w: Seq<Seq<char>>| w.len() >= 6, i as int);
            }
            match disk_from_row(&rows[i]) {
                Some(d) => {
                    disks.push(d);
                },
                None => {
                    return Err(ParseError);
                },
            }
            i = i + 1;
        }
        Ok(disks)
    }

    /// Reads `/proc/net/dev`; counters that do not read count 0.
    pub fn parse_net_dev(output: &str) -> (r: Result<Vec<NetworkInfo>, ParseError>)
        ensures
            r matches Ok(v) && v@.len() == netdev_lines(output@).len() && forall|i: int|
                0 <= i < v@.len() ==> network_matches(#[trigger] v@[i], netdev_lines(output@)[i]),
    {
        let lines = lines_of(output);
        let ghost ls = drop_n(text_lines(output@), 2);
        let ghost p = |l: Seq<char>| netdev_line_ok(l);
        let mut nets: Vec<NetworkInfo> = Vec::new();
        if lines.len() <= 2 {
            assert(ls =~= Seq::empty());
            reveal(Seq::filter);
            return Ok(nets);
        }
        let mut i: usize = 2;
        assert(ls.subrange(0, 0).filter(p) =~= Seq::empty()) by {
            reveal(Seq::filter);
        }
        while i < lines.len()
            invariant
                2 <= i <= lines.len(),
                ls == drop_n(text_lines(output@), 2),
                ls == drop_n(seqs(lines@), 2),
                ls.len() == lines.len() - 2,
                p == (|l: Seq<char>| netdev_line_ok(l)),
                nets@.len() == ls.subrange(0, i - 2).filter(p).len(),
                forall|j: int|
                    0 <= j < nets@.len() ==> network_matches(
                        #[trigger] nets@[j],
                        ls.subrange(0, i - 2).filter(p)[j],
                    ),
            decreases lines.len() - i,
        {
            proof {
                lemma_filter_step(ls, p, i - 2);
            }
            assert(ls[i - 2] == lines[i as int]@);
            match network_from_line(&lines[i]) {
                Some(n) => {
                    nets.push(n);
                },
                None => {},
            }
            i = i + 1;
        }
        assert(ls.subrange(0, i - 2) =~= ls);
        Ok(nets)
    }

    /// Reads `netstat -tuln` output: after two header lines, each line of at
    /// least four words whose local address ends in `:port` is a listening
    /// port, its protocol the first word in lower case as `str::to_lowercase` gives it.
    pub fn parse_netstat(output: &str) -> (r: Result<Vec<PortInfo>, ParseError>)
        ensures
            r matches Ok(v) && v@.len() == netstat_rows(output@).len() && forall|i: int|
                0 <= i < v@.len() ==> port_matches(#[trigger] v@[i], netstat_rows(output@)[i]),
    {
        let lines = lines_of(output);
        let rows = rows_with(&lines, 2, 4);
        let ghost rv = rows_view(rows@);
        let ghost p = |w: Seq<Seq<char>>| row_port(w) is Some;
        let mut ports: Vec<PortInfo> = Vec::new();
        let mut i: usize = 0;
        assert(rv.subrange(0, 0).filter(p) =~= Seq::empty()) by {
            reveal(Seq::filter);
        }
        while i < rows.len()
            invariant
                i <= rows.len(),
                rv == rows_view(rows@),
                rv == word_rows(text_lines(output@), 2, 4),
                p == (|w: Seq<Seq<char>>| row_port(w) is Some),
                ports@.len() == rv.subrange(0, i as int).filter(p).len(),
                forall|j: int|
                    0 <= j < ports@.len() ==> port_matches(
                        #[trigger] ports@[j],
                        rv.subrange(0, i as int).filter(p)[j],
                    ),
            decreases rows.len() - i,
        {
            proof {
                lemma_filter_step(rv, p, i as int);
            }
            assert(rv[i as int] == seqs(rows[i as int]@));
            assert(rv[i as int].len() >= 4) by {
                let ls = drop_n(text_lines(output@), 2).map_values(|l: Seq<char>| words(l));
                ls.lemma_filter_pred(|w: Seq<Seq<char>>| w.len() >= 4, i as int);
            }
            match port_from_row(&rows[i]) {
                Some(pi) => {
                    ports.push(pi);
                },
                None => {},
            }
            i = i + 1;
        }
        assert(rv.subrange(0, i as int) =~= rv);
        Ok(ports)
    }

    /// `ss` output is not read: no ports.
    pub fn parse_ss(_output: &str) -> (r: Result<Vec<PortInfo>, ParseError>)
        ensures
            r matches Ok(v) && v@.len() == 0,
    {
        Ok(Vec::new())
    }

    /// `ifconfig` output is not read: no interfaces.
    pub fn parse_ifconfig(_output: &str) -> (r: Result<Vec<NetworkInfo>, ParseError>)
        ensures
            r matches Ok(v) && v@.len() == 0,
    {
        Ok(Vec::new())
    }

    /// `lsblk` output is not read: no disks.
    pub fn parse_lsblk_output(_output: &str) -> (r: Result<Vec<DiskInfo>, ParseError>)
        ensures
            r matches Ok(v) && v@.len() == 0,
    {
        Ok(Vec::new())
    }
}


/// The seven groups of the leftmost match of the pattern
/// `cpu\s+(\d+)\s+(\d+)\s+(\d+)\s+(\d+)\s+(\d+)\s+(\d+)\s+(\d+)` in a text.
pub uninterp spec fn cpu_counter_captures(text: Seq<char>) -> Option<Seq<Seq<char>>>;

/// The group of the leftmost match of the pattern `Cpu\(s\):\s+(\d+\.?\d*)%us` in a text.
pub uninterp spec fn top_usage_capture(text: Seq<char>) -> Option<Seq<char>>;

/// The group of the leftmost match of the pattern `time=(\d+\.?\d*)` in a text.
pub uninterp spec fn ping_time_capture(text: Seq<char>) -> Option<Seq<char>>;

pub open spec fn strings(v: Seq<String>) -> Seq<Seq<char>> {
    v.map_values(|s: String| s@)
}

/// Relies on `regex::Regex::captures`: the seven groups of the leftmost match
/// of the `/proc/stat` counter pattern, each group being mandatory.
#[verifier::external_body]
fn capture_cpu_counters(text: &str) -> (r: Option<Vec<String>>)
    ensures
        r matches Some(v) ==> cpu_counter_captures(text@) == Some(strings(v@)) && v@.len() == 7,
        r is None ==> cpu_counter_captures(text@) is None,
{
    let re = regex::Regex::new(r"cpu\s+(\d+)\s+(\d+)\s+(\d+)\s+(\d+)\s+(\d+)\s+(\d+)\s+(\d+)").unwrap();
    re.captures(text).map(|c| (1..8).map(|k| c[k].to_string()).collect())
}

/// Relies on `regex::Regex::captures`: the group of the leftmost match of the
/// `top` summary pattern.
#[verifier::external_body]
fn capture_top_usage(text: &str) -> (r: Option<String>)
    ensures
        r matches Some(v) ==> top_usage_capture(text@) == Some(v@),
        r is None ==> top_usage_capture(text@) is None,
{
    let re = regex::Regex::new(r"Cpu\(s\):\s+(\d+\.?\d*)%us").unwrap();
    re.captures(text).map(|c| c[1].to_string())
}

/// Relies on `regex::Regex::captures`: the group of the leftmost match of
/// `time=(\d+\.?\d*)`.
#[verifier::external_body]
fn capture_ping_time(text: &str) -> (r: Option<String>)
    ensures
        r matches Some(v) ==> ping_time_capture(text@) == Some(v@),
        r is None ==> ping_time_capture(text@) is None,
{
    let re = regex::Regex::new(r"time=(\d+\.?\d*)").unwrap();
    re.captures(text).map(|c| c[1].to_string())
}

/// The sum of the first `n` counters.
pub open spec fn counters_sum(v: Seq<nat>, n: nat) -> nat
    decreases n,
{
    if n == 0 {
        0
    } else {
        counters_sum(v, (n - 1) as nat) + v[n - 1]
    }
}

proof fn lemma_counters_sum_grows(v: Seq<nat>, n: nat, m: nat)
    requires
        n <= m,
    ensures
        counters_sum(v, n) <= counters_sum(v, m),
    decreases m - n,
{
    if n < m {
        lemma_counters_sum_grows(v, n, (m - 1) as nat);
    }
}

/// The values of the seven `/proc/stat` counters (user, nice, system, idle,
/// iowait, irq, softirq), when all read.
pub open spec fn counter_values(caps: Seq<Seq<char>>) -> Option<Seq<nat>> {
    if caps.len() == 7 && forall|k: int| 0 <= k < 7 ==> (#[trigger] u64_of(caps[k])) is Some {
        Some(Seq::new(7, |k: int| u64_of(caps[k])->0))
    } else {
        None
    }
}

/// CPU usage since boot in thousandths of a percent: the share of the total
/// that is neither idle nor waiting on I/O, rounded down; 0 for a zero total.
pub open spec fn cpu_usage_of(caps: Seq<Seq<char>>) -> Option<nat> {
    match counter_values(caps) {
        Some(v) => {
            let total = counters_sum(v, 7);
            if total > u64::MAX {
                None
            } else if total == 0 {
                Some(0)
            } else {
                Some(((total - v[3] - v[4]) * 100000 / (total as int)) as nat)
            }
        },
        None => None,
    }
}

/// What `parse_cpu_usage` gives for a text.
pub open spec fn cpu_usage_spec(text: Seq<char>) -> Option<nat> {
    match cpu_counter_captures(text) {
        Some(c) => cpu_usage_of(c),
        None => match top_usage_capture(text) {
            Some(u) => decimal_milli(u),
            None => None,
        },
    }
}

/// The latency in microseconds that a ping output reports.
pub open spec fn ping_latency_spec(text: Seq<char>) -> Option<nat> {
    match ping_time_capture(text) {
        Some(c) => decimal_milli(c),
        None => None,
    }
}

pub open spec fn result_of(o: Option<nat>) -> Result<u64, ParseError> {
    match o {
        Some(v) => Ok(v as u64),
        None => Err(ParseError),
    }
}

impl MonitoringService {
    /// CPU usage from the seven counters of a `/proc/stat` line.
    pub fn cpu_usage_from_counters(caps: &Vec<String>) -> (r: Result<u64, ParseError>)
        ensures
            r == result_of(cpu_usage_of(strings(caps@))),
    {
        let ghost cs = strings(caps@);
        if caps.len() != 7 {
            return Err(ParseError);
        }
        let mut vals: Vec<u64> = Vec::new();
        let mut k: usize = 0;
        while k < 7
            invariant
                k <= 7,
                caps@.len() == 7,
                cs == strings(caps@),
                vals@.len() == k,
                forall|j: int| 0 <= j < k ==> (#[trigger] u64_of(cs[j])) == Some(vals@[j] as nat),
            decreases 7 - k,
        {
            assert(cs[k as int] == caps[k as int]@);
            match parse_uint(&chars_of(caps[k].as_str()), u64::MAX) {
                Some(v) => {
                    vals.push(v);
                },
                None => {
                    assert(u64_of(cs[k as int]) is None);
                    return Err(ParseError);
                },
            }
            k = k + 1;
        }
        let ghost gv = Seq::new(7, |j: int| u64_of(cs[j])->0);
        assert(counter_values(cs) == Some(gv));
        let mut total: u64 = 0;
        let mut j: usize = 0;
        while j < 7
            invariant
                j <= 7,
                vals@.len() == 7,
                cs == strings(caps@),
                counter_values(cs) == Some(gv),
                forall|m: int| 0 <= m < 7 ==> gv[m] == vals@[m] as nat,
                total as nat == counters_sum(gv, j as nat),
            decreases 7 - j,
        {
            if vals[j] > u64::MAX - total {
                proof {
                    assert(counters_sum(gv, (j + 1) as nat) == counters_sum(gv, j as nat) + gv[j as int]);
                    assert(counters_sum(gv, (j + 1) as nat) > u64::MAX);
                    lemma_counters_sum_grows(gv, (j + 1) as nat, 7);
                }
                return Err(ParseError);
            }
            total = total + vals[j];
            j = j + 1;
        }
        if total == 0 {
            return Ok(0);
        }
        assert(vals[3] + vals[4] <= total) by {
            reveal_with_fuel(counters_sum, 8);
            assert(counters_sum(gv, 7) >= gv[3] + gv[4]);
        }
        let busy: u64 = total - vals[3] - vals[4];
        assert(busy as nat * 100000 / total as nat <= 100000) by (nonlinear_arith)
            requires
                busy <= total,
                total > 0,
        ;
        let usage: u128 = (busy as u128) * 100000 / (total as u128);
        Ok(usage as u64)
    }

    /// CPU usage in thousandths of a percent, from a `/proc/stat` line or, failing
    /// that, from a `top` summary line.
    pub fn parse_cpu_usage(output: &str) -> (r: Result<u64, ParseError>)
        ensures
            r == result_of(cpu_usage_spec(output@)),
    {
        match capture_cpu_counters(output) {
            Some(c) => Self::cpu_usage_from_counters(&c),
            None => match capture_top_usage(output) {
                Some(u) => match parse_decimal_milli(&chars_of(u.as_str())) {
                    Some(v) => Ok(v),
                    None => Err(ParseError),
                },
                None => Err(ParseError),
            },
        }
    }

    /// The latency in microseconds that a captured `time=` value gives.
    pub fn latency_from_capture(cap: &str) -> (r: Option<u64>)
        ensures
            r matches Some(v) ==> decimal_milli(cap@) == Some(v as nat),
            r is None ==> decimal_milli(cap@) is None,
    {
        parse_decimal_milli(&chars_of(cap))
    }

    /// The round trip time, in microseconds, that a ping output reports in a
    /// `time=` token.
    pub fn extract_ping_latency(output: &str) -> (r: Option<u64>)
        ensures
            r matches Some(v) ==> ping_latency_spec(output@) == Some(v as nat),
            r is None ==> ping_latency_spec(output@) is None,
    {
        match capture_ping_time(output) {
            Some(c) => Self::latency_from_capture(c.as_str()),
            None => None,
        }
    }

    /// The reachability result for `target` from a ping output: success exactly
    /// when a latency is reported.
    pub fn ping_result(target: &str, output: &str) -> (r: PingTest)
        ensures
            r.target@ == target@,
            r.success == (ping_latency_spec(output@) is Some),
            r.success ==> r.latency_micros == Some(ping_latency_spec(output@)->0 as u64)
                && r.error is None,
            !r.success ==> r.latency_micros is None && r.error is Some,
    {
        match Self::extract_ping_latency(output) {
            Some(latency) => PingTest {
                target: target.to_string(),
                latency_micros: Some(latency),
                success: true,
                error: None,
            },
            None => PingTest {
                target: target.to_string(),
                latency_micros: None,
                success: false,
                error: Some("Could not parse latency".to_string()),
            },
        }
    }
}

} // verus!
