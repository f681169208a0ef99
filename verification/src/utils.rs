//! Formatting and sanitising helpers shared by every view.
use vstd::prelude::*;
use crate::text::{
    chars_of, concat_chars, contains, contains_exec, is_control, is_control_char, is_whitespace,
    occurs_at,
    replace_all, replace_chars, starts_with, starts_with_exec, string_of, take_at_most, trim,
    trim_chars, trim_end, trim_start, char_from_ascii,
};

verus! {

// ----------------------------------------------------------------------
// format_bytes
// ----------------------------------------------------------------------

/// 1024 to the power `k`.
pub open spec fn pow1024(k: nat) -> nat
    decreases k,
{
    if k == 0 {
        1
    } else {
        1024 * pow1024((k - 1) as nat)
    }
}

/// The binary unit that a byte count is shown in: the largest of
/// B, KB, MB, GB, TB whose size does not exceed the count.
pub open spec fn byte_unit(b: nat) -> nat {
    if b < 1024 {
        0
    } else if b < 1024 * 1024 {
        1
    } else if b < 1024 * 1024 * 1024 {
        2
    } else if b < 1024 * 1024 * 1024 * 1024 {
        3
    } else {
        4
    }
}

pub open spec fn unit_name(u: nat) -> Seq<char> {
    if u == 0 {
        "B"@
    } else if u == 1 {
        "KB"@
    } else if u == 2 {
        "MB"@
    } else if u == 3 {
        "GB"@
    } else {
        "TB"@
    }
}

/// The power of two that the nearest double to `b` is a multiple of: 1
/// below 2^53, doubled for each further binary digit.
pub open spec fn f64_scale(b: nat) -> nat
    decreases b,
{
    if b < 0x20_0000_0000_0000 {
        1
    } else {
        2 * f64_scale(b / 2)
    }
}

/// The value of the double nearest to `b`, ties to even (`b as f64`).
pub open spec fn nearest_f64(b: nat) -> nat {
    let d = f64_scale(b);
    let m = b / d;
    let r = b % d;
    if 2 * r > d || (2 * r == d && m % 2 == 1) {
        (m + 1) * d
    } else {
        m * d
    }
}

/// `v / d` in hundredths, rounded to the nearest, ties to even.
pub open spec fn hundredths(v: nat, d: nat) -> nat {
    let q = (v * 100) / d;
    let r = (v * 100) % d;
    if 2 * r > d || (2 * r == d && q % 2 == 1) {
        q + 1
    } else {
        q
    }
}

pub open spec fn digit(n: nat) -> char {
    ((n + 48) as u32) as char
}

/// Decimal digits of `n`, most significant first, no leading zeros.
pub open spec fn decimal(n: nat) -> Seq<char>
    decreases n,
{
    if n < 10 {
        seq![digit(n)]
    } else {
        decimal(n / 10).push(digit(n % 10))
    }
}

/// `format_bytes`: the count itself in bytes below 1 KB, otherwise the
/// count as a double divided by the unit, with two decimals.
pub open spec fn format_bytes_spec(b: nat) -> Seq<char> {
    let u = byte_unit(b);
    if u == 0 {
        decimal(b) + " B"@
    } else {
        let h = hundredths(nearest_f64(b), pow1024(u));
        decimal(h / 100) + "."@ + seq![digit((h % 100) / 10), digit(h % 10)] + " "@ + unit_name(
            u,
        )
    }
}

fn digit_char(n: u64) -> (c: char)
    requires
        n < 10,
    ensures
        c == digit(n as nat),
{
    let c = char_from_ascii((n + 48) as u32);
    c
}

fn decimal_chars(n: u64) -> (v: Vec<char>)
    ensures
        v@ == decimal(n as nat),
    decreases n,
{
    if n < 10 {
        let mut v = Vec::new();
        v.push(digit_char(n));
        v
    } else {
        let mut v = decimal_chars(n / 10);
        v.push(digit_char(n % 10));
        v
    }
}

fn unit_label(u: u64) -> (s: &'static str)
    ensures
        s@ == unit_name(u as nat),
{
    if u == 0 {
        "B"
    } else if u == 1 {
        "KB"
    } else if u == 2 {
        "MB"
    } else if u == 3 {
        "GB"
    } else {
        "TB"
    }
}

/// Every positive count converts to a positive double.
pub proof fn lemma_nearest_f64_positive(b: nat)
    requires
        b > 0,
    ensures
        nearest_f64(b) > 0,
{
    lemma_f64_scale_positive(b);
    lemma_f64_scale_small(b);
    let d = f64_scale(b);
    let m = b / d;
    vstd::arithmetic::div_mod::lemma_fundamental_div_mod(b as int, d as int);
    if b < 0x20_0000_0000_0000 {
        assert(d == 1);
        vstd::arithmetic::div_mod::lemma_div_basics(b as int);
        assert(m == b);
    } else {
        assert(d <= b);
        vstd::arithmetic::div_mod::lemma_div_is_ordered(d as int, b as int, d as int);
        vstd::arithmetic::div_mod::lemma_div_by_self(d as int);
    }
    assert(m >= 1);
    assert(m * d > 0 && (m + 1) * d > 0) by (nonlinear_arith)
        requires
            m >= 1,
            d >= 1,
    ;
}

proof fn lemma_f64_scale_positive(b: nat)
    ensures
        f64_scale(b) >= 1,
    decreases b,
{
    if b >= 0x20_0000_0000_0000 {
        lemma_f64_scale_positive(b / 2);
    }
}

/// The scale never exceeds the count it scales, once the count is past
/// 2^53.
proof fn lemma_f64_scale_small(b: nat)
    ensures
        f64_scale(b) <= b || b < 0x20_0000_0000_0000,
    decreases b,
{
    if b >= 0x20_0000_0000_0000 {
        lemma_f64_scale_small(b / 2);
        lemma_f64_scale_positive(b / 2);
    }
}

/// `b as f64`, as an exact integer.
pub(crate) fn nearest_f64_exec(b: u64) -> (v: u128)
    ensures
        v == nearest_f64(b as nat),
        v <= b + 4096,
        b > 0 ==> v > 0,
{
    let mut x: u64 = b;
    let mut d: u64 = 1;
    while x >= 0x20_0000_0000_0000
        invariant
            1 <= d <= 4096,
            x == b / d,
            f64_scale(b as nat) == d * f64_scale(x as nat),
            d > 1 ==> x >= 0x10_0000_0000_0000,
            d == 1 ==> x == b,
        decreases x,
    {
        assert(d < 2048) by (nonlinear_arith)
            requires
                x == b / d,
                d >= 1,
                x >= 0x20_0000_0000_0000,
                b < 0x1_0000_0000_0000_0000,
        {
            vstd::arithmetic::div_mod::lemma_fundamental_div_mod(b as int, d as int);
        }
        proof {
            vstd::arithmetic::div_mod::lemma_div_denominator(b as int, d as int, 2);
            let fx = f64_scale((x / 2) as nat);
            assert(f64_scale(x as nat) == 2 * fx);
            assert(d * (2 * fx) == (d * 2) * fx) by (nonlinear_arith);
        }
        x = x / 2;
        d = d * 2;
    }
    assert(f64_scale(x as nat) == 1);
    let m = x as u128;
    let dd = d as u128;
    let r = (b % d) as u128;
    proof {
        vstd::arithmetic::div_mod::lemma_fundamental_div_mod(b as int, d as int);
        assert(dd * m + r == b);
        assert(r < dd);
        let fx = f64_scale(x as nat);
        assert(d * fx == d) by (nonlinear_arith)
            requires
                fx == 1,
        ;
        assert(f64_scale(b as nat) == d as nat);
        assert(b as nat / f64_scale(b as nat) == m);
        assert(b as nat % f64_scale(b as nat) == r);
    }
    if 2 * r > dd || (2 * r == dd && m % 2 == 1) {
        assert((m + 1) * dd <= b + 4096) by (nonlinear_arith)
            requires
                dd * m + r == b,
                r < dd,
                dd >= 1,
                dd <= 4096,
        ;
        assert((m + 1) * dd > 0) by (nonlinear_arith)
            requires
                dd >= 1,
        ;
        (m + 1) * dd
    } else {
        assert(m * dd <= b) by (nonlinear_arith)
            requires
                dd * m + r == b,
                r >= 0,
        ;
        assert(b > 0 ==> m * dd > 0) by (nonlinear_arith)
            requires
                b > 0 ==> m >= 1,
                dd >= 1,
        ;
        m * dd
    }
}

fn unit_divisor(u: u64) -> (d: u128)
    requires
        1 <= u <= 4,
    ensures
        d == pow1024(u as nat),
        1024 <= d <= 0x100_0000_0000,
{
    let d: u128 = if u == 1 {
        1024
    } else if u == 2 {
        1024 * 1024
    } else if u == 3 {
        1024 * 1024 * 1024
    } else {
        1024 * 1024 * 1024 * 1024
    };
    assert(d == pow1024(u as nat)) by {
        reveal_with_fuel(pow1024, 5);
    }
    d
}

/// `bytes as f64` divided by the unit, in hundredths, rounded as `{:.2}`
/// rounds.
fn scaled_hundredths(bytes: u64, u: u64) -> (h: u64)
    requires
        1 <= u <= 4,
    ensures
        h == hundredths(nearest_f64(bytes as nat), pow1024(u as nat)),
{
    let divisor = unit_divisor(u);
    let v = nearest_f64_exec(bytes);
    let t = v * 100;
    let q = t / divisor;
    let r = t % divisor;
    assert(q * 1024 <= t) by (nonlinear_arith)
        requires
            q == t / divisor,
            divisor >= 1024,
    {
        vstd::arithmetic::div_mod::lemma_fundamental_div_mod(t as int, divisor as int);
    }
    assert(q < 0x1_0000_0000_0000_0000) by (nonlinear_arith)
        requires
            q * 1024 <= t,
            t == v * 100,
            v <= 0x1_0000_0000_0001_0000,
    ;
    assert(r < divisor);
    let h: u128 = if 2 * r > divisor || (2 * r == divisor && q % 2 == 1) {
        q + 1
    } else {
        q
    };
    h as u64
}

/// The text of a scaled size: whole part, two decimals, the unit name.
fn scaled_text(h: u64, u: u64) -> (v: Vec<char>)
    ensures
        v@ == decimal((h / 100) as nat) + "."@ + seq![
            digit(((h % 100) / 10) as nat),
            digit((h % 10) as nat),
        ] + " "@ + unit_name(u as nat),
{
    let whole = h / 100;
    let frac = h % 100;
    let mut out = decimal_chars(whole);
    let ghost head = out@;
    out.push('.');
    out.push(digit_char(frac / 10));
    out.push(digit_char(frac % 10));
    out.push(' ');
    let label = chars_of(unit_label(u));
    let out = concat_chars(&out, &label);
    proof {
        reveal_strlit(".");
        reveal_strlit(" ");
        assert("."@ =~= seq!['.']);
        assert(" "@ =~= seq![' ']);
        assert(h % 10 == frac % 10);
        assert(out@ =~= head + seq!['.'] + seq![
            digit(((h % 100) / 10) as nat),
            digit((h % 10) as nat),
        ] + seq![' '] + unit_name(u as nat));
    }
    out
}

/// Human-readable size in binary units: "1023 B", "1.00 KB", "1.50 MB".
pub fn format_bytes(bytes: u64) -> (s: String)
    ensures
        s@ == format_bytes_spec(bytes as nat),
{
    let u: u64 = if bytes < 1024 {
        0
    } else if bytes < 1024 * 1024 {
        1
    } else if bytes < 1024 * 1024 * 1024 {
        2
    } else if bytes < 1024 * 1024 * 1024 * 1024 {
        3
    } else {
        4
    };
    if u == 0 {
        let digits = decimal_chars(bytes);
        let rest = chars_of(" B");
        return string_of(&concat_chars(&digits, &rest));
    }
    let h = scaled_hundredths(bytes, u);
    string_of(&scaled_text(h, u))
}

// ----------------------------------------------------------------------
// sanitize_error_message
// ----------------------------------------------------------------------

/// The text replacements applied to an error message, in order.
pub open spec fn scrub_error(e: Seq<char>) -> Seq<char> {
    let r = replace_all(e, "/home/"@, "~/"@);
    let r = replace_all(r, "/Users/"@, "~/"@);
    let r = replace_all(r, "C:\\Users\\"@, "~\\"@);
    let r = replace_all(r, "C:/Users/"@, "~/"@);
    let r = replace_all(r, "/tmp/"@, "~/"@);
    let r = replace_all(r, "/var/"@, "~/"@);
    let r = replace_all(r, "/etc/"@, "~/"@);
    let r = replace_all(r, "No such file or directory"@, "File not found"@);
    let r = replace_all(r, "Permission denied"@, "Access denied"@);
    replace_all(r, "Operation not permitted"@, "Not allowed"@)
}

/// The most characters of a scrubbed message that are kept.
pub const MAX_ERROR_CHARS: usize = 200;

pub open spec fn sanitize_error_spec(e: Seq<char>) -> Seq<char> {
    let t = trim(take_at_most(scrub_error(e), MAX_ERROR_CHARS as int));
    if t.len() == 0 {
        "An error occurred"@
    } else {
        t
    }
}

fn replace_lit(v: &Vec<char>, from: &str, to: &str) -> (r: Vec<char>)
    requires
        from@.len() > 0,
    ensures
        r@ == replace_all(v@, from@, to@),
{
    let f = chars_of(from);
    let t = chars_of(to);
    replace_chars(v, &f, &t)
}

/// Sanitize an error message for user display: home, user and common system
/// folders become `~`, wordy system errors get shorter wording, the result is
/// cut to 200 characters and trimmed, and an empty result becomes a generic
/// message.
pub fn sanitize_error_message(error: &str) -> (s: String)
    ensures
        s@ == sanitize_error_spec(error@),
        s@.len() > 0,
        s@.len() <= MAX_ERROR_CHARS,
{
    proof {
        reveal_strlit("/home/");
        reveal_strlit("/Users/");
        reveal_strlit("C:\\Users\\");
        reveal_strlit("C:/Users/");
        reveal_strlit("/tmp/");
        reveal_strlit("/var/");
        reveal_strlit("/etc/");
        reveal_strlit("No such file or directory");
        reveal_strlit("Permission denied");
        reveal_strlit("Operation not permitted");
        reveal_strlit("An error occurred");
    }
    let v = chars_of(error);
    let v = replace_lit(&v, "/home/", "~/");
    let v = replace_lit(&v, "/Users/", "~/");
    let v = replace_lit(&v, "C:\\Users\\", "~\\");
    let v = replace_lit(&v, "C:/Users/", "~/");
    let v = replace_lit(&v, "/tmp/", "~/");
    let v = replace_lit(&v, "/var/", "~/");
    let v = replace_lit(&v, "/etc/", "~/");
    let v = replace_lit(&v, "No such file or directory", "File not found");
    let v = replace_lit(&v, "Permission denied", "Access denied");
    let v = replace_lit(&v, "Operation not permitted", "Not allowed");
    let mut cut: Vec<char> = Vec::new();
    let mut i: usize = 0;
    while i < v.len() && i < MAX_ERROR_CHARS
        invariant
            i <= v.len(),
            i <= MAX_ERROR_CHARS,
            cut@ == v@.take(i as int),
        decreases v.len() - i,
    {
        cut.push(v[i]);
        i = i + 1;
        assert(cut@ =~= v@.take(i as int));
    }
    assert(cut@ =~= take_at_most(v@, MAX_ERROR_CHARS as int));
    let t = trim_chars(&cut);
    proof {
        lemma_trim_len(cut@);
    }
    if t.len() == 0 {
        String::from_str("An error occurred")
    } else {
        string_of(&t)
    }
}

/// Trimming never adds characters.
pub proof fn lemma_trim_len(s: Seq<char>)
    ensures
        trim(s).len() <= s.len(),
{
    lemma_trim_start_len(s);
    lemma_trim_end_len(trim_start(s));
}

proof fn lemma_trim_start_len(s: Seq<char>)
    ensures
        trim_start(s).len() <= s.len(),
    decreases s.len(),
{
    if s.len() > 0 && is_whitespace(s[0]) {
        lemma_trim_start_len(s.drop_first());
    }
}

proof fn lemma_trim_end_len(s: Seq<char>)
    ensures
        trim_end(s).len() <= s.len(),
    decreases s.len(),
{
    if s.len() > 0 && is_whitespace(s.last()) {
        lemma_trim_end_len(s.drop_last());
    }
}

// ----------------------------------------------------------------------
// sanitize_filename
// ----------------------------------------------------------------------

/// The most characters a sanitized file name keeps.
pub const MAX_FILENAME_CHARS: usize = 255;

/// `s` with every control character removed.
pub open spec fn without_controls(s: Seq<char>) -> Seq<char>
    decreases s.len(),
{
    if s.len() == 0 {
        s
    } else if is_control(s.last()) {
        without_controls(s.drop_last())
    } else {
        without_controls(s.drop_last()).push(s.last())
    }
}

pub open spec fn sanitize_filename_spec(s: Seq<char>) -> Seq<char> {
    take_at_most(without_controls(s), MAX_FILENAME_CHARS as int)
}

/// Sanitize a filename: control characters are removed and at most 255
/// characters are kept.
pub fn sanitize_filename(name: &str) -> (s: String)
    ensures
        s@ == sanitize_filename_spec(name@),
        s@.len() <= MAX_FILENAME_CHARS,
        forall|i: int| 0 <= i < s@.len() ==> !is_control(#[trigger] s@[i]),
{
    let v = chars_of(name);
    let mut out: Vec<char> = Vec::new();
    let mut i: usize = 0;
    while i < v.len()
        invariant
            i <= v.len(),
            out@ == take_at_most(without_controls(v@.take(i as int)), MAX_FILENAME_CHARS as int),
        decreases v.len() - i,
    {
        let c = v[i];
        assert(v@.take(i + 1).drop_last() =~= v@.take(i as int));
        if !is_control_char(c) && out.len() < MAX_FILENAME_CHARS {
            out.push(c);
        }
        i = i + 1;
    }
    assert(v@.take(v.len() as int) =~= v@);
    proof {
        lemma_without_controls_clean(v@);
    }
    string_of(&out)
}

/// No control character survives `without_controls`.
pub proof fn lemma_without_controls_clean(s: Seq<char>)
    ensures
        forall|i: int|
            0 <= i < without_controls(s).len() ==> !is_control(#[trigger] without_controls(s)[i]),
        without_controls(s).len() <= s.len(),
    decreases s.len(),
{
    if s.len() > 0 {
        lemma_without_controls_clean(s.drop_last());
    }
}

/// A string without control characters is its own `without_controls`.
proof fn lemma_without_controls_fixed(s: Seq<char>)
    requires
        forall|i: int| 0 <= i < s.len() ==> !is_control(#[trigger] s[i]),
    ensures
        without_controls(s) == s,
    decreases s.len(),
{
    if s.len() > 0 {
        lemma_without_controls_fixed(s.drop_last());
        assert(s.drop_last().push(s.last()) =~= s);
    }
}

/// Sanitizing a file name twice gives the same name as sanitizing it once.
pub proof fn law_sanitize_filename_idempotent(s: Seq<char>)
    ensures
        sanitize_filename_spec(sanitize_filename_spec(s)) == sanitize_filename_spec(s),
{
    let once = sanitize_filename_spec(s);
    lemma_without_controls_clean(s);
    assert forall|i: int| 0 <= i < once.len() implies !is_control(#[trigger] once[i]) by {
        assert(once[i] == without_controls(s)[i]);
    }
    lemma_without_controls_fixed(once);
}

// ----------------------------------------------------------------------
// is_path_safe
// ----------------------------------------------------------------------

pub open spec fn path_safe(p: Seq<char>) -> bool {
    &&& !contains(p, ".."@)
    &&& !contains(p, "\0"@)
    &&& !starts_with(p, "/proc"@)
    &&& !starts_with(p, "/sys"@)
    &&& !contains(p, "~/.ssh"@)
    &&& !contains(p, "~/.gnupg"@)
}

/// Whether a path is safe to operate on: no parent-directory steps, no NUL,
/// nothing under `/proc` or `/sys`, nothing in `~/.ssh` or `~/.gnupg`.
pub fn is_path_safe(path: &str) -> (b: bool)
    ensures
        b == path_safe(path@),
{
    let p = chars_of(path);
    !contains_exec(&p, &chars_of("..")) && !contains_exec(&p, &chars_of("\0")) && !starts_with_exec(
        &p,
        &chars_of("/proc"),
    ) && !starts_with_exec(&p, &chars_of("/sys")) && !contains_exec(&p, &chars_of("~/.ssh"))
        && !contains_exec(&p, &chars_of("~/.gnupg"))
}

/// A count below 1 KB is shown as itself in bytes, and a whole number `k`
/// (below 1024) of KB, MB, GB or TB is shown as `k.00` of that unit.
pub proof fn law_format_whole_units(b: nat, k: nat)
    requires
        1 <= k < 1024,
    ensures
        b < 1024 ==> format_bytes_spec(b) == decimal(b) + " B"@,
        format_bytes_spec(k * 1024) == decimal(k) + ".00 KB"@,
        format_bytes_spec(k * 0x10_0000) == decimal(k) + ".00 MB"@,
        format_bytes_spec(k * 0x4000_0000) == decimal(k) + ".00 GB"@,
        format_bytes_spec(k * 0x100_0000_0000) == decimal(k) + ".00 TB"@,
{
    assert(pow1024(4) == 0x100_0000_0000) by {
        reveal_with_fuel(pow1024, 5);
    }
    assert(pow1024(3) == 0x4000_0000) by {
        reveal_with_fuel(pow1024, 4);
    }
    assert(pow1024(2) == 0x10_0000) by {
        reveal_with_fuel(pow1024, 3);
    }
    assert(pow1024(1) == 1024) by {
        reveal_with_fuel(pow1024, 2);
    }
    reveal_strlit(".");
    reveal_strlit(" ");
    reveal_strlit("KB");
    reveal_strlit("MB");
    reveal_strlit("GB");
    reveal_strlit("TB");
    reveal_strlit(".00 KB");
    reveal_strlit(".00 MB");
    reveal_strlit(".00 GB");
    reveal_strlit(".00 TB");
    assert(".00 KB"@ =~= "."@ + seq!['0', '0'] + " "@ + unit_name(1));
    assert(".00 MB"@ =~= "."@ + seq!['0', '0'] + " "@ + unit_name(2));
    assert(".00 GB"@ =~= "."@ + seq!['0', '0'] + " "@ + unit_name(3));
    assert(".00 TB"@ =~= "."@ + seq!['0', '0'] + " "@ + unit_name(4));
    lemma_whole_unit(k, 1, 1024, ".00 KB"@);
    lemma_whole_unit(k, 2, 0x10_0000, ".00 MB"@);
    lemma_whole_unit(k, 3, 0x4000_0000, ".00 GB"@);
    lemma_whole_unit(k, 4, 0x100_0000_0000, ".00 TB"@);
}

proof fn lemma_whole_unit(k: nat, u: nat, d: nat, tail: Seq<char>)
    requires
        1 <= k < 1024,
        1 <= u <= 4,
        d == pow1024(u),
        d == 1024 || d == 0x10_0000 || d == 0x4000_0000 || d == 0x100_0000_0000,
        u == 1 <==> d == 1024,
        u == 2 <==> d == 0x10_0000,
        u == 3 <==> d == 0x4000_0000,
        u == 4 <==> d == 0x100_0000_0000,
        tail == "."@ + seq!['0', '0'] + " "@ + unit_name(u),
    ensures
        format_bytes_spec(k * d) == decimal(k) + tail,
{
    let b = k * d;
    assert(d <= b < 1024 * d) by (nonlinear_arith)
        requires
            b == k * d,
            1 <= k < 1024,
            d > 0,
    ;
    assert(byte_unit(b) == u);
    assert(b < 0x20_0000_0000_0000);
    assert(f64_scale(b) == 1);
    assert(b / 1 == b && b % 1 == 0) by (nonlinear_arith);
    assert(nearest_f64(b) == b);
    vstd::arithmetic::div_mod::lemma_div_multiples_vanish((100 * k) as int, d as int);
    vstd::arithmetic::div_mod::lemma_mod_multiples_basic((100 * k) as int, d as int);
    assert(b * 100 == d * (100 * k)) by (nonlinear_arith)
        requires
            b == k * d,
    ;
    assert((100 * k) * d == d * (100 * k)) by (nonlinear_arith);
    let h = hundredths(b, d);
    assert(h == 100 * k);
    assert(h / 100 == k && h % 100 == 0) by (nonlinear_arith)
        requires
            h == 100 * k,
    ;
    assert(digit(0) == '0');
}

/// A path that steps up with `..`, holds a NUL, lies under `/proc` or
/// `/sys`, or reaches into `~/.ssh` or `~/.gnupg` is never safe, whatever
/// surrounds those parts.
pub proof fn law_unsafe_paths(a: Seq<char>, b: Seq<char>)
    ensures
        !path_safe(a + ".."@ + b),
        !path_safe(a + "\0"@ + b),
        !path_safe("/proc"@ + b),
        !path_safe("/sys"@ + b),
        !path_safe(a + "~/.ssh"@ + b),
        !path_safe(a + "~/.gnupg"@ + b),
{
    lemma_occurs_inside(a, ".."@, b);
    lemma_occurs_inside(a, "\0"@, b);
    lemma_occurs_inside(a, "~/.ssh"@, b);
    lemma_occurs_inside(a, "~/.gnupg"@, b);
    assert(("/proc"@ + b).take("/proc"@.len() as int) =~= "/proc"@);
    assert(("/sys"@ + b).take("/sys"@.len() as int) =~= "/sys"@);
}

/// `p` occurs in `a + p + b`, right after `a`.
proof fn lemma_occurs_inside(a: Seq<char>, p: Seq<char>, b: Seq<char>)
    ensures
        contains(a + p + b, p),
{
    assert((a + p + b).subrange(a.len() as int, a.len() + p.len() as int) =~= p);
    assert(occurs_at(a + p + b, p, a.len() as int));
}

/// Replacing a pattern that does not occur changes nothing.
proof fn lemma_replace_absent(s: Seq<char>, from: Seq<char>, to: Seq<char>)
    requires
        !contains(s, from),
    ensures
        replace_all(s, from, to) == s,
    decreases s.len(),
{
    if from.len() > 0 && s.len() >= from.len() {
        assert(s.subrange(0, from.len() as int) =~= s.take(from.len() as int));
        assert(!occurs_at(s, from, 0));
        assert(!contains(s.drop_first(), from)) by {
            if contains(s.drop_first(), from) {
                let i = choose|i: int| #[trigger] occurs_at(s.drop_first(), from, i);
                assert(s.subrange(i + 1, i + 1 + from.len()) =~= s.drop_first().subrange(
                    i,
                    i + from.len(),
                ));
                assert(occurs_at(s, from, i + 1));
            }
        }
        lemma_replace_absent(s.drop_first(), from, to);
        assert(seq![s[0]] + s.drop_first() =~= s);
    }
}

/// A message that names none of the private folders and none of the wordy
/// system errors is only trimmed (and cut to 200 characters); one that is
/// blank becomes the generic message.
pub proof fn law_plain_error_kept(e: Seq<char>)
    requires
        !contains(e, "/home/"@),
        !contains(e, "/Users/"@),
        !contains(e, "C:\\Users\\"@),
        !contains(e, "C:/Users/"@),
        !contains(e, "/tmp/"@),
        !contains(e, "/var/"@),
        !contains(e, "/etc/"@),
        !contains(e, "No such file or directory"@),
        !contains(e, "Permission denied"@),
        !contains(e, "Operation not permitted"@),
    ensures
        scrub_error(e) == e,
        e.len() <= MAX_ERROR_CHARS && trim(e).len() > 0 ==> sanitize_error_spec(e) == trim(e),
        trim(e).len() == 0 && e.len() <= MAX_ERROR_CHARS ==> sanitize_error_spec(e)
            == "An error occurred"@,
{
    lemma_replace_absent(e, "/home/"@, "~/"@);
    lemma_replace_absent(e, "/Users/"@, "~/"@);
    lemma_replace_absent(e, "C:\\Users\\"@, "~\\"@);
    lemma_replace_absent(e, "C:/Users/"@, "~/"@);
    lemma_replace_absent(e, "/tmp/"@, "~/"@);
    lemma_replace_absent(e, "/var/"@, "~/"@);
    lemma_replace_absent(e, "/etc/"@, "~/"@);
    lemma_replace_absent(e, "No such file or directory"@, "File not found"@);
    lemma_replace_absent(e, "Permission denied"@, "Access denied"@);
    lemma_replace_absent(e, "Operation not permitted"@, "Not allowed"@);
    if e.len() <= MAX_ERROR_CHARS {
        assert(take_at_most(e, MAX_ERROR_CHARS as int) == e);
    }
}

} // verus!
