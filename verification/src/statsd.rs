//! Parser for the statsd datagram format: `key:value|type[|@sample][|#tags]`.
//!
//! Values are kept exact as decimal fractions (`Number`), so the contract
//! of `parse` pins every field of the result. Inputs whose numbers need
//! more than eighteen significant digits, or whose scaled values leave the
//! 64-bit range, are rejected as invalid numbers.

use vstd::prelude::*;

verus! {

/// Whether `c` is a Unicode whitespace character, as `char::is_whitespace`
/// decides it.
pub uninterp spec fn is_unicode_whitespace(c: char) -> bool;

/// Relies on `char::is_whitespace` of std: the Unicode white-space
/// property, which the ASCII cases below plainly include or exclude.
#[verifier::external_body]
fn is_ws(c: char) -> (r: bool)
    ensures
        r == is_unicode_whitespace(c),
        (c == ' ' || c == '\t' || c == '\n' || c == '\r') ==> r,
        (('a' <= c && c <= 'z') || ('A' <= c && c <= 'Z') || ('0' <= c && c <= '9') || c == '_'
            || c == '-' || c == '.' || c == '/') ==> !r,
{
    c.is_whitespace()
}

/// Relies on `String::push` of std: appends one character.
#[verifier::external_body]
pub(crate) fn push_char(s: &mut String, c: char)
    ensures
        final(s)@ == old(s)@.push(c),
{
    s.push(c)
}

/// First index of `c` in `s`, or `-1`.
pub open spec fn spec_find(s: Seq<char>, c: char) -> int
    decreases s.len(),
{
    if s.len() == 0 {
        -1
    } else if s[0] == c {
        0
    } else if spec_find(s.drop_first(), c) == -1 {
        -1
    } else {
        spec_find(s.drop_first(), c) + 1
    }
}

proof fn lemma_spec_find(s: Seq<char>, c: char)
    ensures
        -1 <= spec_find(s, c) < s.len(),
        spec_find(s, c) >= 0 ==> s[spec_find(s, c)] == c,
        forall|i: int| 0 <= i < spec_find(s, c) ==> s[i] != c,
        spec_find(s, c) == -1 ==> forall|i: int| 0 <= i < s.len() ==> s[i] != c,
    decreases s.len(),
{
    if s.len() > 0 && s[0] != c {
        lemma_spec_find(s.drop_first(), c);
        assert forall|i: int|
            0 <= i < s.len() && (spec_find(s, c) == -1 || i < spec_find(s, c)) && i > 0
            implies s[i] != c by {
            assert(s.drop_first()[i - 1] == s[i]);
        }
    }
}

proof fn lemma_spec_find_unique(s: Seq<char>, c: char, i: int)
    requires
        0 <= i < s.len(),
        s[i] == c,
        forall|j: int| 0 <= j < i ==> s[j] != c,
    ensures
        spec_find(s, c) == i,
    decreases s.len(),
{
    if i > 0 {
        lemma_spec_find_unique(s.drop_first(), c, i - 1);
    }
}

/// The segments of `s` between occurrences of `c`.
pub open spec fn spec_split(s: Seq<char>, c: char) -> Seq<Seq<char>>
    decreases s.len(),
{
    let f = spec_find(s, c);
    if 0 <= f < s.len() {
        seq![s.take(f)] + spec_split(s.skip(f + 1), c)
    } else {
        seq![s]
    }
}

proof fn lemma_spec_split_len(s: Seq<char>, c: char)
    ensures
        spec_split(s, c).len() >= 1,
    decreases s.len(),
{
    lemma_spec_find(s, c);
    if 0 <= spec_find(s, c) < s.len() {
        lemma_spec_split_len(s.skip(spec_find(s, c) + 1), c);
    }
}

/// First index of character `c` in `s`, in character coordinates.
fn find_char(s: &str, c: char) -> (r: Option<usize>)
    ensures
        r matches Some(i) ==> i < s@.len() && spec_find(s@, c) == i as int,
        r is None ==> spec_find(s@, c) == -1,
{
    let n = s.unicode_len();
    let mut i: usize = 0;
    let mut found = false;
    while i < n
        invariant_except_break
            !found,
        invariant
            n == s@.len(),
            i <= n,
            forall|j: int| 0 <= j < i ==> s@[j] != c,
            found ==> i < n && s@[i as int] == c,
        ensures
            found ==> i < n && s@[i as int] == c,
            !found ==> i == n,
        decreases n - i,
    {
        if s.get_char(i) == c {
            found = true;
            break ;
        }
        i = i + 1;
    }
    if found {
        proof {
            lemma_spec_find_unique(s@, c, i as int);
        }
        Some(i)
    } else {
        proof {
            lemma_spec_find(s@, c);
            if spec_find(s@, c) >= 0 {
                assert(s@[spec_find(s@, c)] == c);
            }
        }
        None
    }
}

/// Split `s` at every occurrence of `c`.
fn split_on(s: &str, c: char) -> (r: Vec<String>)
    ensures
        r@.len() == spec_split(s@, c).len(),
        forall|i: int| 0 <= i < r@.len() ==> (#[trigger] r@[i])@ == spec_split(s@, c)[i],
    decreases s@.len(),
{
    match find_char(s, c) {
        None => {
            let mut out: Vec<String> = Vec::new();
            out.push(s.to_owned());
            out
        },
        Some(i) => {
            let n = s.unicode_len();
            let head = s.substring_char(0, i).to_owned();
            let tail = s.substring_char(i + 1, n);
            proof {
                assert(tail@ == s@.skip(i + 1));
            }
            let rest = split_on(tail, c);
            let mut out: Vec<String> = Vec::new();
            out.push(head);
            let mut j: usize = 0;
            let m = rest.len();
            while j < m
                invariant
                    m == rest@.len(),
                    j <= m,
                    out@.len() == j + 1,
                    (out@[0])@ == s@.take(i as int),
                    forall|t: int| 1 <= t <= j ==> (#[trigger] out@[t])@ == (rest@[t - 1])@,
                decreases m - j,
            {
                let piece = clone_string(&rest[j]);
                out.push(piece);
                j = j + 1;
            }
            proof {
                assert(spec_split(s@, c) == seq![s@.take(i as int)] + spec_split(
                    s@.skip(i + 1),
                    c,
                ));
                assert forall|t: int| 0 <= t < out@.len()
                    implies (#[trigger] out@[t])@ == spec_split(s@, c)[t] by {
                    if t == 0 {
                        assert((seq![s@.take(i as int)] + spec_split(s@.skip(i + 1), c))[0]
                            == s@.take(i as int));
                    } else {
                        assert((out@[t])@ == (rest@[t - 1])@);
                        assert((seq![s@.take(i as int)] + spec_split(s@.skip(i + 1), c))[t]
                            == spec_split(s@.skip(i + 1), c)[t - 1]);
                    }
                }
            }
            out
        },
    }
}

/// A copy of a `String` with the same characters.
fn clone_string(s: &String) -> (r: String)
    ensures
        r@ == s@,
{
    s.clone()
}

/// A character the sanitized metric name may keep.
pub open spec fn allowed_key_char(c: char) -> bool {
    ('a' <= c && c <= 'z') || ('A' <= c && c <= 'Z') || ('0' <= c && c <= '9') || c == '_'
        || c == '-' || c == '.'
}

fn allowed_key_char_x(c: char) -> (r: bool)
    ensures
        r == allowed_key_char(c),
{
    ('a' <= c && c <= 'z') || ('A' <= c && c <= 'Z') || ('0' <= c && c <= '9') || c == '_'
        || c == '-' || c == '.'
}

/// Length of the leading whitespace run of `s`.
pub open spec fn ws_run(s: Seq<char>) -> int
    decreases s.len(),
{
    if s.len() == 0 || !is_unicode_whitespace(s[0]) {
        0
    } else {
        1 + ws_run(s.drop_first())
    }
}

proof fn lemma_ws_run(s: Seq<char>, i: int)
    requires
        0 <= i <= s.len(),
        forall|j: int| 0 <= j < i ==> is_unicode_whitespace(s[j]),
        i < s.len() ==> !is_unicode_whitespace(s[i]),
    ensures
        ws_run(s) == i,
    decreases s.len(),
{
    if i > 0 {
        lemma_ws_run(s.drop_first(), i - 1);
    }
}

/// The sanitized form of a metric name: `/` becomes `-`, every whitespace
/// run becomes one `_`, and everything but letters, digits, `_`, `-` and
/// `.` is dropped.
pub open spec fn spec_sanitize(s: Seq<char>) -> Seq<char>
    decreases s.len(),
{
    if s.len() == 0 {
        Seq::empty()
    } else if is_unicode_whitespace(s[0]) {
        if 1 <= ws_run(s) <= s.len() {
            seq!['_'] + spec_sanitize(s.skip(ws_run(s)))
        } else {
            seq!['_']
        }
    } else if s[0] == '/' {
        seq!['-'] + spec_sanitize(s.drop_first())
    } else if allowed_key_char(s[0]) {
        seq![s[0]] + spec_sanitize(s.drop_first())
    } else {
        spec_sanitize(s.drop_first())
    }
}

/// Strip a metric name down to letters, digits, `_`, `-` and `.`, mapping
/// `/` to `-` and whitespace runs to a single `_`.
pub fn sanitize_key(key: &str) -> (r: String)
    ensures
        r@ == spec_sanitize(key@),
    decreases key@.len(),
{
    let n = key.unicode_len();
    if n == 0 {
        return String::new();
    }
    let c = key.get_char(0);
    if is_ws(c) {
        let mut j: usize = 1;
        while j < n && is_ws(key.get_char(j))
            invariant
                n == key@.len(),
                1 <= j <= n,
                forall|t: int| 0 <= t < j ==> is_unicode_whitespace(key@[t]),
            decreases n - j,
        {
            j = j + 1;
        }
        proof {
            lemma_ws_run(key@, j as int);
            assert(1 <= ws_run(key@) <= key@.len());
        }
        let rest = sanitize_key(key.substring_char(j, n));
        let mut out = String::new();
        push_char(&mut out, '_');
        out.append(rest.as_str());
        proof {
            assert(out@ =~= seq!['_'] + spec_sanitize(key@.skip(j as int)));
        }
        out
    } else {
        let rest = sanitize_key(key.substring_char(1, n));
        proof {
            assert(key@.subrange(1, n as int) =~= key@.drop_first());
        }
        if c == '/' {
            let mut out = String::new();
            push_char(&mut out, '-');
            out.append(rest.as_str());
            proof {
                assert(out@ =~= seq!['-'] + spec_sanitize(key@.drop_first()));
            }
            out
        } else if allowed_key_char_x(c) {
            let mut out = String::new();
            push_char(&mut out, c);
            out.append(rest.as_str());
            proof {
                assert(out@ =~= seq![key@[0]] + spec_sanitize(key@.drop_first()));
            }
            out
        } else {
            rest
        }
    }
}

/// An exact decimal fraction: `num / den`, with `den` a positive power of
/// ten. The value a metric carries.
#[derive(Clone, Copy, Debug, PartialEq, Eq)]
pub struct Number {
    pub num: i64,
    pub den: u64,
}

impl Number {
    pub open spec fn wf(self) -> bool {
        self.den > 0
    }

    /// The whole number `n`.
    pub fn integer(n: i64) -> (r: Number)
        ensures
            r.num == n,
            r.den == 1,
    {
        Number { num: n, den: 1 }
    }

    /// The fraction `num / den`.
    pub fn ratio(num: i64, den: u64) -> (r: Number)
        requires
            den > 0,
        ensures
            r.num == num,
            r.den == den,
    {
        Number { num, den }
    }
}

pub open spec fn is_digit(c: char) -> bool {
    '0' <= c && c <= '9'
}

pub open spec fn all_digits(s: Seq<char>) -> bool {
    forall|i: int| 0 <= i < s.len() ==> is_digit(#[trigger] s[i])
}

/// The value of the digit string `s` appended to the accumulator `acc`.
pub open spec fn dv(s: Seq<char>, acc: int) -> int
    decreases s.len(),
{
    if s.len() == 0 {
        acc
    } else {
        dv(s.drop_first(), acc * 10 + (s[0] as int - 48))
    }
}

/// Ten to the `k`.
pub open spec fn pow10(k: int) -> int
    decreases k,
{
    if k <= 0 {
        1
    } else {
        10 * pow10(k - 1)
    }
}

proof fn lemma_dv_bound(s: Seq<char>, acc: int)
    requires
        all_digits(s),
        acc >= 0,
    ensures
        dv(s, acc) >= acc,
        dv(s, acc) < (acc + 1) * pow10(s.len() as int),
    decreases s.len(),
{
    if s.len() == 0 {
        assert(pow10(0) == 1);
    } else {
        let d = s[0] as int - 48;
        assert(is_digit(s[0]));
        assert(0 <= d <= 9);
        assert(all_digits(s.drop_first()));
        lemma_dv_bound(s.drop_first(), acc * 10 + d);
        lemma_pow10_pos(s.len() - 1);
        assert((acc * 10 + d + 1) * pow10(s.len() - 1) <= (acc + 1) * 10 * pow10(s.len() - 1))
            by (nonlinear_arith)
            requires
                0 <= d <= 9,
                acc >= 0,
                pow10(s.len() - 1) >= 1,
        ;
        assert((acc + 1) * 10 * pow10(s.len() - 1) == (acc + 1) * pow10(s.len() as int))
            by (nonlinear_arith)
            requires
                pow10(s.len() as int) == 10 * pow10(s.len() - 1),
        ;
    }
}

proof fn lemma_pow10_18()
    ensures
        pow10(18) == 1_000_000_000_000_000_000,
{
    reveal_with_fuel(pow10, 20);
}

proof fn lemma_pow10_pos(k: int)
    ensures
        pow10(k) >= 1,
    decreases k,
{
    if k > 0 {
        lemma_pow10_pos(k - 1);
    }
}

proof fn lemma_pow10_mono(a: int, b: int)
    requires
        a <= b,
    ensures
        pow10(a) <= pow10(b),
    decreases b,
{
    if a < b && b > 0 {
        lemma_pow10_mono(a, b - 1);
        lemma_pow10_pos(b - 1);
    }
}

/// The digit strings a decimal literal is made of: optional sign, then
/// digits, optionally a dot and more digits.
pub open spec fn dec_shape(s: Seq<char>) -> Option<(int, Seq<char>, Seq<char>)> {
    let (sg, t): (int, Seq<char>) = if s.len() > 0 && s[0] == '+' {
        (1int, s.drop_first())
    } else if s.len() > 0 && s[0] == '-' {
        (-1int, s.drop_first())
    } else {
        (1int, s)
    };
    let dot = spec_find(t, '.');
    if dot == -1 {
        if t.len() > 0 && all_digits(t) {
            Some((sg, t, Seq::empty()))
        } else {
            None
        }
    } else {
        let ip = t.take(dot);
        let fp = t.skip(dot + 1);
        if ip.len() + fp.len() > 0 && all_digits(ip) && all_digits(fp) {
            Some((sg, ip, fp))
        } else {
            None
        }
    }
}

/// The exact value of the decimal literal `s`, or nothing when it is
/// malformed or needs more than eighteen digits.
pub open spec fn spec_dec(s: Seq<char>) -> Option<(int, int)> {
    match dec_shape(s) {
        None => None,
        Some((sg, ip, fp)) => if ip.len() + fp.len() <= 18 {
            Some((sg * (dv(ip, 0) * pow10(fp.len() as int) + dv(fp, 0)), pow10(fp.len() as int)))
        } else {
            None
        },
    }
}

/// Parse a run of at most eighteen digits left to right.
fn digits_value(s: &str) -> (r: Option<u64>)
    ensures
        r matches Some(v) ==> s@.len() > 0 && s@.len() <= 18 && all_digits(s@) && v == dv(s@, 0),
        r is None ==> !(s@.len() > 0 && s@.len() <= 18 && all_digits(s@)),
{
    let n = s.unicode_len();
    if n == 0 || n > 18 {
        return None;
    }
    let mut acc: u64 = 0;
    let mut i: usize = 0;
    proof {
        lemma_pow10_mono(0, 18);
        lemma_pow10_18();
    }
    while i < n
        invariant
            n == s@.len(),
            0 < n <= 18,
            i <= n,
            forall|j: int| 0 <= j < i ==> is_digit(#[trigger] s@[j]),
            acc == dv(s@.take(i as int), 0),
            acc < pow10(i as int),
            pow10(i as int) <= pow10(18),
            pow10(18) == 1_000_000_000_000_000_000,
        decreases n - i,
    {
        let c = s.get_char(i);
        let u = c as u32;
        if u < 48 || u > 57 {
            return None;
        }
        let d = (u - 48) as u64;
        proof {
            assert(is_digit(s@[i as int]));
            assert(s@.take(i + 1).drop_last() =~= s@.take(i as int));
            lemma_dv_append_digit(s@.take(i as int), s@[i as int], 0);
            lemma_pow10_mono(i + 1, 18);
            assert(acc * 10 + d < pow10(i + 1)) by (nonlinear_arith)
                requires
                    acc < pow10(i as int),
                    0 <= d <= 9,
                    pow10(i + 1) == 10 * pow10(i as int),
            ;
        }
        acc = acc * 10 + d;
        i = i + 1;
        proof {
            assert(s@.take(i as int) =~= s@.take(i - 1).push(s@[i - 1]));
        }
    }
    proof {
        assert(s@.take(n as int) =~= s@);
    }
    Some(acc)
}

/// Appending one digit multiplies the accumulated value by ten and adds
/// the digit.
proof fn lemma_dv_append_digit(s: Seq<char>, c: char, acc: int)
    ensures
        dv(s.push(c), acc) == dv(s, acc) * 10 + (c as int - 48),
    decreases s.len(),
{
    if s.len() == 0 {
        assert(s.push(c)[0] == c);
        assert(s.push(c).drop_first() =~= Seq::<char>::empty());
        assert(dv(s, acc) == acc);
        assert(dv(s.push(c), acc) == dv(
            s.push(c).drop_first(),
            acc * 10 + (s.push(c)[0] as int - 48),
        ));
        assert(dv(s.push(c).drop_first(), acc * 10 + (c as int - 48)) == acc * 10 + (
        c as int - 48));
    } else {
        assert(s.push(c)[0] == s[0]);
        assert(s.push(c).drop_first() =~= s.drop_first().push(c));
        lemma_dv_append_digit(s.drop_first(), c, acc * 10 + (s[0] as int - 48));
        assert(dv(s.push(c), acc) == dv(
            s.push(c).drop_first(),
            acc * 10 + (s.push(c)[0] as int - 48),
        ));
        assert(dv(s, acc) == dv(s.drop_first(), acc * 10 + (s[0] as int - 48)));
    }
}

/// Parse a decimal literal into an exact fraction.
pub fn parse_decimal(s: &str) -> (r: Option<Number>)
    ensures
        r matches Some(v) ==> spec_dec(s@) == Some((v.num as int, v.den as int)) && v.wf(),
        r is None ==> spec_dec(s@) is None,
{
    let n = s.unicode_len();
    let (neg, start): (bool, usize) = if n > 0 && s.get_char(0) == '+' {
        (false, 1)
    } else if n > 0 && s.get_char(0) == '-' {
        (true, 1)
    } else {
        (false, 0)
    };
    let t = s.substring_char(start, n);
    proof {
        if start == 1 {
            assert(t@ =~= s@.drop_first());
        } else {
            assert(t@ =~= s@);
        }
    }
    let dot = find_char(t, '.');
    match dot {
        None => {
            match digits_value(t) {
                None => None,
                Some(v) => {
                    proof {
                        lemma_dv_bound(t@, 0);
                        lemma_pow10_mono(t@.len() as int, 18);
                        lemma_pow10_18();
                        assert(pow10(0) == 1);
                        assert(dv(Seq::<char>::empty(), 0) == 0);
                    }
                    assert(dec_shape(s@) == Some(
                        (if neg { -1int } else { 1int }, t@, Seq::<char>::empty()),
                    ));
                    assert(spec_dec(s@) == Some(
                        ((if neg { -1int } else { 1int }) * dv(t@, 0), 1int),
                    ));
                    assert(0 <= dv(t@, 0) < 1_000_000_000_000_000_000);
                    assert(v as int == dv(t@, 0));
                    let num: i64 = if neg {
                        let w = v as i64;
                        assert(w as int == dv(t@, 0));
                        let m = -w;
                        assert(m as int == -1 * dv(t@, 0));
                        m
                    } else {
                        let w = v as i64;
                        assert(w as int == 1 * dv(t@, 0));
                        w
                    };
                    assert(num as int == (if neg { -1int } else { 1int }) * dv(t@, 0));
                    assert(spec_dec(s@) == Some((num as int, 1int)));
                    Some(Number { num, den: 1 })
                },
            }
        },
        Some(d) => {
            let tn = t.unicode_len();
            let ip = t.substring_char(0, d);
            let fp = t.substring_char(d + 1, tn);
            proof {
                assert(ip@ =~= t@.take(d as int));
                assert(fp@ =~= t@.skip(d + 1));
            }
            let ipn = ip.unicode_len();
            let fpn = fp.unicode_len();
            if ipn + fpn == 0 || ipn + fpn > 18 {
                proof {
                    if ipn + fpn > 0 {
                        if !(t@.take(d as int).len() + t@.skip(d + 1).len() > 18) {
                            assert(false);
                        }
                    }
                }
                return None;
            }
            let iv = if ipn == 0 {
                Some(0u64)
            } else {
                digits_value(ip)
            };
            let fv = if fpn == 0 {
                Some(0u64)
            } else {
                digits_value(fp)
            };
            match (iv, fv) {
                (Some(a), Some(b)) => {
                    if !all_digits_check(ip) || !all_digits_check(fp) {
                        return None;
                    }
                    let den = pow10_u64(fpn);
                    proof {
                        lemma_dv_bound(ip@, 0);
                        lemma_dv_bound(fp@, 0);
                        lemma_pow10_pos(fpn as int);
                        lemma_pow10_add(ipn as int, fpn as int);
                        lemma_pow10_mono((ipn + fpn) as int, 18);
                        lemma_pow10_18();
                        assert(dv(ip@, 0) * pow10(fpn as int) + dv(fp@, 0) < pow10(
                            ipn + fpn as int,
                        )) by (nonlinear_arith)
                            requires
                                0 <= dv(ip@, 0) < pow10(ipn as int),
                                0 <= dv(fp@, 0) < pow10(fpn as int),
                                pow10(ipn + fpn as int) == pow10(ipn as int) * pow10(
                                    fpn as int,
                                ),
                                pow10(fpn as int) >= 1,
                        ;
                    }
                    proof {
                        assert(dec_shape(s@) == Some(
                            (if neg { -1int } else { 1int }, ip@, fp@),
                        ));
                        assert(a == dv(ip@, 0));
                        assert(b == dv(fp@, 0));
                        assert(spec_dec(s@) == Some(
                            (
                                (if neg { -1int } else { 1int }) * (dv(ip@, 0) * pow10(
                                    fpn as int,
                                ) + dv(fp@, 0)),
                                pow10(fpn as int),
                            ),
                        ));
                    }
                    let mag = a * den + b;
                    let num: i64 = if neg {
                        -(mag as i64)
                    } else {
                        mag as i64
                    };
                    assert(spec_dec(s@) == Some((num as int, den as int)));
                    Some(Number { num, den })
                },
                _ => None,
            }
        },
    }
}

/// Check that every character of `s` is a digit (also for empty `s`).
fn all_digits_check(s: &str) -> (r: bool)
    ensures
        r == all_digits(s@),
{
    let n = s.unicode_len();
    let mut i: usize = 0;
    while i < n
        invariant
            n == s@.len(),
            i <= n,
            forall|j: int| 0 <= j < i ==> is_digit(#[trigger] s@[j]),
        decreases n - i,
    {
        let u = s.get_char(i) as u32;
        if u < 48 || u > 57 {
            proof {
                assert(!is_digit(s@[i as int]));
            }
            return false;
        }
        proof {
            assert(is_digit(s@[i as int]));
        }
        i = i + 1;
    }
    true
}

proof fn lemma_pow10_add(a: int, b: int)
    requires
        a >= 0,
        b >= 0,
    ensures
        pow10(a + b) == pow10(a) * pow10(b),
    decreases a,
{
    if a == 0 {
    } else {
        lemma_pow10_add(a - 1, b);
        assert(pow10(a + b) == 10 * pow10(a - 1 + b));
        assert(10 * (pow10(a - 1) * pow10(b)) == (10 * pow10(a - 1)) * pow10(b))
            by (nonlinear_arith);
    }
}

/// Ten to the `k` as a machine word; callers keep `k` at most eighteen.
fn pow10_u64(k: usize) -> (r: u64)
    requires
        k <= 18,
    ensures
        r == pow10(k as int),
        r >= 1,
{
    let mut r: u64 = 1;
    let mut i: usize = 0;
    proof {
        lemma_pow10_mono(k as int, 18);
        lemma_pow10_18();
    }
    while i < k
        invariant
            i <= k <= 18,
            r == pow10(i as int),
            pow10(k as int) <= pow10(18),
            pow10(18) == 1_000_000_000_000_000_000,
        decreases k - i,
    {
        proof {
            lemma_pow10_mono(i + 1, k as int);
        }
        r = r * 10;
        i = i + 1;
    }
    proof {
        lemma_pow10_pos(k as int);
    }
    r
}

/// Extra head room: every value a decimal literal can produce stays within
/// these magnitudes.
pub proof fn lemma_dec_bounds(s: Seq<char>)
    ensures
        spec_dec(s) matches Some(v) ==> -1_000_000_000_000_000_000 <= v.0
            <= 1_000_000_000_000_000_000 && 1 <= v.1 <= 1_000_000_000_000_000_000,
{
    match dec_shape(s) {
        None => {},
        Some((sg, ip, fp)) => {
            if ip.len() + fp.len() <= 18 {
                lemma_dv_bound(ip, 0);
                lemma_dv_bound(fp, 0);
                lemma_pow10_pos(fp.len() as int);
                lemma_pow10_add(ip.len() as int, fp.len() as int);
                lemma_pow10_mono((ip.len() + fp.len()) as int, 18);
                lemma_pow10_mono(fp.len() as int, 18);
                lemma_pow10_18();
                assert(dv(ip, 0) * pow10(fp.len() as int) + dv(fp, 0) < pow10(
                    (ip.len() + fp.len()) as int,
                )) by (nonlinear_arith)
                    requires
                        0 <= dv(ip, 0) < pow10(ip.len() as int),
                        0 <= dv(fp, 0) < pow10(fp.len() as int),
                        pow10((ip.len() + fp.len()) as int) == pow10(ip.len() as int) * pow10(
                            fp.len() as int,
                        ),
                        pow10(fp.len() as int) >= 1,
                ;
                assert(0 <= dv(ip, 0) * pow10(fp.len() as int) + dv(fp, 0)
                    < 1_000_000_000_000_000_000);
                assert(sg == 1 || sg == -1);
            }
        },
    }
}

#[derive(Clone, Copy, Debug, PartialEq, Eq)]
pub enum MetricKind {
    Incremental,
    Absolute,
}

#[derive(Clone, Debug, PartialEq)]
pub enum MetricValue {
    Counter { value: Number },
    Gauge { value: Number },
    Distribution { values: Vec<Number>, sample_rates: Vec<u32> },
    SetValues { values: Vec<String> },
}

#[derive(Clone, Debug, PartialEq)]
pub struct Metric {
    pub name: String,
    pub timestamp: Option<i64>,
    pub tags: Option<Vec<(String, String)>>,
    pub kind: MetricKind,
    pub value: MetricValue,
}

#[derive(Clone, Debug, PartialEq)]
pub enum ParseError {
    Malformed(&'static str),
    UnknownMetricType(String),
    InvalidInteger,
    InvalidFloat,
}

/// The mathematical shape of a parsed metric value.
pub ghost enum SpecValue {
    Counter { num: int, den: int },
    Gauge { num: int, den: int },
    Dist { num: int, den: int, rate: int },
    SetV { member: Seq<char> },
}

/// The mathematical shape of a parsed metric.
pub ghost struct SpecMetric {
    pub name: Seq<char>,
    pub tags: Option<Seq<(Seq<char>, Seq<char>)>>,
    pub kind: MetricKind,
    pub value: SpecValue,
}

/// What parsing a packet yields: a metric, or one of three failure kinds.
pub ghost enum Outcome {
    Metric(SpecMetric),
    BadShape,
    UnknownType(Seq<char>),
    BadNumber,
}

/// Whether the executable metric `m` carries exactly the mathematical
/// content `sm`.
pub open spec fn metric_matches(m: Metric, sm: SpecMetric) -> bool {
    &&& m.name@ == sm.name
    &&& m.timestamp is None
    &&& m.kind == sm.kind
    &&& match (m.tags, sm.tags) {
        (None, None) => true,
        (Some(tv), Some(ts)) => tv@.len() == ts.len() && forall|i: int|
            0 <= i < ts.len() ==> ((#[trigger] tv@[i]).0@, tv@[i].1@) == ts[i],
        _ => false,
    }
    &&& match (m.value, sm.value) {
        (MetricValue::Counter { value }, SpecValue::Counter { num, den }) => value.num == num
            && value.den == den,
        (MetricValue::Gauge { value }, SpecValue::Gauge { num, den }) => value.num == num
            && value.den == den,
        (
            MetricValue::Distribution { values, sample_rates },
            SpecValue::Dist { num, den, rate },
        ) => values@.len() == 1 && sample_rates@.len() == 1 && values@[0].num == num
            && values@[0].den == den && sample_rates@[0] == rate,
        (MetricValue::SetValues { values }, SpecValue::SetV { member }) => values@.len() == 1
            && (values@[0])@ == member,
        _ => false,
    }
}

/// Replace the value under `k`, or append the pair when `k` is new.
pub open spec fn upsert(
    m: Seq<(Seq<char>, Seq<char>)>,
    k: Seq<char>,
    v: Seq<char>,
) -> Seq<(Seq<char>, Seq<char>)>
    decreases m.len(),
{
    if m.len() == 0 {
        seq![(k, v)]
    } else if m[0].0 == k {
        seq![(k, v)] + m.drop_first()
    } else {
        seq![m[0]] + upsert(m.drop_first(), k, v)
    }
}

proof fn lemma_upsert_found(m: Seq<(Seq<char>, Seq<char>)>, k: Seq<char>, v: Seq<char>, i: int)
    requires
        0 <= i < m.len(),
        m[i].0 == k,
        forall|j: int| 0 <= j < i ==> (#[trigger] m[j]).0 != k,
    ensures
        upsert(m, k, v) =~= m.update(i, (k, v)),
    decreases m.len(),
{
    if i == 0 {
        assert(upsert(m, k, v) == seq![(k, v)] + m.drop_first());
    } else {
        assert(m.drop_first()[i - 1].0 == k);
        assert(forall|j: int|
            0 <= j < i - 1 ==> (#[trigger] m.drop_first()[j]).0 == m[j + 1].0);
        lemma_upsert_found(m.drop_first(), k, v, i - 1);
        assert(m.update(i, (k, v)).drop_first() =~= m.drop_first().update(i - 1, (k, v)));
    }
}

proof fn lemma_upsert_missing(m: Seq<(Seq<char>, Seq<char>)>, k: Seq<char>, v: Seq<char>)
    requires
        forall|j: int| 0 <= j < m.len() ==> (#[trigger] m[j]).0 != k,
    ensures
        upsert(m, k, v) =~= m.push((k, v)),
    decreases m.len(),
{
    if m.len() > 0 {
        assert(forall|j: int|
            0 <= j < m.drop_first().len() ==> (#[trigger] m.drop_first()[j]).0 == m[j + 1].0);
        lemma_upsert_missing(m.drop_first(), k, v);
        assert(m.push((k, v)).drop_first() =~= m.drop_first().push((k, v)));
    }
}

/// The key and value a tag chunk denotes: the part before the first `:`,
/// and the part after it, or `true` when there is none.
pub open spec fn chunk_kv(chunk: Seq<char>) -> (Seq<char>, Seq<char>) {
    let ps = spec_split(chunk, ':');
    (ps[0], if ps.len() >= 2 {
        ps[1]
    } else {
        seq!['t', 'r', 'u', 'e']
    })
}

/// Fold the tag chunks into a key-value list, later chunks overwriting
/// earlier values of the same key.
pub open spec fn tags_fold(
    acc: Seq<(Seq<char>, Seq<char>)>,
    chunks: Seq<Seq<char>>,
) -> Seq<(Seq<char>, Seq<char>)>
    decreases chunks.len(),
{
    if chunks.len() == 0 {
        acc
    } else {
        tags_fold(upsert(acc, chunk_kv(chunks[0]).0, chunk_kv(chunks[0]).1), chunks.drop_first())
    }
}

/// The tag list a `#`-prefixed component denotes, or nothing when it is
/// not a well-formed tags component.
pub open spec fn spec_parse_tags(s: Seq<char>) -> Option<Seq<(Seq<char>, Seq<char>)>> {
    if s.len() >= 2 && s[0] == '#' {
        Some(tags_fold(Seq::empty(), spec_split(s.skip(1), ',')))
    } else {
        None
    }
}

/// Parse a `#key:value,...` tags component.
pub fn parse_tags(input: &str) -> (r: Result<Vec<(String, String)>, ParseError>)
    ensures
        r matches Ok(tv) ==> (spec_parse_tags(input@) matches Some(ts) && tv@.len() == ts.len()
            && (forall|i: int|
            0 <= i < ts.len() ==> ((#[trigger] tv@[i]).0@, tv@[i].1@) == ts[i])),
        r matches Err(e) ==> spec_parse_tags(input@) is None && e is Malformed,
{
    let n = input.unicode_len();
    if !(n >= 2 && input.get_char(0) == '#') {
        return Err(ParseError::Malformed("expected non empty '#'-prefixed tags component"));
    }
    let rest = input.substring_char(1, n);
    proof {
        assert(rest@ =~= input@.skip(1));
    }
    let chunks = split_on(rest, ',');
    let ghost sp = spec_split(input@.skip(1), ',');
    let mut out: Vec<(String, String)> = Vec::new();
    let ghost mut acc: Seq<(Seq<char>, Seq<char>)> = Seq::empty();
    let m = chunks.len();
    let mut i: usize = 0;
    proof {
        assert(sp.skip(0) =~= sp);
    }
    while i < m
        invariant
            m == chunks@.len() == sp.len(),
            i <= m,
            forall|t: int| 0 <= t < m ==> (#[trigger] chunks@[t])@ == sp[t],
            out@.len() == acc.len(),
            forall|t: int| 0 <= t < acc.len() ==> ((#[trigger] out@[t]).0@, out@[t].1@) == acc[t],
            tags_fold(acc, sp.skip(i as int)) == tags_fold(Seq::empty(), sp),
        decreases m - i,
    {
        let chunk = &chunks[i];
        let pair = split_on(chunk.as_str(), ':');
        proof {
            lemma_spec_split_len(chunk@, ':');
        }
        let key = clone_string(&pair[0]);
        let val: String = if pair.len() >= 2 {
            clone_string(&pair[1])
        } else {
            let mut t = String::new();
            push_char(&mut t, 't');
            push_char(&mut t, 'r');
            push_char(&mut t, 'u');
            push_char(&mut t, 'e');
            proof {
                assert(t@ =~= seq!['t', 'r', 'u', 'e']);
            }
            t
        };
        let ghost kv = chunk_kv(sp[i as int]);
        proof {
            assert(key@ == kv.0);
            assert(val@ == kv.1);
        }
        let olen = out.len();
        let mut j: usize = 0;
        let mut found = false;
        while j < olen
            invariant_except_break
                !found,
            invariant
                olen == out@.len(),
                j <= olen,
                forall|t: int| 0 <= t < j ==> (#[trigger] out@[t]).0@ != key@,
                found ==> j < olen && (out@[j as int]).0@ == key@,
            ensures
                found ==> j < olen && (out@[j as int]).0@ == key@,
                !found ==> j == olen,
            decreases olen - j,
        {
            if out[j].0.eq(&key) {
                found = true;
                break ;
            }
            j = j + 1;
        }
        let ghost acc0 = acc;
        let ghost out0 = out@;
        if found {
            let _ = out.remove(j);
            out.insert(j, (key, val));
            proof {
                assert forall|t: int| 0 <= t < j implies (#[trigger] acc0[t]).0 != kv.0 by {
                    assert(acc0[t] == ((out0[t]).0@, out0[t].1@));
                }
                assert(acc0[j as int].0 == kv.0);
                lemma_upsert_found(acc0, kv.0, kv.1, j as int);
                acc = upsert(acc0, kv.0, kv.1);
                assert(acc =~= acc0.update(j as int, (kv.0, kv.1)));
            }
        } else {
            out.push((key, val));
            proof {
                assert forall|t: int| 0 <= t < acc0.len()
                    implies (#[trigger] acc0[t]).0 != kv.0 by {
                    assert(acc0[t] == ((out0[t]).0@, out0[t].1@));
                }
                lemma_upsert_missing(acc0, kv.0, kv.1);
                acc = upsert(acc0, kv.0, kv.1);
                assert(acc =~= acc0.push((kv.0, kv.1)));
            }
        }
        proof {
            assert(sp.skip(i as int)[0] == sp[i as int]);
            assert(sp.skip(i as int).drop_first() =~= sp.skip(i + 1));
            assert(tags_fold(acc0, sp.skip(i as int)) == tags_fold(acc, sp.skip(i + 1)));
        }
        i = i + 1;
    }
    proof {
        assert(sp.skip(m as int) =~= Seq::<Seq<char>>::empty());
        assert(tags_fold(acc, sp.skip(m as int)) == acc);
    }
    Ok(out)
}

/// What a sampling component denotes.
pub ghost enum SampleOutcome {
    Value { num: int, den: int },
    NotSampling,
    BadNumber,
}

/// The sampling value of an `@`-prefixed component: rejected when the
/// prefix or the number is missing, or when the number carries a minus
/// sign.
pub open spec fn spec_sampling(s: Seq<char>) -> SampleOutcome {
    if !(s.len() >= 2 && s[0] == '@') {
        SampleOutcome::NotSampling
    } else {
        match spec_dec(s.skip(1)) {
            None => SampleOutcome::BadNumber,
            Some((n, d)) => if s[1] == '-' {
                SampleOutcome::NotSampling
            } else {
                SampleOutcome::Value { num: n, den: d }
            },
        }
    }
}

/// Parse an `@rate` sampling component.
pub fn parse_sampling(input: &str) -> (r: Result<Number, ParseError>)
    ensures
        r matches Ok(v) ==> spec_sampling(input@) == (SampleOutcome::Value {
            num: v.num as int,
            den: v.den as int,
        }) && v.wf() && 0 <= v.num <= 1_000_000_000_000_000_000 && v.den
            <= 1_000_000_000_000_000_000,
        r matches Err(e) ==> (e is Malformed && spec_sampling(input@) is NotSampling) || (
        e is InvalidFloat && spec_sampling(input@) is BadNumber),
        r is Err <==> !(spec_sampling(input@) is Value),
{
    let n = input.unicode_len();
    if !(n >= 2 && input.get_char(0) == '@') {
        return Err(
            ParseError::Malformed("expected non empty '@'-prefixed sampling component"),
        );
    }
    let rest = input.substring_char(1, n);
    proof {
        assert(rest@ =~= input@.skip(1));
    }
    match parse_decimal(rest) {
        None => Err(ParseError::InvalidFloat),
        Some(v) => {
            proof {
                lemma_dec_bounds(rest@);
            }
            if input.get_char(1) == '-' {
                Err(ParseError::Malformed("sample rate can't be negative"))
            } else {
                assert(v.num >= 0) by {
                    if v.num < 0 {
                        assert(dec_shape(rest@) matches Some(sh) && sh.0 == 1);
                        lemma_dv_bound(dec_shape(rest@).unwrap().1, 0);
                        lemma_dv_bound(dec_shape(rest@).unwrap().2, 0);
                        lemma_pow10_pos(dec_shape(rest@).unwrap().2.len() as int);
                        assert(spec_dec(rest@).unwrap().0 >= 0) by (nonlinear_arith)
                            requires
                                spec_dec(rest@) matches Some(p) && dec_shape(
                                    rest@,
                                ) matches Some(sh) && sh.0 == 1 && p.0 == sh.0 * (dv(sh.1, 0)
                                    * pow10(sh.2.len() as int) + dv(sh.2, 0)),
                                dv(dec_shape(rest@).unwrap().1, 0) >= 0,
                                dv(dec_shape(rest@).unwrap().2, 0) >= 0,
                                pow10(dec_shape(rest@).unwrap().2.len() as int) >= 1,
                        ;
                    }
                }
                Ok(v)
            }
        },
    }
}

/// A sampling of zero counts as no sampling at all.
pub fn sanitize_sampling(sampling: Number) -> (r: Number)
    ensures
        r == (if sampling.num == 0 {
            Number { num: 1, den: 1 }
        } else {
            sampling
        }),
{
    if sampling.num == 0 {
        Number { num: 1, den: 1 }
    } else {
        sampling
    }
}

/// The leading sign of a gauge value: an explicit sign makes the gauge a
/// relative adjustment, a digit an absolute level.
pub fn parse_direction(input: &str) -> (r: Result<Option<i64>, ParseError>)
    ensures
        input@.len() == 0 ==> (r matches Err(e) && e is Malformed),
        input@.len() > 0 && input@[0] == '+' ==> r == Ok::<Option<i64>, ParseError>(
            Some(1i64),
        ),
        input@.len() > 0 && input@[0] == '-' ==> r == Ok::<Option<i64>, ParseError>(
            Some(-1i64),
        ),
        input@.len() > 0 && is_digit(input@[0]) ==> r == Ok::<Option<i64>, ParseError>(
            None,
        ),
        input@.len() > 0 && !(input@[0] == '+' || input@[0] == '-' || is_digit(input@[0]))
            ==> (r matches Err(e) && e is Malformed),
{
    let n = input.unicode_len();
    if n == 0 {
        return Err(ParseError::Malformed("empty body component"));
    }
    let c = input.get_char(0);
    if c == '+' {
        Ok(Some(1))
    } else if c == '-' {
        Ok(Some(-1))
    } else {
        let u = c as u32;
        if u >= 48 && u <= 57 {
            Ok(None)
        } else {
            Err(ParseError::Malformed("invalid gauge value prefix"))
        }
    }
}

/// The exact product of two fractions, when it stays within 64 bits.
pub open spec fn spec_mul(an: int, ad: int, bn: int, bd: int) -> Option<(int, int)> {
    if i64::MIN <= an * bn <= i64::MAX && 0 <= ad * bd <= u64::MAX {
        Some((an * bn, ad * bd))
    } else {
        None
    }
}

/// Multiply two numbers exactly, rejecting 64-bit overflow.
fn num_mul(a: Number, b: Number) -> (r: Option<Number>)
    requires
        a.wf(),
        b.wf(),
    ensures
        r matches Some(v) ==> spec_mul(a.num as int, a.den as int, b.num as int, b.den as int)
            == Some((v.num as int, v.den as int)) && v.wf(),
        r is None ==> spec_mul(a.num as int, a.den as int, b.num as int, b.den as int)
            is None,
{
    proof {
        assert(i128::MIN <= (a.num as int) * (b.num as int) <= i128::MAX)
            by (nonlinear_arith)
            requires
                i64::MIN <= a.num <= i64::MAX,
                i64::MIN <= b.num <= i64::MAX,
        ;
        assert(0 <= (a.den as int) * (b.den as int) <= u128::MAX) by (nonlinear_arith)
            requires
                0 <= a.den <= u64::MAX,
                0 <= b.den <= u64::MAX,
        ;
        assert((a.den as int) * (b.den as int) > 0) by (nonlinear_arith)
            requires
                a.den > 0,
                b.den > 0,
        ;
    }
    let p: i128 = (a.num as i128) * (b.num as i128);
    let q: u128 = (a.den as u128) * (b.den as u128);
    if p > i64::MAX as i128 || p < i64::MIN as i128 || q > u64::MAX as u128 {
        None
    } else {
        Some(Number { num: p as i64, den: q as u64 })
    }
}

/// `a / 1000` exactly, rejecting 64-bit overflow of the scale.
fn num_div1000(a: Number) -> (r: Option<Number>)
    requires
        a.wf(),
    ensures
        r matches Some(v) ==> a.den * 1000 <= u64::MAX && v.num == a.num && v.den == a.den
            * 1000 && v.wf(),
        r is None ==> a.den * 1000 > u64::MAX,
{
    let q: u128 = (a.den as u128) * 1000;
    if q > u64::MAX as u128 {
        None
    } else {
        Some(Number { num: a.num, den: (a.den * 1000) as u64 })
    }
}

/// The sampling rate as a whole count: the floor of the fraction, capped
/// at the largest 32-bit value.
pub open spec fn spec_rate(num: int, den: int) -> int {
    if num / den > u32::MAX {
        u32::MAX as int
    } else {
        num / den
    }
}

fn rate_u32(r: Number) -> (out: u32)
    requires
        r.wf(),
        r.num >= 0,
    ensures
        out == spec_rate(r.num as int, r.den as int),
{
    let q: u64 = (r.num as u64) / r.den;
    proof {
        assert((r.num as u64) as int == r.num as int);
    }
    if q > u32::MAX as u64 {
        u32::MAX
    } else {
        q as u32
    }
}

/// The views of a list of strings.
pub open spec fn views_of(v: Seq<String>) -> Seq<Seq<char>> {
    Seq::new(v.len(), |i: int| v[i]@)
}

pub open spec fn starts_with_at(p: Seq<char>) -> bool {
    p.len() > 0 && p[0] == '@'
}

pub open spec fn starts_with_hash(p: Seq<char>) -> bool {
    p.len() > 0 && p[0] == '#'
}

/// The metric a value component and type component denote, given the
/// resolved name, tags and sampling rate.
pub open spec fn spec_value_dispatch(
    name: Seq<char>,
    tags: Option<Seq<(Seq<char>, Seq<char>)>>,
    v: Seq<char>,
    mt: Seq<char>,
    rn: int,
    rd: int,
) -> Outcome {
    if mt == seq!['c'] {
        match spec_dec(v) {
            None => Outcome::BadNumber,
            Some((an, ad)) => match spec_mul(an, ad, rn, rd) {
                None => Outcome::BadNumber,
                Some((n, d)) => Outcome::Metric(
                    SpecMetric {
                        name,
                        tags,
                        kind: MetricKind::Incremental,
                        value: SpecValue::Counter { num: n, den: d },
                    },
                ),
            },
        }
    } else if mt == seq!['h'] || mt == seq!['m', 's'] {
        match spec_dec(v) {
            None => Outcome::BadNumber,
            Some((an, ad)) => {
                let scaled: Option<(int, int)> = if mt == seq!['m', 's'] {
                    if ad * 1000 <= u64::MAX {
                        Some((an, ad * 1000))
                    } else {
                        None
                    }
                } else {
                    Some((an, ad))
                };
                match scaled {
                    None => Outcome::BadNumber,
                    Some((n, d)) => Outcome::Metric(
                        SpecMetric {
                            name,
                            tags,
                            kind: MetricKind::Incremental,
                            value: SpecValue::Dist { num: n, den: d, rate: spec_rate(rn, rd) },
                        },
                    ),
                }
            },
        }
    } else if mt == seq!['g'] {
        if v.len() == 0 {
            Outcome::BadShape
        } else {
            let body = if is_digit(v[0]) {
                v
            } else {
                v.skip(1)
            };
            match spec_dec(body) {
                None => Outcome::BadNumber,
                Some((n, d)) => if is_digit(v[0]) {
                    Outcome::Metric(
                        SpecMetric {
                            name,
                            tags,
                            kind: MetricKind::Absolute,
                            value: SpecValue::Gauge { num: n, den: d },
                        },
                    )
                } else if v[0] == '+' {
                    Outcome::Metric(
                        SpecMetric {
                            name,
                            tags,
                            kind: MetricKind::Incremental,
                            value: SpecValue::Gauge { num: n, den: d },
                        },
                    )
                } else if v[0] == '-' {
                    Outcome::Metric(
                        SpecMetric {
                            name,
                            tags,
                            kind: MetricKind::Incremental,
                            value: SpecValue::Gauge { num: -n, den: d },
                        },
                    )
                } else {
                    Outcome::BadShape
                },
            }
        }
    } else if mt == seq!['s'] {
        Outcome::Metric(
            SpecMetric {
                name,
                tags,
                kind: MetricKind::Incremental,
                value: SpecValue::SetV { member: v },
            },
        )
    } else {
        Outcome::UnknownType(mt)
    }
}

/// The metric the pipe-separated components denote.
pub open spec fn spec_dispatch(name: Seq<char>, parts: Seq<Seq<char>>) -> Outcome
    recommends
        parts.len() >= 2,
{
    let samp_present = parts.len() > 2 && starts_with_at(parts[2]);
    let samp = if samp_present {
        spec_sampling(parts[2])
    } else {
        SampleOutcome::Value { num: 1, den: 1 }
    };
    match samp {
        SampleOutcome::NotSampling => Outcome::BadShape,
        SampleOutcome::BadNumber => Outcome::BadNumber,
        SampleOutcome::Value { num: sn, den: sd } => {
            let (rn, rd): (int, int) = if sn == 0 {
                (1, 1)
            } else {
                (sd, sn)
            };
            let ti: int = if samp_present {
                3
            } else {
                2
            };
            let tag_present = parts.len() > ti && starts_with_hash(parts[ti]);
            if tag_present && spec_parse_tags(parts[ti]) is None {
                Outcome::BadShape
            } else {
                let tags: Option<Seq<(Seq<char>, Seq<char>)>> = if tag_present {
                    spec_parse_tags(parts[ti])
                } else {
                    None
                };
                spec_value_dispatch(name, tags, parts[0], parts[1], rn, rd)
            }
        },
    }
}

/// What parsing the whole packet denotes.
pub open spec fn spec_parse(s: Seq<char>) -> Outcome {
    let f = spec_find(s, ':');
    if f == -1 {
        Outcome::BadShape
    } else {
        let key = s.take(f);
        let body = s.skip(f + 1);
        let parts = spec_split(body, '|');
        if parts.len() < 2 {
            Outcome::BadShape
        } else {
            spec_dispatch(spec_sanitize(key), parts)
        }
    }
}

/// Whether the executable result `r` is the one the outcome `o` calls
/// for.
pub open spec fn outcome_matches(r: Result<Metric, ParseError>, o: Outcome) -> bool {
    match o {
        Outcome::Metric(sm) => r matches Ok(m) && metric_matches(m, sm),
        Outcome::BadShape => r matches Err(e) && e is Malformed,
        Outcome::UnknownType(t) => r matches Err(e) && (e matches
        ParseError::UnknownMetricType(u) && u@ == t),
        Outcome::BadNumber => r matches Err(e) && e is InvalidFloat,
    }
}

/// The value and type components resolved into a metric.
#[verifier::rlimit(100)]
fn dispatch_value(
    name: String,
    tags: Option<Vec<(String, String)>>,
    first: &String,
    mt: &String,
    rate: Number,
    Ghost(stags): Ghost<Option<Seq<(Seq<char>, Seq<char>)>>>,
) -> (r: Result<Metric, ParseError>)
    requires
        rate.wf(),
        rate.num >= 0,
        (match (tags, stags) {
            (None, None) => true,
            (Some(tv), Some(ts)) => tv@.len() == ts.len() && forall|i: int|
                0 <= i < ts.len() ==> ((#[trigger] tv@[i]).0@, tv@[i].1@) == ts[i],
            _ => false,
        }),
    ensures
        outcome_matches(
            r,
            spec_value_dispatch(name@, stags, first@, mt@, rate.num as int, rate.den as int),
        ),
{
    let ml = mt.as_str().unicode_len();
    let is_c = ml == 1 && mt.as_str().get_char(0) == 'c';
    let is_h = ml == 1 && mt.as_str().get_char(0) == 'h';
    let is_g = ml == 1 && mt.as_str().get_char(0) == 'g';
    let is_s = ml == 1 && mt.as_str().get_char(0) == 's';
    let is_ms = ml == 2 && mt.as_str().get_char(0) == 'm' && mt.as_str().get_char(1) == 's';
    proof {
        if is_c {
            assert(mt@ =~= seq!['c']);
        }
        if is_h {
            assert(mt@ =~= seq!['h']);
        }
        if is_g {
            assert(mt@ =~= seq!['g']);
        }
        if is_s {
            assert(mt@ =~= seq!['s']);
        }
        if is_ms {
            assert(mt@ =~= seq!['m', 's']);
        }
    }
    if is_c {
        match parse_decimal(first.as_str()) {
            None => Err(ParseError::InvalidFloat),
            Some(v) => {
                match num_mul(v, rate) {
                    None => Err(ParseError::InvalidFloat),
                    Some(value) => Ok(
                        Metric {
                            name,
                            timestamp: None,
                            tags,
                            kind: MetricKind::Incremental,
                            value: MetricValue::Counter { value },
                        },
                    ),
                }
            },
        }
    } else if is_h || is_ms {
        match parse_decimal(first.as_str()) {
            None => Err(ParseError::InvalidFloat),
            Some(v) => {
                let scaled: Option<Number> = if is_ms {
                    num_div1000(v)
                } else {
                    Some(v)
                };
                match scaled {
                    None => Err(ParseError::InvalidFloat),
                    Some(value) => {
                        let rate32 = rate_u32(rate);
                        let mut values: Vec<Number> = Vec::new();
                        values.push(value);
                        let mut sample_rates: Vec<u32> = Vec::new();
                        sample_rates.push(rate32);
                        Ok(
                            Metric {
                                name,
                                timestamp: None,
                                tags,
                                kind: MetricKind::Incremental,
                                value: MetricValue::Distribution { values, sample_rates },
                            },
                        )
                    },
                }
            },
        }
    } else if is_g {
        let vl = first.as_str().unicode_len();
        if vl == 0 {
            return Err(ParseError::Malformed("empty first body component"));
        }
        let c0 = first.as_str().get_char(0);
        let u0 = c0 as u32;
        let first_digit = u0 >= 48 && u0 <= 57;
        let body: &str = if first_digit {
            first.as_str()
        } else {
            first.as_str().substring_char(1, vl)
        };
        proof {
            if !first_digit {
                assert(body@ =~= first@.skip(1));
            }
        }
        match parse_decimal(body) {
            None => Err(ParseError::InvalidFloat),
            Some(v) => {
                match parse_direction(first.as_str()) {
                    Err(e) => Err(e),
                    Ok(None) => Ok(
                        Metric {
                            name,
                            timestamp: None,
                            tags,
                            kind: MetricKind::Absolute,
                            value: MetricValue::Gauge { value: v },
                        },
                    ),
                    Ok(Some(sign)) => {
                        proof {
                            lemma_dec_bounds(body@);
                        }
                        let value = if sign < 0 {
                            Number { num: -v.num, den: v.den }
                        } else {
                            v
                        };
                        Ok(
                            Metric {
                                name,
                                timestamp: None,
                                tags,
                                kind: MetricKind::Incremental,
                                value: MetricValue::Gauge { value },
                            },
                        )
                    },
                }
            },
        }
    } else if is_s {
        let mut values: Vec<String> = Vec::new();
        values.push(clone_string(first));
        Ok(
            Metric {
                name,
                timestamp: None,
                tags,
                kind: MetricKind::Incremental,
                value: MetricValue::SetValues { values },
            },
        )
    } else {
        proof {
            if mt@ == seq!['c'] {
                assert(is_c);
            }
            if mt@ == seq!['h'] {
                assert(is_h);
            }
            if mt@ == seq!['g'] {
                assert(is_g);
            }
            if mt@ == seq!['s'] {
                assert(is_s);
            }
            if mt@ == seq!['m', 's'] {
                assert(is_ms);
            }
        }
        Err(ParseError::UnknownMetricType(clone_string(mt)))
    }
}

/// Parse one statsd packet: `key:value|type[|@sample][|#tags]`.
#[verifier::rlimit(100)]
pub fn parse(packet: &str) -> (r: Result<Metric, ParseError>)
    ensures
        outcome_matches(r, spec_parse(packet@)),
{
    let n = packet.unicode_len();
    let colon = find_char(packet, ':');
    match colon {
        None => Err(ParseError::Malformed("should be key and body with ':' separator")),
        Some(ci) => {
            let key = packet.substring_char(0, ci);
            let body = packet.substring_char(ci + 1, n);
            proof {
                assert(key@ =~= packet@.take(ci as int));
                assert(body@ =~= packet@.skip(ci + 1));
            }
            let parts = split_on(body, '|');
            if parts.len() < 2 {
                return Err(
                    ParseError::Malformed(
                        "body should have at least two pipe separated components",
                    ),
                );
            }
            let ghost ps = views_of(parts@);
            proof {
                assert(ps.len() == spec_split(body@, '|').len());
                assert forall|i: int| 0 <= i < ps.len()
                    implies ps[i] == spec_split(body@, '|')[i] by {
                    assert(ps[i] == (parts@[i])@);
                }
                assert(ps =~= spec_split(body@, '|'));
            }
            let name = sanitize_key(key);
            let np = parts.len();
            let samp_present = np > 2 && {
                let p2 = &parts[2];
                p2.as_str().unicode_len() > 0 && p2.as_str().get_char(0) == '@'
            };
            let rate: Number;
            let ghost sn: int;
            let ghost sd: int;
            if samp_present {
                match parse_sampling(parts[2].as_str()) {
                    Err(e) => {
                        return Err(e);
                    },
                    Ok(v) => {
                        proof {
                            sn = v.num as int;
                            sd = v.den as int;
                        }
                        let sv = sanitize_sampling(v);
                        rate = Number { num: sv.den as i64, den: sv.num as u64 };
                    },
                }
            } else {
                proof {
                    sn = 1;
                    sd = 1;
                }
                rate = Number { num: 1, den: 1 };
            }
            let ti: usize = if samp_present {
                3
            } else {
                2
            };
            let tag_present = np > ti && {
                let pt = &parts[ti];
                pt.as_str().unicode_len() > 0 && pt.as_str().get_char(0) == '#'
            };
            let tags: Option<Vec<(String, String)>>;
            let ghost stags: Option<Seq<(Seq<char>, Seq<char>)>>;
            if tag_present {
                match parse_tags(parts[ti].as_str()) {
                    Err(e) => {
                        return Err(e);
                    },
                    Ok(tv) => {
                        proof {
                            stags = spec_parse_tags(ps[ti as int]);
                        }
                        tags = Some(tv);
                    },
                }
            } else {
                proof {
                    stags = None;
                }
                tags = None;
            }
            let first = clone_string(&parts[0]);
            let mt = clone_string(&parts[1]);
            let r = dispatch_value(name, tags, &first, &mt, rate, Ghost(stags));
            r
        },
    }
}

} // verus!
