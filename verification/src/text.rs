//! Character-level helpers shared by the parsers.
//!
//! Everything here works on `Seq<char>` views. Parsers take a `&str`, turn it
//! into a `Vec<char>` once with [`chars_of`], and build results with
//! [`push_char`] / [`string_of`].
use vstd::prelude::*;

verus! {

/// Unicode `White_Space`, the set `char::is_whitespace` tests against.
pub open spec fn is_ws(c: char) -> bool {
    ||| ('\u{9}' <= c && c <= '\u{d}')
    ||| c == ' '
    ||| c == '\u{85}'
    ||| c == '\u{a0}'
    ||| c == '\u{1680}'
    ||| ('\u{2000}' <= c && c <= '\u{200a}')
    ||| c == '\u{2028}'
    ||| c == '\u{2029}'
    ||| c == '\u{202f}'
    ||| c == '\u{205f}'
    ||| c == '\u{3000}'
}

pub open spec fn is_digit(c: char) -> bool {
    '0' <= c && c <= '9'
}

pub open spec fn digit_value(c: char) -> nat {
    (c as int - '0' as int) as nat
}

/// Whether `p` occurs in `s` starting at `i`.
pub open spec fn occurs_at(s: Seq<char>, p: Seq<char>, i: int) -> bool {
    0 <= i && i + p.len() <= s.len() && s.subrange(i, i + p.len()) == p
}

/// `str::contains` with a string pattern.
pub open spec fn contains_seq(s: Seq<char>, p: Seq<char>) -> bool {
    exists|i: int| occurs_at(s, p, i)
}

/// `str::starts_with` with a string pattern.
pub open spec fn starts_with(s: Seq<char>, p: Seq<char>) -> bool {
    p.len() <= s.len() && s.take(p.len() as int) == p
}

/// Number of leading whitespace characters.
pub open spec fn leading_ws(s: Seq<char>) -> nat
    decreases s.len(),
{
    if s.len() > 0 && is_ws(s[0]) {
        1 + leading_ws(s.drop_first())
    } else {
        0
    }
}

/// Number of trailing whitespace characters.
pub open spec fn trailing_ws(s: Seq<char>) -> nat
    decreases s.len(),
{
    if s.len() > 0 && is_ws(s.last()) {
        1 + trailing_ws(s.drop_last())
    } else {
        0
    }
}

/// `str::trim_start`.
pub open spec fn trim_start(s: Seq<char>) -> Seq<char> {
    s.skip(leading_ws(s) as int)
}

/// `str::trim_end`.
pub open spec fn trim_end(s: Seq<char>) -> Seq<char> {
    s.take(s.len() - trailing_ws(s))
}

/// `str::trim`.
pub open spec fn trim(s: Seq<char>) -> Seq<char> {
    trim_end(trim_start(s))
}

/// ASCII lowercase of one character, as `char::to_ascii_lowercase`.
pub open spec fn lower(c: char) -> char {
    if 'A' <= c && c <= 'Z' {
        ((c as u32) + 32) as char
    } else {
        c
    }
}

/// `str::to_ascii_lowercase`.
pub open spec fn to_lower(s: Seq<char>) -> Seq<char> {
    s.map_values(|c: char| lower(c))
}

/// Value of a run of decimal digits.
pub open spec fn digits_value(s: Seq<char>) -> nat
    decreases s.len(),
{
    if s.len() == 0 {
        0
    } else {
        digits_value(s.drop_last()) * 10 + digit_value(s.last())
    }
}

pub open spec fn all_digits(s: Seq<char>) -> bool {
    forall|i: int| 0 <= i < s.len() ==> is_digit(#[trigger] s[i])
}

/// What `str::parse::<u64>` accepts: an optional `+`, then one or more
/// ASCII digits whose value fits.
pub open spec fn unsigned_body(s: Seq<char>) -> Seq<char> {
    if s.len() > 0 && s[0] == '+' {
        s.drop_first()
    } else {
        s
    }
}

pub open spec fn parses_unsigned(s: Seq<char>, max: nat) -> bool {
    let b = unsigned_body(s);
    b.len() > 0 && all_digits(b) && digits_value(b) <= max
}

/// `str::parse::<u32>`, `Some` of the value or `None` for an error.
pub open spec fn parse_u32_spec(s: Seq<char>) -> Option<u32> {
    if parses_unsigned(s, u32::MAX as nat) {
        Some(digits_value(unsigned_body(s)) as u32)
    } else {
        None
    }
}

/// `str::parse::<u64>`.
pub open spec fn parse_u64_spec(s: Seq<char>) -> Option<u64> {
    if parses_unsigned(s, u64::MAX as nat) {
        Some(digits_value(unsigned_body(s)) as u64)
    } else {
        None
    }
}

/// `str::parse::<i32>`: an optional sign, then digits whose value fits.
pub open spec fn parse_i32_spec(s: Seq<char>) -> Option<i32> {
    if s.len() > 0 && s[0] == '-' {
        let b = s.drop_first();
        if b.len() > 0 && all_digits(b) && digits_value(b) <= 0x8000_0000 {
            Some((0 - digits_value(b)) as i32)
        } else {
            None
        }
    } else {
        let b = unsigned_body(s);
        if b.len() > 0 && all_digits(b) && digits_value(b) <= i32::MAX as nat {
            Some(digits_value(b) as i32)
        } else {
            None
        }
    }
}

/// Decimal digits of `n`, as `u64::to_string` writes them.
pub open spec fn decimal(n: nat) -> Seq<char>
    decreases n,
{
    if n < 10 {
        seq![('0' as u32 + n) as char]
    } else {
        decimal(n / 10).push(('0' as u32 + (n % 10)) as char)
    }
}


/// Index of the first `'\n'` in `s`, or `s.len()` when there is none.
pub open spec fn first_nl(s: Seq<char>) -> nat
    decreases s.len(),
{
    if s.len() == 0 || s[0] == '\n' {
        0
    } else {
        1 + first_nl(s.drop_first())
    }
}

/// Drop one trailing `'\r'`.
pub open spec fn strip_cr(s: Seq<char>) -> Seq<char> {
    if s.len() > 0 && s.last() == '\r' {
        s.drop_last()
    } else {
        s
    }
}

/// `str::lines`: split at `'\n'`, dropping a `'\r'` before each `'\n'`; a
/// final line ending adds no empty line.
pub open spec fn lines(s: Seq<char>) -> Seq<Seq<char>>
    decreases s.len(),
{
    if s.len() == 0 {
        seq![]
    } else {
        let k = first_nl(s);
        if k >= s.len() {
            seq![s]
        } else {
            seq![strip_cr(s.take(k as int))] + lines(s.skip(k + 1 as int))
        }
    }
}

pub proof fn lemma_first_nl_bound(s: Seq<char>)
    ensures
        first_nl(s) <= s.len(),
        first_nl(s) < s.len() ==> s[first_nl(s) as int] == '\n',
        forall|i: int| 0 <= i < first_nl(s) ==> s[i] != '\n',
    decreases s.len(),
{
    if s.len() > 0 && s[0] != '\n' {
        lemma_first_nl_bound(s.drop_first());
        assert forall|i: int| 0 <= i < first_nl(s) implies s[i] != '\n' by {
            if i > 0 {
                assert(s[i] == s.drop_first()[i - 1]);
            }
        }
    }
}

/// A scan that stopped at `m` found the first line end.
pub proof fn lemma_first_nl_is(s: Seq<char>, m: int)
    requires
        0 <= m <= s.len(),
        forall|i: int| 0 <= i < m ==> s[i] != '\n',
        m == s.len() || s[m] == '\n',
    ensures
        first_nl(s) == m,
    decreases m,
{
    if m > 0 {
        assert forall|i: int| 0 <= i < m - 1 implies s.drop_first()[i] != '\n' by {
            assert(s.drop_first()[i] == s[i + 1]);
        }
        lemma_first_nl_is(s.drop_first(), m - 1);
    }
}

pub proof fn lemma_value_prefix(s: Seq<char>, k: int)
    requires
        0 <= k <= s.len(),
    ensures
        digits_value(s.take(k)) <= digits_value(s),
    decreases s.len(),
{
    if k < s.len() {
        assert(s.drop_last().take(k) == s.take(k));
        lemma_value_prefix(s.drop_last(), k);
    } else {
        assert(s.take(k) == s);
    }
}


/// Index of the first `sep` in `s`, or `s.len()` when there is none.
pub open spec fn first_of(s: Seq<char>, sep: char) -> nat
    decreases s.len(),
{
    if s.len() == 0 || s[0] == sep {
        0
    } else {
        1 + first_of(s.drop_first(), sep)
    }
}

pub proof fn lemma_first_of_bound(s: Seq<char>, sep: char)
    ensures
        first_of(s, sep) <= s.len(),
        first_of(s, sep) < s.len() ==> s[first_of(s, sep) as int] == sep,
        forall|i: int| 0 <= i < first_of(s, sep) ==> s[i] != sep,
    decreases s.len(),
{
    if s.len() > 0 && s[0] != sep {
        lemma_first_of_bound(s.drop_first(), sep);
        assert forall|i: int| 0 <= i < first_of(s, sep) implies s[i] != sep by {
            if i > 0 {
                assert(s[i] == s.drop_first()[i - 1]);
            }
        }
    }
}

/// A scan that stopped at `m` found the first `sep`.
pub proof fn lemma_first_of_is(s: Seq<char>, sep: char, m: int)
    requires
        0 <= m <= s.len(),
        forall|i: int| 0 <= i < m ==> s[i] != sep,
        m == s.len() || s[m] == sep,
    ensures
        first_of(s, sep) == m,
    decreases m,
{
    if m > 0 {
        assert forall|i: int| 0 <= i < m - 1 implies s.drop_first()[i] != sep by {
            assert(s.drop_first()[i] == s[i + 1]);
        }
        lemma_first_of_is(s.drop_first(), sep, m - 1);
    }
}

/// `str::split` with a single-character separator: the fields between
/// separators, always at least one.
pub open spec fn split_on(s: Seq<char>, sep: char) -> Seq<Seq<char>>
    decreases s.len(),
{
    let k = first_of(s, sep);
    if k >= s.len() {
        seq![s]
    } else {
        seq![s.take(k as int)] + split_on(s.skip((k + 1) as int), sep)
    }
}

/// The characters of `s`, in order.
pub fn chars_of(s: &str) -> (v: Vec<char>)
    ensures
        v@ == s@,
{
    broadcast use vstd::string::group_string_axioms;

    let mut v: Vec<char> = Vec::new();
    for c in it: s.chars()
        invariant
            v@ == it.seq().take(it.index() as int),
    {
        v.push(c);
    }
    v
}

/// Append one character to a `String` (`String::push`).
#[verifier::external_body]
pub(crate) fn push_char(s: &mut String, c: char)
    ensures
        final(s)@ == old(s)@.push(c),
{
    s.push(c);
}

/// Append a run of characters.
pub fn push_chars(s: &mut String, cs: &[char])
    ensures
        final(s)@ == old(s)@ + cs@,
{
    let n = cs.len();
    for i in 0..n
        invariant
            n == cs@.len(),
            s@ == old(s)@ + cs@.take(i as int),
    {
        push_char(s, cs[i]);
        assert(cs@.take(i + 1) == cs@.take(i as int).push(cs@[i as int]));
    }
    assert(cs@.take(n as int) == cs@);
}

/// Append a string slice.
pub fn push_str(s: &mut String, t: &str)
    ensures
        final(s)@ == old(s)@ + t@,
{
    let cs = chars_of(t);
    push_chars(s, cs.as_slice());
}

/// A `String` holding exactly `cs`.
pub fn string_of(cs: &[char]) -> (s: String)
    ensures
        s@ == cs@,
{
    let mut s = String::new();
    push_chars(&mut s, cs);
    s
}

/// A `String` holding `cs[from..to]`.
pub fn string_of_range(cs: &[char], from: usize, to: usize) -> (s: String)
    requires
        from <= to <= cs@.len(),
    ensures
        s@ == cs@.subrange(from as int, to as int),
{
    let mut s = String::new();
    let mut i = from;
    while i < to
        invariant
            from <= i <= to <= cs@.len(),
            s@ == cs@.subrange(from as int, i as int),
        decreases to - i,
    {
        push_char(&mut s, cs[i]);
        assert(cs@.subrange(from as int, i + 1) == cs@.subrange(from as int, i as int).push(
            cs@[i as int],
        ));
        i += 1;
    }
    s
}


/// Count of leading whitespace in `cs[from..to]`.
pub fn leading_ws_in(cs: &[char], from: usize, to: usize) -> (n: usize)
    requires
        from <= to <= cs@.len(),
    ensures
        n == leading_ws(cs@.subrange(from as int, to as int)),
        from + n <= to,
{
    let mut i = from;
    while i < to && is_whitespace(cs[i])
        invariant
            from <= i <= to <= cs@.len(),
            leading_ws(cs@.subrange(from as int, to as int)) == (i - from) + leading_ws(
                cs@.subrange(i as int, to as int),
            ),
        decreases to - i,
    {
        assert(cs@.subrange(i as int, to as int).drop_first() == cs@.subrange(i + 1, to as int));
        i += 1;
    }
    i - from
}

/// Count of trailing whitespace in `cs[from..to]`.
pub fn trailing_ws_in(cs: &[char], from: usize, to: usize) -> (n: usize)
    requires
        from <= to <= cs@.len(),
    ensures
        n == trailing_ws(cs@.subrange(from as int, to as int)),
        from + n <= to,
{
    let mut j = to;
    while j > from && is_whitespace(cs[j - 1])
        invariant
            from <= j <= to <= cs@.len(),
            trailing_ws(cs@.subrange(from as int, to as int)) == (to - j) + trailing_ws(
                cs@.subrange(from as int, j as int),
            ),
        decreases j - from,
    {
        assert(cs@.subrange(from as int, j as int).drop_last() == cs@.subrange(
            from as int,
            j - 1,
        ));
        j -= 1;
    }
    to - j
}

/// Bounds of `trim(cs[from..to])` within `cs`.
pub fn trim_bounds(cs: &[char], from: usize, to: usize) -> (r: (usize, usize))
    requires
        from <= to <= cs@.len(),
    ensures
        from <= r.0 <= r.1 <= to,
        cs@.subrange(r.0 as int, r.1 as int) == trim(cs@.subrange(from as int, to as int)),
        cs@.subrange(r.0 as int, to as int) == trim_start(cs@.subrange(from as int, to as int)),
{
    let a = from + leading_ws_in(cs, from, to);
    let b = to - trailing_ws_in(cs, a, to);
    let ghost sub = cs@.subrange(from as int, to as int);
    assert(trim_start(sub) == cs@.subrange(a as int, to as int));
    assert(trim(sub) == cs@.subrange(a as int, b as int));
    (a, b)
}

/// Whether `p` occurs in `cs` at `i`.
pub fn occurs_at_exec(cs: &[char], p: &[char], i: usize) -> (b: bool)
    ensures
        b == occurs_at(cs@, p@, i as int),
{
    if i > cs.len() || p.len() > cs.len() - i {
        return false;
    }
    let n = p.len();
    for k in 0..n
        invariant
            n == p@.len(),
            i + n <= cs.len(),
            cs@.len() == cs.len(),
            forall|j: int| 0 <= j < k ==> cs@[i + j] == p@[j],
    {
        if cs[i + k] != p[k] {
            assert(cs@.subrange(i as int, i + n)[k as int] != p@[k as int]);
            return false;
        }
    }
    assert(cs@.subrange(i as int, i + n) == p@);
    true
}

/// `str::contains` with a string pattern.
pub fn contains_chars(cs: &[char], p: &[char]) -> (b: bool)
    ensures
        b == contains_seq(cs@, p@),
{
    if p.len() > cs.len() {
        return false;
    }
    let last = cs.len() - p.len();
    let mut i: usize = 0;
    loop
        invariant
            last == cs@.len() - p@.len(),
            i <= last,
            forall|j: int| 0 <= j < i ==> !occurs_at(cs@, p@, j),
        decreases last - i,
    {
        if occurs_at_exec(cs, p, i) {
            return true;
        }
        if i == last {
            assert forall|j: int| !occurs_at(cs@, p@, j) by {
                if 0 <= j && j + p@.len() <= cs@.len() {
                    assert(j <= i);
                }
            }
            return false;
        }
        i += 1;
    }
}

/// `str::contains` with a string-literal pattern.
pub fn contains_str(cs: &[char], p: &str) -> (b: bool)
    ensures
        b == contains_seq(cs@, p@),
{
    let pv = chars_of(p);
    contains_chars(cs, pv.as_slice())
}

/// `str::starts_with` with a string-literal pattern.
pub fn starts_with_str(cs: &[char], p: &str) -> (b: bool)
    ensures
        b == starts_with(cs@, p@),
{
    let pv = chars_of(p);
    let b = occurs_at_exec(cs, pv.as_slice(), 0);
    assert(b ==> cs@.subrange(0, pv@.len() as int) == cs@.take(pv@.len() as int));
    assert(starts_with(cs@, p@) ==> cs@.subrange(0, pv@.len() as int) == cs@.take(
        pv@.len() as int,
    ));
    b
}

/// `str::to_ascii_lowercase`.
pub fn lowercase(cs: &[char]) -> (r: Vec<char>)
    ensures
        r@ == to_lower(cs@),
{
    let mut r: Vec<char> = Vec::new();
    let n = cs.len();
    for i in 0..n
        invariant
            n == cs@.len(),
            r@ == to_lower(cs@.take(i as int)),
    {
        r.push(lower_char(cs[i]));
        assert(to_lower(cs@.take(i + 1)) == to_lower(cs@.take(i as int)).push(lower(cs@[i as int])));
    }
    assert(cs@.take(n as int) == cs@);
    r
}

/// Parse `cs[from..to]` as an unsigned decimal no larger than `max`, the way
/// `str::parse` does for unsigned integers.
pub fn parse_unsigned_in(cs: &[char], from: usize, to: usize, max: u64) -> (r: Option<u64>)
    requires
        from <= to <= cs@.len(),
        max >= 9,
    ensures
        r == (if parses_unsigned(cs@.subrange(from as int, to as int), max as nat) {
            Some(digits_value(unsigned_body(cs@.subrange(from as int, to as int))) as u64)
        } else {
            None
        }),
{
    let ghost sub = cs@.subrange(from as int, to as int);
    let start = if from < to && cs[from] == '+' { from + 1 } else { from };
    let ghost body = cs@.subrange(start as int, to as int);
    assert(unsigned_body(sub) == body);
    if start >= to {
        return None;
    }
    let mut acc: u64 = 0;
    let mut i = start;
    while i < to
        invariant
            from <= start <= i <= to <= cs@.len(),
            body == cs@.subrange(start as int, to as int),
            unsigned_body(sub) == body,
            sub == cs@.subrange(from as int, to as int),
            max >= 9,
            all_digits(body.take(i - start)),
            acc == digits_value(body.take(i - start)),
            acc <= max,
        decreases to - i,
    {
        let c = cs[i];
        assert(body[i - start] == c);
        if !('0' <= c && c <= '9') {
            assert(!is_digit(body[i - start]));
            assert(!all_digits(body));
            return None;
        }
        let d = (c as u32 - '0' as u32) as u64;
        assert(d <= 9);
        assert(d == digit_value(c));
        assert(body.take(i - start + 1).drop_last() == body.take(i - start));
        if acc > (max - d) / 10 {
            proof {
                lemma_value_prefix(body, i - start + 1);
                assert(acc * 10 + d > max) by (nonlinear_arith)
                    requires
                        acc > (max - d) / 10,
                        d <= 9,
                        max >= 9,
                ;
            }
            return None;
        }
        assert(acc * 10 + d <= max) by (nonlinear_arith)
            requires
                acc <= (max - d) / 10,
                d <= 9,
                max >= 9,
        ;
        acc = acc * 10 + d;
        i += 1;
    }
    assert(body.take(i - start) == body);
    Some(acc)
}

/// `str::parse::<u32>` on `cs[from..to]`.
pub fn parse_u32_in(cs: &[char], from: usize, to: usize) -> (r: Option<u32>)
    requires
        from <= to <= cs@.len(),
    ensures
        r == parse_u32_spec(cs@.subrange(from as int, to as int)),
{
    match parse_unsigned_in(cs, from, to, u32::MAX as u64) {
        Some(v) => Some(v as u32),
        None => None,
    }
}

/// `str::parse::<u64>` on `cs[from..to]`.
pub fn parse_u64_in(cs: &[char], from: usize, to: usize) -> (r: Option<u64>)
    requires
        from <= to <= cs@.len(),
    ensures
        r == parse_u64_spec(cs@.subrange(from as int, to as int)),
{
    parse_unsigned_in(cs, from, to, u64::MAX)
}

/// `str::parse::<i32>` on `cs[from..to]`.
pub fn parse_i32_in(cs: &[char], from: usize, to: usize) -> (r: Option<i32>)
    requires
        from <= to <= cs@.len(),
    ensures
        r == parse_i32_spec(cs@.subrange(from as int, to as int)),
{
    let ghost sub = cs@.subrange(from as int, to as int);
    if from < to && cs[from] == '-' {
        assert(sub.drop_first() == cs@.subrange(from + 1, to as int));
        let r = parse_unsigned_in(cs, from + 1, to, 0x8000_0000);
        assert(unsigned_body(cs@.subrange(from + 1, to as int)) == cs@.subrange(from + 1, to as int)
            || cs@.subrange(from + 1, to as int)[0] == '+');
        if from + 1 < to && cs[from + 1] == '+' {
            assert(!all_digits(sub.drop_first())) by {
                assert(sub.drop_first()[0] == '+');
            }
            return None;
        }
        match r {
            Some(v) => {
                let neg: i64 = 0 - (v as i64);
                Some(neg as i32)
            },
            None => None,
        }
    } else {
        match parse_unsigned_in(cs, from, to, i32::MAX as u64) {
            Some(v) => Some(v as i32),
            None => None,
        }
    }
}

/// Append the decimal digits of `n`.
pub fn push_decimal(s: &mut String, n: u64)
    ensures
        final(s)@ == old(s)@ + decimal(n as nat),
    decreases n,
{
    if n < 10 {
        let c = ((n as u8) + 48) as char;
        push_char(s, c);
        assert(decimal(n as nat) == seq![c]);
    } else {
        push_decimal(s, n / 10);
        let c = (((n % 10) as u8) + 48) as char;
        push_char(s, c);
        assert(decimal(n as nat) == decimal((n / 10) as nat).push(c));
    }
}

/// `cs` split into lines as `str::lines` does.
pub fn split_lines(cs: &[char]) -> (r: Vec<Vec<char>>)
    ensures
        r.deep_view() == lines(cs@),
{
    let mut out: Vec<Vec<char>> = Vec::new();
    let mut i: usize = 0;
    let n = cs.len();
    assert(cs@.skip(0) == cs@);
    while i < n
        invariant
            n == cs@.len(),
            i <= n,
            lines(cs@) == out.deep_view() + lines(cs@.skip(i as int)),
        decreases n - i,
    {
        let mut j = i;
        while j < n && cs[j] != '\n'
            invariant
                i <= j <= n == cs@.len(),
                forall|k: int| i <= k < j ==> cs@[k] != '\n',
            decreases n - j,
        {
            j += 1;
        }
        let ghost t = cs@.skip(i as int);
        proof {
            lemma_first_nl_is(t, j - i);
        }
        let end = if j < n && j > i && cs[j - 1] == '\r' { j - 1 } else { j };
        let mut line: Vec<char> = Vec::new();
        let mut k = i;
        while k < end
            invariant
                i <= k <= end <= j <= n == cs@.len(),
                line@ == cs@.subrange(i as int, k as int),
            decreases end - k,
        {
            line.push(cs[k]);
            assert(cs@.subrange(i as int, k + 1) == cs@.subrange(i as int, k as int).push(cs@[k as int]));
            k += 1;
        }
        let ghost before = out.deep_view();
        out.push(line);
        proof {
            assert(line.deep_view() =~= line@);
            assert(out.deep_view() =~= before.push(line@));
            if j < n {
                assert(t.take(j - i) == cs@.subrange(i as int, j as int));
                assert(strip_cr(t.take(j - i)) == cs@.subrange(i as int, end as int));
                assert(t.skip(j - i + 1) == cs@.skip(j + 1));
                assert(lines(t) == seq![line@] + lines(cs@.skip(j + 1)));
            } else {
                assert(t == cs@.subrange(i as int, j as int));
                assert(lines(t) == seq![line@]);
                assert(cs@.skip(n as int) == Seq::<char>::empty());
            }
        }
        i = if j < n { j + 1 } else { n };
    }
    assert(cs@.skip(n as int) == Seq::<char>::empty());
    out
}



/// Index of the first `sep` in `cs[from..]`, or `cs.len()`.
pub fn find_char_from(cs: &[char], from: usize, sep: char) -> (k: usize)
    requires
        from <= cs@.len(),
    ensures
        from <= k <= cs@.len(),
        k - from == first_of(cs@.skip(from as int), sep),
{
    let n = cs.len();
    let mut j = from;
    while j < n && cs[j] != sep
        invariant
            from <= j <= n == cs@.len(),
            forall|i: int| from <= i < j ==> cs@[i] != sep,
        decreases n - j,
    {
        j += 1;
    }
    proof {
        lemma_first_of_is(cs@.skip(from as int), sep, j - from);
    }
    j
}

/// `cs` split at every `sep`, as `str::split` does.
pub fn split_chars(cs: &[char], sep: char) -> (r: Vec<Vec<char>>)
    ensures
        r.deep_view() == split_on(cs@, sep),
{
    let mut out: Vec<Vec<char>> = Vec::new();
    let mut i: usize = 0;
    let n = cs.len();
    assert(cs@.skip(0) == cs@);
    loop
        invariant
            n == cs@.len(),
            i <= n,
            split_on(cs@, sep) == out.deep_view() + split_on(cs@.skip(i as int), sep),
        decreases n - i,
    {
        let j = find_char_from(cs, i, sep);
        let ghost t = cs@.skip(i as int);
        let mut field: Vec<char> = Vec::new();
        let mut k = i;
        while k < j
            invariant
                i <= k <= j <= n == cs@.len(),
                field@ == cs@.subrange(i as int, k as int),
            decreases j - k,
        {
            field.push(cs[k]);
            assert(cs@.subrange(i as int, k + 1) == cs@.subrange(i as int, k as int).push(
                cs@[k as int],
            ));
            k += 1;
        }
        let ghost before = out.deep_view();
        out.push(field);
        assert(field.deep_view() =~= field@);
        assert(out.deep_view() =~= before.push(field@));
        if j >= n {
            assert(t == cs@.subrange(i as int, n as int));
            assert(split_on(t, sep) == seq![field@]);
            return out;
        }
        assert(t.take(j - i) == cs@.subrange(i as int, j as int));
        assert(t.skip(j - i + 1) == cs@.skip(j + 1));
        assert(split_on(t, sep) == seq![field@] + split_on(cs@.skip(j + 1), sep));
        i = j + 1;
    }
}

/// Index of the first whitespace character of `s`, or `s.len()`.
pub open spec fn first_ws(s: Seq<char>) -> nat
    decreases s.len(),
{
    if s.len() == 0 || is_ws(s[0]) {
        0
    } else {
        1 + first_ws(s.drop_first())
    }
}

pub proof fn lemma_first_ws_bound(s: Seq<char>)
    ensures
        first_ws(s) <= s.len(),
        first_ws(s) < s.len() ==> is_ws(s[first_ws(s) as int]),
    decreases s.len(),
{
    if s.len() > 0 && !is_ws(s[0]) {
        lemma_first_ws_bound(s.drop_first());
    }
}

/// A scan that stopped at `m` found the first whitespace character.
pub proof fn lemma_first_ws_is(s: Seq<char>, m: int)
    requires
        0 <= m <= s.len(),
        forall|i: int| 0 <= i < m ==> !is_ws(#[trigger] s[i]),
        m == s.len() || is_ws(s[m]),
    ensures
        first_ws(s) == m,
    decreases m,
{
    if m > 0 {
        assert forall|i: int| 0 <= i < m - 1 implies !is_ws(#[trigger] s.drop_first()[i]) by {
            assert(s.drop_first()[i] == s[i + 1]);
        }
        lemma_first_ws_is(s.drop_first(), m - 1);
    }
}

/// `s` cut at every whitespace character; pieces may be empty.
pub open spec fn split_ws(s: Seq<char>) -> Seq<Seq<char>>
    decreases s.len(),
{
    let k = first_ws(s);
    if k >= s.len() {
        seq![s]
    } else {
        seq![s.take(k as int)] + split_ws(s.skip((k + 1) as int))
    }
}

/// The non-empty pieces, in order.
pub open spec fn nonempty(pieces: Seq<Seq<char>>) -> Seq<Seq<char>>
    decreases pieces.len(),
{
    if pieces.len() == 0 {
        Seq::empty()
    } else if pieces.last().len() > 0 {
        nonempty(pieces.drop_last()).push(pieces.last())
    } else {
        nonempty(pieces.drop_last())
    }
}

/// `str::split_whitespace`.
pub open spec fn words(s: Seq<char>) -> Seq<Seq<char>> {
    nonempty(split_ws(s))
}

pub proof fn lemma_nonempty_append(a: Seq<Seq<char>>, b: Seq<Seq<char>>)
    ensures
        nonempty(a + b) == nonempty(a) + nonempty(b),
    decreases b.len(),
{
    if b.len() == 0 {
        assert(a + b =~= a);
        assert(nonempty(a) + nonempty(b) =~= nonempty(a));
    } else {
        lemma_nonempty_append(a, b.drop_last());
        assert((a + b).drop_last() =~= a + b.drop_last());
        assert((a + b).last() == b.last());
        if b.last().len() > 0 {
            assert(nonempty(a) + nonempty(b.drop_last()).push(b.last()) =~= (nonempty(a)
                + nonempty(b.drop_last())).push(b.last()));
        }
    }
}

/// Index of the first whitespace character in `cs[from..]`, or `cs.len()`.
pub fn find_ws_from(cs: &[char], from: usize) -> (k: usize)
    requires
        from <= cs@.len(),
    ensures
        from <= k <= cs@.len(),
        k - from == first_ws(cs@.skip(from as int)),
{
    let n = cs.len();
    let mut j = from;
    while j < n && !is_whitespace(cs[j])
        invariant
            from <= j <= n == cs@.len(),
            forall|i: int| from <= i < j ==> !is_ws(#[trigger] cs@[i]),
        decreases n - j,
    {
        j += 1;
    }
    proof {
        let t = cs@.skip(from as int);
        assert forall|i: int| 0 <= i < j - from implies !is_ws(#[trigger] t[i]) by {
            assert(t[i] == cs@[from + i]);
        }
        lemma_first_ws_is(t, j - from);
    }
    j
}

/// The whitespace-separated words of `cs`, as `str::split_whitespace`.
pub fn words_of(cs: &[char]) -> (r: Vec<Vec<char>>)
    ensures
        r.deep_view() == words(cs@),
{
    let mut out: Vec<Vec<char>> = Vec::new();
    let mut i: usize = 0;
    let n = cs.len();
    assert(cs@.skip(0) == cs@);
    proof {
        lemma_nonempty_append(Seq::empty(), split_ws(cs@));
        assert(Seq::<Seq<char>>::empty() + split_ws(cs@) =~= split_ws(cs@));
        assert(nonempty(Seq::<Seq<char>>::empty()) =~= Seq::<Seq<char>>::empty());
    }
    loop
        invariant
            n == cs@.len(),
            i <= n,
            words(cs@) == out.deep_view() + nonempty(split_ws(cs@.skip(i as int))),
        decreases n - i,
    {
        let j = find_ws_from(cs, i);
        let ghost t = cs@.skip(i as int);
        let mut field: Vec<char> = Vec::new();
        let mut k = i;
        while k < j
            invariant
                i <= k <= j <= n == cs@.len(),
                field@ == cs@.subrange(i as int, k as int),
            decreases j - k,
        {
            field.push(cs[k]);
            assert(cs@.subrange(i as int, k + 1) == cs@.subrange(i as int, k as int).push(
                cs@[k as int],
            ));
            k += 1;
        }
        assert(field.deep_view() =~= field@);
        let ghost piece = field@;
        let ghost before = out.deep_view();
        let keep = field.len() > 0;
        if keep {
            out.push(field);
            assert(out.deep_view() =~= before.push(piece));
        }
        if j >= n {
            assert(t == cs@.subrange(i as int, n as int));
            assert(split_ws(t) == seq![piece]);
            assert(seq![piece].drop_last() =~= Seq::<Seq<char>>::empty());
            if keep {
                assert(piece.len() > 0);
                assert(seq![piece].last() == piece);
                assert(nonempty(seq![piece].drop_last()) =~= Seq::<Seq<char>>::empty());
                assert(nonempty(seq![piece]) =~= seq![piece]);
            } else {
                assert(piece.len() == 0);
                assert(seq![piece].last() == piece);
                assert(nonempty(seq![piece].drop_last()) =~= Seq::<Seq<char>>::empty());
                assert(nonempty(seq![piece]) =~= Seq::<Seq<char>>::empty());
                assert(out.deep_view() + Seq::<Seq<char>>::empty() =~= out.deep_view());
            }
            return out;
        }
        assert(t.take(j - i) == cs@.subrange(i as int, j as int));
        assert(t.skip(j - i + 1) == cs@.skip(j + 1));
        assert(split_ws(t) == seq![piece] + split_ws(cs@.skip(j + 1)));
        proof {
            lemma_nonempty_append(seq![piece], split_ws(cs@.skip(j + 1)));
            assert(seq![piece].drop_last() =~= Seq::<Seq<char>>::empty());
            if keep {
                assert(piece.len() > 0);
                assert(seq![piece].last() == piece);
                assert(nonempty(seq![piece].drop_last()) =~= Seq::<Seq<char>>::empty());
                assert(nonempty(seq![piece]) =~= seq![piece]);
                assert(before + (seq![piece] + nonempty(split_ws(cs@.skip(j + 1)))) =~= before.push(
                    piece,
                ) + nonempty(split_ws(cs@.skip(j + 1))));
            } else {
                assert(piece.len() == 0);
                assert(seq![piece].last() == piece);
                assert(nonempty(seq![piece].drop_last()) =~= Seq::<Seq<char>>::empty());
                assert(nonempty(seq![piece]) =~= Seq::<Seq<char>>::empty());
                assert(Seq::<Seq<char>>::empty() + nonempty(split_ws(cs@.skip(j + 1))) =~= nonempty(
                    split_ws(cs@.skip(j + 1)),
                ));
            }
        }
        i = j + 1;
    }
}

/// Whether `cs[from..to]` is exactly `p`.
pub fn range_is(cs: &[char], from: usize, to: usize, p: &str) -> (b: bool)
    requires
        from <= to <= cs@.len(),
    ensures
        b == (cs@.subrange(from as int, to as int) == p@),
{
    let pv = chars_of(p);
    if to - from != pv.len() {
        assert(cs@.subrange(from as int, to as int).len() != p@.len());
        return false;
    }
    occurs_at_exec(cs, pv.as_slice(), from)
}

/// Whether `w` is exactly `p`.
pub fn chars_are(w: &Vec<char>, p: &str) -> (b: bool)
    ensures
        b == (w@ == p@),
{
    let b = range_is(w.as_slice(), 0, w.len(), p);
    assert(w@.subrange(0, w@.len() as int) == w@);
    b
}

/// A copy of `cs[from..to]`.
pub fn copy_range(cs: &[char], from: usize, to: usize) -> (r: Vec<char>)
    requires
        from <= to <= cs@.len(),
    ensures
        r@ == cs@.subrange(from as int, to as int),
{
    let mut r: Vec<char> = Vec::new();
    let mut k = from;
    while k < to
        invariant
            from <= k <= to <= cs@.len(),
            r@ == cs@.subrange(from as int, k as int),
        decreases to - k,
    {
        r.push(cs[k]);
        assert(cs@.subrange(from as int, k + 1) == cs@.subrange(from as int, k as int).push(cs@[k as int]));
        k += 1;
    }
    r
}

/// `str::split` always yields at least one piece.
pub proof fn lemma_split_on_nonempty(s: Seq<char>, sep: char)
    ensures
        split_on(s, sep).len() >= 1,
{
}

/// `str::parse::<u64>` on a whole word.
pub fn parse_u64_of(w: &Vec<char>) -> (r: Option<u64>)
    ensures
        r == parse_u64_spec(w@),
{
    assert(w@.subrange(0, w@.len() as int) == w@);
    parse_u64_in(w.as_slice(), 0, w.len())
}

/// `str::parse::<u32>` on a whole word.
pub fn parse_u32_of(w: &Vec<char>) -> (r: Option<u32>)
    ensures
        r == parse_u32_spec(w@),
{
    assert(w@.subrange(0, w@.len() as int) == w@);
    parse_u32_in(w.as_slice(), 0, w.len())
}

/// `str::parse::<i32>` on a whole word.
pub fn parse_i32_of(w: &Vec<char>) -> (r: Option<i32>)
    ensures
        r == parse_i32_spec(w@),
{
    assert(w@.subrange(0, w@.len() as int) == w@);
    parse_i32_in(w.as_slice(), 0, w.len())
}

/// Lexicographic order on characters, which for UTF-8 text is also the
/// byte order `str`'s `Ord` uses.
pub open spec fn lex_lt(a: Seq<char>, b: Seq<char>) -> bool
    decreases a.len(),
{
    if a.len() == 0 {
        b.len() > 0
    } else if b.len() == 0 {
        false
    } else if a[0] != b[0] {
        (a[0] as int) < (b[0] as int)
    } else {
        lex_lt(a.drop_first(), b.drop_first())
    }
}

pub proof fn lemma_lex_irreflexive(a: Seq<char>)
    ensures
        !lex_lt(a, a),
    decreases a.len(),
{
    if a.len() > 0 {
        lemma_lex_irreflexive(a.drop_first());
    }
}

pub proof fn lemma_lex_transitive(a: Seq<char>, b: Seq<char>, c: Seq<char>)
    requires
        lex_lt(a, b),
        lex_lt(b, c),
    ensures
        lex_lt(a, c),
    decreases a.len(),
{
    if a.len() > 0 && b.len() > 0 && c.len() > 0 && a[0] == b[0] && b[0] == c[0] {
        lemma_lex_transitive(a.drop_first(), b.drop_first(), c.drop_first());
    }
}

pub proof fn lemma_lex_total(a: Seq<char>, b: Seq<char>)
    ensures
        a == b || lex_lt(a, b) || lex_lt(b, a),
    decreases a.len(),
{
    if a.len() > 0 && b.len() > 0 && a[0] == b[0] {
        lemma_lex_total(a.drop_first(), b.drop_first());
        if a.drop_first() == b.drop_first() {
            assert(a =~= seq![a[0]] + a.drop_first());
            assert(b =~= seq![b[0]] + b.drop_first());
        }
    } else if a.len() == 0 && b.len() == 0 {
        assert(a =~= b);
    } else if a.len() > 0 && b.len() > 0 {
        assert(a[0] != b[0]);
        assert((a[0] as int) != (b[0] as int));
    }
}

pub proof fn lemma_lex_asymmetric(a: Seq<char>, b: Seq<char>)
    requires
        lex_lt(a, b),
    ensures
        !lex_lt(b, a),
    decreases a.len(),
{
    if a.len() > 0 && b.len() > 0 && a[0] == b[0] {
        lemma_lex_asymmetric(a.drop_first(), b.drop_first());
    }
}

/// Whether `a` sorts strictly before `b`.
pub fn lex_less(a: &[char], b: &[char]) -> (r: bool)
    ensures
        r == lex_lt(a@, b@),
{
    let mut i: usize = 0;
    let n = a.len();
    let m = b.len();
    assert(a@.skip(0) =~= a@);
    assert(b@.skip(0) =~= b@);
    while i < n && i < m && a[i] == b[i]
        invariant
            i <= n == a@.len(),
            i <= m == b@.len(),
            lex_lt(a@, b@) == lex_lt(a@.skip(i as int), b@.skip(i as int)),
        decreases n - i,
    {
        assert(a@.skip(i as int).drop_first() =~= a@.skip(i + 1));
        assert(b@.skip(i as int).drop_first() =~= b@.skip(i + 1));
        i += 1;
    }
    if i == n {
        i < m
    } else if i == m {
        false
    } else {
        assert(a@.skip(i as int)[0] == a@[i as int]);
        assert(b@.skip(i as int)[0] == b@[i as int]);
        a[i] < b[i]
    }
}

/// `parts` joined with `sep` between them (`[String]::join`).
pub open spec fn join(parts: Seq<Seq<char>>, sep: Seq<char>) -> Seq<char>
    decreases parts.len(),
{
    if parts.len() == 0 {
        Seq::empty()
    } else if parts.len() == 1 {
        parts[0]
    } else {
        join(parts.drop_last(), sep) + sep + parts.last()
    }
}

pub fn join_strings(parts: &Vec<String>, sep: &str) -> (r: String)
    ensures
        r@ == join(parts.deep_view(), sep@),
{
    let mut r = String::new();
    let n = parts.len();
    for i in 0..n
        invariant
            n == parts@.len(),
            r@ == join(parts.deep_view().take(i as int), sep@),
    {
        let ghost pre = parts.deep_view().take(i as int);
        assert(parts.deep_view().take(i + 1).drop_last() =~= pre);
        assert(parts.deep_view().take(i + 1).last() == parts@[i as int]@);
        if i > 0 {
            push_str(&mut r, sep);
        } else {
            assert(pre =~= Seq::<Seq<char>>::empty());
        }
        push_str(&mut r, parts[i].as_str());
    }
    assert(parts.deep_view().take(n as int) =~= parts.deep_view());
    r
}

/// `str::parse::<i64>`: an optional sign, then digits whose value fits.
pub open spec fn parse_i64_spec(s: Seq<char>) -> Option<i64> {
    if s.len() > 0 && s[0] == '-' {
        let b = s.drop_first();
        if b.len() > 0 && all_digits(b) && digits_value(b) <= 0x8000_0000_0000_0000 {
            Some((0 - digits_value(b)) as i64)
        } else {
            None
        }
    } else {
        let b = unsigned_body(s);
        if b.len() > 0 && all_digits(b) && digits_value(b) <= i64::MAX as nat {
            Some(digits_value(b) as i64)
        } else {
            None
        }
    }
}

/// `str::parse::<i64>` on a whole string.
pub fn parse_i64_str(text: &str) -> (r: Option<i64>)
    ensures
        r == parse_i64_spec(text@),
{
    let cs = chars_of(text);
    let to = cs.len();
    let ghost sub = cs@;
    if 0 < to && cs[0] == '-' {
        assert(sub.drop_first() == cs@.subrange(1, to as int));
        if 1 < to && cs[1] == '+' {
            assert(!all_digits(sub.drop_first())) by {
                assert(sub.drop_first()[0] == '+');
            }
            return None;
        }
        let r = parse_unsigned_in(cs.as_slice(), 1, to, 0x8000_0000_0000_0000);
        assert(unsigned_body(cs@.subrange(1, to as int)) == cs@.subrange(1, to as int));
        match r {
            Some(v) => {
                if v == 0x8000_0000_0000_0000 {
                    Some(i64::MIN)
                } else {
                    let neg: i64 = 0 - (v as i64);
                    Some(neg)
                }
            },
            None => None,
        }
    } else {
        assert(cs@.subrange(0, to as int) == cs@);
        match parse_unsigned_in(cs.as_slice(), 0, to, i64::MAX as u64) {
            Some(v) => Some(v as i64),
            None => None,
        }
    }
}

/// Whether two strings hold the same characters.
pub fn str_eq(a: &str, b: &str) -> (r: bool)
    ensures
        r == (a@ == b@),
{
    let av = chars_of(a);
    let bv = chars_of(b);
    if av.len() != bv.len() {
        return false;
    }
    let r = occurs_at_exec(av.as_slice(), bv.as_slice(), 0);
    assert(r ==> av@.subrange(0, bv@.len() as int) == av@);
    assert(av@ == bv@ ==> av@.subrange(0, bv@.len() as int) == av@);
    r
}

/// `char::is_whitespace`.
pub fn is_whitespace(c: char) -> (b: bool)
    ensures
        b == is_ws(c),
{
    ('\u{9}' <= c && c <= '\u{d}') || c == ' ' || c == '\u{85}' || c == '\u{a0}' || c
        == '\u{1680}' || ('\u{2000}' <= c && c <= '\u{200a}') || c == '\u{2028}' || c
        == '\u{2029}' || c == '\u{202f}' || c == '\u{205f}' || c == '\u{3000}'
}

/// `char::to_ascii_lowercase`.
pub fn lower_char(c: char) -> (r: char)
    ensures
        r == lower(c),
{
    if 'A' <= c && c <= 'Z' {
        let u = (c as u8) + 32;
        u as char
    } else {
        c
    }
}

} // verus!
