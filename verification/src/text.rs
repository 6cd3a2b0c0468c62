//! Character-level string helpers with exact specifications.

use vstd::prelude::*;
use vstd::string::*;

verus! {

// ---------------------------------------------------------------------------
// Specifications
// ---------------------------------------------------------------------------

/// `p` is a prefix of `s`.
pub open spec fn starts_with(s: Seq<char>, p: Seq<char>) -> bool {
    p.len() <= s.len() && s.subrange(0, p.len() as int) == p
}

/// `s` with every leading repetition of the (non-empty) pattern `p` removed,
/// as `str::trim_start_matches` does.
pub open spec fn strip_all(s: Seq<char>, p: Seq<char>) -> Seq<char>
    decreases s.len(),
{
    if p.len() > 0 && starts_with(s, p) {
        strip_all(s.subrange(p.len() as int, s.len() as int), p)
    } else {
        s
    }
}

/// `s` without the prefix `p` when it has it.
pub open spec fn strip_prefix(s: Seq<char>, p: Seq<char>) -> Option<Seq<char>> {
    if starts_with(s, p) {
        Some(s.subrange(p.len() as int, s.len() as int))
    } else {
        None
    }
}

/// The index of the first occurrence of `c` in `s`, or `s.len()`.
pub open spec fn first_index(s: Seq<char>, c: char) -> int
    decreases s.len(),
{
    if s.len() == 0 {
        0
    } else if s[0] == c {
        0
    } else {
        1 + first_index(s.drop_first(), c)
    }
}

/// The pieces of `s` between occurrences of `c`, as `str::split` yields
/// them (always at least one piece).
pub open spec fn split(s: Seq<char>, c: char) -> Seq<Seq<char>>
    decreases s.len(),
{
    let i = first_index(s, c);
    if i >= s.len() {
        seq![s]
    } else {
        proof {
            lemma_first_index(s, c);
        }
        seq![s.subrange(0, i)] + split(s.subrange(i + 1, s.len() as int), c)
    }
}

/// The piece of `s` before the first occurrence of `c`.
pub open spec fn before(s: Seq<char>, c: char) -> Seq<char> {
    s.subrange(0, first_index(s, c))
}

/// Unicode white space, as `char::is_whitespace` defines it.
pub open spec fn is_ws(c: char) -> bool {
    c == '\t' || c == '\n' || c == '\u{0B}' || c == '\u{0C}' || c == '\r' || c == ' '
        || c == '\u{85}' || c == '\u{A0}' || c == '\u{1680}' || ('\u{2000}' <= c
        && c <= '\u{200A}') || c == '\u{2028}' || c == '\u{2029}' || c == '\u{202F}'
        || c == '\u{205F}' || c == '\u{3000}'
}

pub open spec fn trim_start(s: Seq<char>) -> Seq<char>
    decreases s.len(),
{
    if s.len() > 0 && is_ws(s[0]) {
        trim_start(s.drop_first())
    } else {
        s
    }
}

pub open spec fn trim_end(s: Seq<char>) -> Seq<char>
    decreases s.len(),
{
    if s.len() > 0 && is_ws(s.last()) {
        trim_end(s.drop_last())
    } else {
        s
    }
}

/// `s` without leading and trailing white space, as `str::trim` returns it.
pub open spec fn trim(s: Seq<char>) -> Seq<char> {
    trim_end(trim_start(s))
}

pub open spec fn is_digit(c: char) -> bool {
    '0' <= c && c <= '9'
}

pub open spec fn is_lower(c: char) -> bool {
    'a' <= c && c <= 'z'
}

pub open spec fn is_upper(c: char) -> bool {
    'A' <= c && c <= 'Z'
}

pub open spec fn is_alpha(c: char) -> bool {
    is_lower(c) || is_upper(c)
}

pub open spec fn is_alnum(c: char) -> bool {
    is_alpha(c) || is_digit(c)
}

pub open spec fn all_digits(s: Seq<char>) -> bool {
    forall|i: int| 0 <= i < s.len() ==> is_digit(#[trigger] s[i])
}

/// The number a string of decimal digits denotes.
pub open spec fn digits_value(s: Seq<char>) -> nat
    decreases s.len(),
{
    if s.len() == 0 {
        0
    } else {
        digits_value(s.drop_last()) * 10 + (s.last() as nat - '0' as nat) as nat
    }
}

/// What `str::parse::<u64>` gives for a string without a sign.
pub open spec fn parse_u64(s: Seq<char>) -> Option<u64> {
    if s.len() > 0 && all_digits(s) && digits_value(s) <= u64::MAX {
        Some(digits_value(s) as u64)
    } else {
        None
    }
}

/// The decimal digit `d` as a one-character string.
pub open spec fn digit_char(d: nat) -> char {
    ('0' as nat + d) as char
}

/// The decimal rendering of `n`, as `Display` writes it.
pub open spec fn decimal(n: nat) -> Seq<char>
    decreases n,
{
    if n < 10 {
        seq![digit_char(n)]
    } else {
        decimal(n / 10).push(digit_char(n % 10))
    }
}

// ---------------------------------------------------------------------------
// Lemmas
// ---------------------------------------------------------------------------

pub proof fn lemma_first_index(s: Seq<char>, c: char)
    ensures
        0 <= first_index(s, c) <= s.len(),
        first_index(s, c) < s.len() ==> s[first_index(s, c)] == c,
        forall|j: int| 0 <= j < first_index(s, c) ==> s[j] != c,
    decreases s.len(),
{
    if s.len() > 0 && s[0] != c {
        lemma_first_index(s.drop_first(), c);
        assert forall|j: int| 0 <= j < first_index(s, c) implies s[j] != c by {
            if j > 0 {
                assert(s[j] == s.drop_first()[j - 1]);
            }
        }
    }
}

/// `first_index` is characterized by the first position holding `c`.
pub proof fn lemma_first_index_is(s: Seq<char>, c: char, i: int)
    requires
        0 <= i <= s.len(),
        i < s.len() ==> s[i] == c,
        forall|j: int| 0 <= j < i ==> s[j] != c,
    ensures
        first_index(s, c) == i,
    decreases s.len(),
{
    if s.len() > 0 && i > 0 {
        assert forall|j: int| 0 <= j < i - 1 implies s.drop_first()[j] != c by {
            assert(s.drop_first()[j] == s[j + 1]);
        }
        lemma_first_index_is(s.drop_first(), c, i - 1);
    }
}

pub proof fn lemma_trim_start_is(s: Seq<char>, k: int)
    requires
        0 <= k <= s.len(),
        forall|j: int| 0 <= j < k ==> is_ws(s[j]),
        k < s.len() ==> !is_ws(s[k]),
    ensures
        trim_start(s) == s.subrange(k, s.len() as int),
    decreases s.len(),
{
    if k > 0 {
        assert forall|j: int| 0 <= j < k - 1 implies is_ws(s.drop_first()[j]) by {
            assert(s.drop_first()[j] == s[j + 1]);
        }
        if k - 1 < s.len() - 1 {
            assert(s.drop_first()[k - 1] == s[k]);
        }
        lemma_trim_start_is(s.drop_first(), k - 1);
        assert(s.drop_first().subrange(k - 1, s.len() - 1) =~= s.subrange(k, s.len() as int));
    } else {
        assert(s.subrange(0, s.len() as int) =~= s);
    }
}

pub proof fn lemma_trim_end_is(s: Seq<char>, k: int)
    requires
        0 <= k <= s.len(),
        forall|j: int| k <= j < s.len() ==> is_ws(s[j]),
        k > 0 ==> !is_ws(s[k - 1]),
    ensures
        trim_end(s) == s.subrange(0, k),
    decreases s.len(),
{
    if k < s.len() {
        assert forall|j: int| k <= j < s.len() - 1 implies is_ws(s.drop_last()[j]) by {}
        lemma_trim_end_is(s.drop_last(), k);
        assert(s.drop_last().subrange(0, k) =~= s.subrange(0, k));
    } else {
        assert(s.subrange(0, s.len() as int) =~= s);
    }
}

// ---------------------------------------------------------------------------
// Executable helpers
// ---------------------------------------------------------------------------

/// The characters of `s`, one by one.
pub fn chars_of(s: &str) -> (v: Vec<char>)
    ensures
        v@ == s@,
{
    let n = s.unicode_len();
    let mut v: Vec<char> = Vec::new();
    let mut i: usize = 0;
    while i < n
        invariant
            n == s@.len(),
            i <= n,
            v@ == s@.subrange(0, i as int),
        decreases n - i,
    {
        let c = s.get_char(i);
        v.push(c);
        i = i + 1;
        assert(v@ =~= s@.subrange(0, i as int));
    }
    assert(v@ =~= s@);
    v
}

/// A fresh `String` holding the characters of `s`.
pub fn owned(s: &str) -> (r: String)
    ensures
        r@ == s@,
{
    s.to_owned()
}

/// `a` followed by `b`.
pub fn cat(a: &str, b: &str) -> (r: String)
    ensures
        r@ == a@ + b@,
{
    a.to_owned().concat(b)
}

/// `a`, `b` and `c` in order.
pub fn cat3(a: &str, b: &str, c: &str) -> (r: String)
    ensures
        r@ == a@ + b@ + c@,
{
    a.to_owned().concat(b).concat(c)
}

/// Five pieces in order.
pub fn cat5(a: &str, b: &str, c: &str, d: &str, e: &str) -> (r: String)
    ensures
        r@ == a@ + b@ + c@ + d@ + e@,
{
    a.to_owned().concat(b).concat(c).concat(d).concat(e)
}

/// Seven pieces in order.
pub fn cat7(a: &str, b: &str, c: &str, d: &str, e: &str, f: &str, g: &str) -> (r: String)
    ensures
        r@ == a@ + b@ + c@ + d@ + e@ + f@ + g@,
{
    a.to_owned().concat(b).concat(c).concat(d).concat(e).concat(f).concat(g)
}

/// Nine pieces in order.
pub fn cat9(
    a: &str,
    b: &str,
    c: &str,
    d: &str,
    e: &str,
    f: &str,
    g: &str,
    h: &str,
    i: &str,
) -> (r: String)
    ensures
        r@ == a@ + b@ + c@ + d@ + e@ + f@ + g@ + h@ + i@,
{
    a.to_owned().concat(b).concat(c).concat(d).concat(e).concat(f).concat(g).concat(h).concat(i)
}

/// Whether two strings hold the same characters.
pub fn same(a: &str, b: &str) -> (r: bool)
    ensures
        r == (a@ == b@),
{
    let x = a.to_owned();
    let y = b.to_owned();
    x == y
}

/// Whether `v` holds `p` from position `from` on.
fn matches_at(v: &Vec<char>, from: usize, p: &Vec<char>) -> (r: bool)
    requires
        from <= v.len(),
    ensures
        r == starts_with(v@.subrange(from as int, v@.len() as int), p@),
{
    let ghost t = v@.subrange(from as int, v@.len() as int);
    if p.len() > v.len() - from {
        return false;
    }
    let mut i: usize = 0;
    while i < p.len()
        invariant
            from + p.len() <= v.len(),
            i <= p.len(),
            t == v@.subrange(from as int, v@.len() as int),
            forall|j: int| 0 <= j < i ==> v@[from + j] == p@[j],
        decreases p.len() - i,
    {
        if v[from + i] != p[i] {
            assert(t.subrange(0, p.len() as int)[i as int] != p@[i as int]);
            return false;
        }
        i = i + 1;
    }
    assert(t.subrange(0, p.len() as int) =~= p@);
    true
}

/// Whether `s` starts with `p`.
pub fn has_prefix(s: &str, p: &str) -> (r: bool)
    ensures
        r == starts_with(s@, p@),
{
    let v = chars_of(s);
    let pv = chars_of(p);
    let r = matches_at(&v, 0, &pv);
    assert(v@.subrange(0, v@.len() as int) =~= v@);
    r
}

/// The position after every leading repetition of `p` in `v[from..]`.
fn strip_all_from(v: &Vec<char>, from: usize, p: &Vec<char>) -> (k: usize)
    requires
        from <= v.len(),
        p.len() > 0,
    ensures
        from <= k <= v.len(),
        strip_all(v@.subrange(from as int, v@.len() as int), p@) == v@.subrange(
            k as int,
            v@.len() as int,
        ),
    decreases v.len() - from,
{
    if matches_at(v, from, p) {
        let next = from + p.len();
        let k = strip_all_from(v, next, p);
        assert(v@.subrange(from as int, v@.len() as int).subrange(
            p@.len() as int,
            v@.len() - from,
        ) =~= v@.subrange(next as int, v@.len() as int));
        k
    } else {
        from
    }
}

/// `s` without every leading repetition of `p`; `s` itself where `p` is
/// empty.
pub fn strip_all_prefix<'a>(s: &'a str, p: &str) -> (r: &'a str)
    ensures
        r@ == strip_all(s@, p@),
{
    let v = chars_of(s);
    let pv = chars_of(p);
    if pv.len() == 0 {
        return s;
    }
    let k = strip_all_from(&v, 0, &pv);
    assert(v@.subrange(0, v@.len() as int) =~= v@);
    s.substring_char(k, v.len())
}

/// `s` without the prefix `p`, when it has it.
pub fn strip_one_prefix<'a>(s: &'a str, p: &str) -> (r: Option<&'a str>)
    ensures
        match strip_prefix(s@, p@) {
            Some(t) => r.is_some() && r.unwrap()@ == t,
            None => r.is_none(),
        },
{
    let v = chars_of(s);
    let pv = chars_of(p);
    if matches_at(&v, 0, &pv) {
        assert(v@.subrange(0, v@.len() as int) =~= v@);
        Some(s.substring_char(pv.len(), v.len()))
    } else {
        assert(v@.subrange(0, v@.len() as int) =~= v@);
        None
    }
}

/// The first position at or after `from` holding `c`, or `v.len()`.
fn find_from(v: &Vec<char>, from: usize, c: char) -> (k: usize)
    requires
        from <= v.len(),
    ensures
        from <= k <= v.len(),
        k - from == first_index(v@.subrange(from as int, v@.len() as int), c),
{
    let mut k = from;
    while k < v.len() && v[k] != c
        invariant
            from <= k <= v.len(),
            forall|j: int| from <= j < k ==> v@[j] != c,
        decreases v.len() - k,
    {
        k = k + 1;
    }
    proof {
        let t = v@.subrange(from as int, v@.len() as int);
        assert forall|j: int| 0 <= j < k - from implies t[j] != c by {
            assert(t[j] == v@[from + j]);
        }
        lemma_first_index_is(t, c, k - from);
    }
    k
}

/// The piece of `s` before the first occurrence of `c` (all of `s` when
/// `c` does not occur).
pub fn before_char<'a>(s: &'a str, c: char) -> (r: &'a str)
    ensures
        r@ == before(s@, c),
{
    let v = chars_of(s);
    let k = find_from(&v, 0, c);
    assert(v@.subrange(0, v@.len() as int) =~= v@);
    s.substring_char(0, k)
}

/// The pieces of `s` between occurrences of `c`.
pub fn split_on(s: &str, c: char) -> (parts: Vec<&str>)
    ensures
        parts@.map_values(|p: &str| p@) == split(s@, c),
{
    let v = chars_of(s);
    let n = v.len();
    let mut parts: Vec<&str> = Vec::new();
    let mut start: usize = 0;
    assert(v@.subrange(0, n as int) =~= s@);
    assert(parts@.map_values(|p: &str| p@) =~= Seq::<Seq<char>>::empty());
    loop
        invariant
            n == v.len(),
            v@ == s@,
            start <= n,
            parts@.map_values(|p: &str| p@) + split(v@.subrange(start as int, n as int), c)
                == split(s@, c),
        decreases n - start,
    {
        let ghost t = v@.subrange(start as int, n as int);
        let k = find_from(&v, start, c);
        let piece = s.substring_char(start, k);
        let ghost before_parts = parts@;
        parts.push(piece);
        assert(parts@.map_values(|p: &str| p@) =~= before_parts.map_values(|p: &str| p@).push(
            piece@,
        ));
        if k == n {
            assert(t.subrange(0, n - start) =~= t);
            assert(split(t, c) == seq![t]);
            assert(piece@ =~= t);
            assert(parts@.map_values(|p: &str| p@) =~= before_parts.map_values(|p: &str| p@)
                + split(t, c));
            return parts;
        }
        proof {
            lemma_first_index(t, c);
            assert(t.subrange(0, k - start) =~= piece@);
            assert(t.subrange(k - start + 1, t.len() as int) =~= v@.subrange(
                k + 1,
                n as int,
            ));
            assert(split(t, c) == seq![piece@] + split(v@.subrange(k + 1, n as int), c));
            assert(parts@.map_values(|p: &str| p@) + split(v@.subrange(k + 1, n as int), c)
                =~= before_parts.map_values(|p: &str| p@) + split(t, c));
        }
        start = k + 1;
    }
}

pub fn is_white(c: char) -> (b: bool)
    ensures
        b == is_ws(c),
{
    c == '\t' || c == '\n' || c == '\u{0B}' || c == '\u{0C}' || c == '\r' || c == ' '
        || c == '\u{85}' || c == '\u{A0}' || c == '\u{1680}' || ('\u{2000}' <= c && c
        <= '\u{200A}') || c == '\u{2028}' || c == '\u{2029}' || c == '\u{202F}' || c
        == '\u{205F}' || c == '\u{3000}'
}

/// `s` without leading and trailing white space.
pub fn trimmed<'a>(s: &'a str) -> (r: &'a str)
    ensures
        r@ == trim(s@),
{
    let v = chars_of(s);
    let n = v.len();
    let mut a: usize = 0;
    while a < n && is_white(v[a])
        invariant
            n == v.len(),
            a <= n,
            forall|j: int| 0 <= j < a ==> is_ws(v@[j]),
        decreases n - a,
    {
        a = a + 1;
    }
    let mut b: usize = n;
    while b > a && is_white(v[b - 1])
        invariant
            n == v.len(),
            a <= b <= n,
            forall|j: int| b <= j < n ==> is_ws(v@[j]),
        decreases b - a,
    {
        b = b - 1;
    }
    proof {
        lemma_trim_start_is(v@, a as int);
        let t = v@.subrange(a as int, n as int);
        assert forall|j: int| b - a <= j < t.len() implies is_ws(t[j]) by {
            assert(t[j] == v@[a + j]);
        }
        if b > a {
            assert(t[b - a - 1] == v@[b - 1]);
        }
        lemma_trim_end_is(t, b - a);
        assert(t.subrange(0, b - a) =~= v@.subrange(a as int, b as int));
    }
    s.substring_char(a, b)
}

/// Whether `s` is empty or consists of white space only.
pub fn is_blank(s: &str) -> (b: bool)
    ensures
        b == (trim(s@).len() == 0),
{
    let t = trimmed(s);
    t.unicode_len() == 0
}

/// The number `s` denotes, when it is a non-empty run of decimal digits
/// that fits in a `u64`.
pub fn parse_digits(s: &str) -> (r: Option<u64>)
    ensures
        r == parse_u64(s@),
{
    let v = chars_of(s);
    let n = v.len();
    if n == 0 {
        return None;
    }
    let mut acc: u64 = 0;
    let mut overflow = false;
    let mut i: usize = 0;
    while i < n
        invariant
            n == v.len(),
            v@ == s@,
            i <= n,
            forall|j: int| 0 <= j < i ==> is_digit(v@[j]),
            !overflow ==> acc as nat == digits_value(v@.subrange(0, i as int)),
            overflow ==> digits_value(v@.subrange(0, i as int)) > u64::MAX,
        decreases n - i,
    {
        let c = v[i];
        if !('0' <= c && c <= '9') {
            proof {
                assert(!all_digits(s@)) by {
                    assert(!is_digit(s@[i as int]));
                }
            }
            return None;
        }
        let d = (c as u32 - '0' as u32) as u64;
        let ghost pre = v@.subrange(0, i as int);
        let ghost next = v@.subrange(0, i + 1);
        proof {
            assert(next.drop_last() =~= pre);
            assert(next.last() == c);
            assert(digits_value(next) == digits_value(pre) * 10 + d);
        }
        if !overflow {
            if acc > (u64::MAX - d) / 10 {
                overflow = true;
                assert(digits_value(next) > u64::MAX) by (nonlinear_arith)
                    requires
                        digits_value(next) == acc * 10 + d,
                        acc > (u64::MAX - d) / 10,
                        d <= 9,
                ;
            } else {
                assert(acc * 10 + d <= u64::MAX) by (nonlinear_arith)
                    requires
                        acc <= (u64::MAX - d) / 10,
                        d <= 9,
                ;
                acc = acc * 10 + d;
            }
        } else {
            assert(digits_value(next) > u64::MAX) by (nonlinear_arith)
                requires
                    digits_value(next) == digits_value(pre) * 10 + d,
                    digits_value(pre) > u64::MAX,
            ;
        }
        i = i + 1;
    }
    assert(v@.subrange(0, n as int) =~= s@);
    if overflow {
        None
    } else {
        Some(acc)
    }
}

/// The one-character string for the decimal digit `d`.
fn digit_str(d: u64) -> (s: &'static str)
    requires
        d < 10,
    ensures
        s@ == seq![digit_char(d as nat)],
{
    proof {
        reveal_strlit("0");
        reveal_strlit("1");
        reveal_strlit("2");
        reveal_strlit("3");
        reveal_strlit("4");
        reveal_strlit("5");
        reveal_strlit("6");
        reveal_strlit("7");
        reveal_strlit("8");
        reveal_strlit("9");
    }
    if d == 0 {
        assert("0"@ =~= seq![digit_char(0)]);
        "0"
    } else if d == 1 {
        assert("1"@ =~= seq![digit_char(1)]);
        "1"
    } else if d == 2 {
        assert("2"@ =~= seq![digit_char(2)]);
        "2"
    } else if d == 3 {
        assert("3"@ =~= seq![digit_char(3)]);
        "3"
    } else if d == 4 {
        assert("4"@ =~= seq![digit_char(4)]);
        "4"
    } else if d == 5 {
        assert("5"@ =~= seq![digit_char(5)]);
        "5"
    } else if d == 6 {
        assert("6"@ =~= seq![digit_char(6)]);
        "6"
    } else if d == 7 {
        assert("7"@ =~= seq![digit_char(7)]);
        "7"
    } else if d == 8 {
        assert("8"@ =~= seq![digit_char(8)]);
        "8"
    } else {
        assert("9"@ =~= seq![digit_char(9)]);
        "9"
    }
}

/// The decimal rendering of `n`.
pub fn decimal_string(n: u64) -> (s: String)
    ensures
        s@ == decimal(n as nat),
    decreases n,
{
    if n < 10 {
        owned(digit_str(n))
    } else {
        let head = decimal_string(n / 10);
        let r = head.concat(digit_str(n % 10));
        assert(r@ =~= decimal(n as nat));
        r
    }
}

} // verus!

verus! {

/// The index of the first `.` or `+` in `s`, or `s.len()`.
pub open spec fn first_sep(s: Seq<char>) -> int
    decreases s.len(),
{
    if s.len() == 0 {
        0
    } else if s[0] == '.' || s[0] == '+' {
        0
    } else {
        1 + first_sep(s.drop_first())
    }
}

/// The major component of a dotted version string: the number before the
/// first `.` or `+`, white space around it ignored.
pub open spec fn leading_major(v: Seq<char>) -> Option<u64> {
    let t = trim(v);
    if t.len() == 0 {
        None
    } else {
        parse_u64(trim(t.subrange(0, first_sep(t))))
    }
}

pub proof fn lemma_first_sep_is(s: Seq<char>, i: int)
    requires
        0 <= i <= s.len(),
        i < s.len() ==> (s[i] == '.' || s[i] == '+'),
        forall|j: int| 0 <= j < i ==> s[j] != '.' && s[j] != '+',
    ensures
        first_sep(s) == i,
    decreases s.len(),
{
    if s.len() > 0 && i > 0 {
        assert forall|j: int| 0 <= j < i - 1 implies s.drop_first()[j] != '.'
            && s.drop_first()[j] != '+' by {
            assert(s.drop_first()[j] == s[j + 1]);
        }
        lemma_first_sep_is(s.drop_first(), i - 1);
    }
}

/// The major component of a dotted version string (`"1.2"` gives `Some(1)`).
pub fn parse_leading_major(version: &str) -> (r: Option<u64>)
    ensures
        r == leading_major(version@),
{
    let t = trimmed(version);
    let v = chars_of(t);
    if v.len() == 0 {
        return None;
    }
    let mut i: usize = 0;
    while i < v.len() && v[i] != '.' && v[i] != '+'
        invariant
            i <= v.len(),
            forall|j: int| 0 <= j < i ==> v@[j] != '.' && v@[j] != '+',
        decreases v.len() - i,
    {
        i = i + 1;
    }
    proof {
        lemma_first_sep_is(v@, i as int);
    }
    let head = t.substring_char(0, i);
    let head = trimmed(head);
    parse_digits(head)
}

} // verus!

verus! {

/// Lexicographic order on characters, which is the order `String`'s `Ord`
/// gives (UTF-8 preserves code-point order).
pub open spec fn lex_lt(a: Seq<char>, b: Seq<char>) -> bool
    decreases a.len(),
{
    if a.len() == 0 {
        b.len() > 0
    } else if b.len() == 0 {
        false
    } else if a[0] != b[0] {
        (a[0] as int) < (b[0] as int)
    } else {
        lex_lt(a.drop_first(), b.drop_first())
    }
}

pub proof fn lemma_lex_irreflexive(a: Seq<char>)
    ensures
        !lex_lt(a, a),
    decreases a.len(),
{
    if a.len() > 0 {
        lemma_lex_irreflexive(a.drop_first());
    }
}

pub proof fn lemma_lex_transitive(a: Seq<char>, b: Seq<char>, c: Seq<char>)
    requires
        lex_lt(a, b),
        lex_lt(b, c),
    ensures
        lex_lt(a, c),
    decreases a.len(),
{
    if a.len() > 0 && b.len() > 0 && c.len() > 0 {
        if a[0] == b[0] && b[0] == c[0] {
            lemma_lex_transitive(a.drop_first(), b.drop_first(), c.drop_first());
        }
    }
}

pub proof fn lemma_lex_total(a: Seq<char>, b: Seq<char>)
    requires
        a != b,
    ensures
        lex_lt(a, b) || lex_lt(b, a),
    decreases a.len(),
{
    if a.len() > 0 && b.len() > 0 && a[0] == b[0] {
        if a.drop_first() == b.drop_first() {
            assert(a =~= seq![a[0]] + a.drop_first());
            assert(b =~= seq![b[0]] + b.drop_first());
        }
        lemma_lex_total(a.drop_first(), b.drop_first());
    } else if a.len() == 0 && b.len() == 0 {
        assert(a =~= b);
    } else if a.len() > 0 && b.len() > 0 {
        assert((a[0] as int) != (b[0] as int));
    }
}

pub proof fn lemma_lex_asymmetric(a: Seq<char>, b: Seq<char>)
    requires
        lex_lt(a, b),
    ensures
        !lex_lt(b, a),
    decreases a.len(),
{
    if a.len() > 0 && b.len() > 0 && a[0] == b[0] {
        lemma_lex_asymmetric(a.drop_first(), b.drop_first());
    }
}

/// Whether `a` sorts strictly before `b`.
pub fn less_than(a: &str, b: &str) -> (r: bool)
    ensures
        r == lex_lt(a@, b@),
{
    let x = chars_of(a);
    let y = chars_of(b);
    let mut i: usize = 0;
    proof {
        assert(x@.subrange(0, x@.len() as int) =~= x@);
        assert(y@.subrange(0, y@.len() as int) =~= y@);
    }
    while i < x.len() && i < y.len() && x[i] == y[i]
        invariant
            i <= x.len(),
            i <= y.len(),
            forall|j: int| 0 <= j < i ==> x@[j] == y@[j],
            lex_lt(x@, y@) == lex_lt(
                x@.subrange(i as int, x@.len() as int),
                y@.subrange(i as int, y@.len() as int),
            ),
        decreases x.len() - i,
    {
        proof {
            let xs = x@.subrange(i as int, x@.len() as int);
            let ys = y@.subrange(i as int, y@.len() as int);
            assert(xs.drop_first() =~= x@.subrange(i + 1, x@.len() as int));
            assert(ys.drop_first() =~= y@.subrange(i + 1, y@.len() as int));
        }
        i = i + 1;
    }
    proof {
        assert(x@.subrange(0, x@.len() as int) =~= x@);
        assert(y@.subrange(0, y@.len() as int) =~= y@);
    }
    if i == x.len() {
        i < y.len()
    } else if i == y.len() {
        false
    } else {
        x[i] < y[i]
    }
}

} // verus!

verus! {

/// The decimal rendering of a signed integer.
pub open spec fn signed_decimal(x: int) -> Seq<char> {
    if x < 0 {
        "-"@ + decimal((-x) as nat)
    } else {
        decimal(x as nat)
    }
}

/// The decimal rendering of `x`.
pub fn signed_decimal_string(x: i64) -> (s: String)
    ensures
        s@ == signed_decimal(x as int),
{
    if x < 0 {
        let m: u64 = ((0 - (x + 1)) as u64) + 1;
        assert(m == -(x as int));
        cat("-", decimal_string(m).as_str())
    } else {
        decimal_string(x as u64)
    }
}

} // verus!
