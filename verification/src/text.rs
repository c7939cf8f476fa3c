//! Character-level text helpers: decimal rendering, trimming, splitting
//! and integer parsing, each with a specification over `Seq<char>`.
use vstd::prelude::*;

verus! {

// ---------------------------------------------------------------------------
// Decimal rendering
// ---------------------------------------------------------------------------

/// The ASCII digit for `d` (taken modulo ten).
pub open spec fn digit_char(d: nat) -> char {
    let d = d % 10;
    if d == 0 {
        '0'
    } else if d == 1 {
        '1'
    } else if d == 2 {
        '2'
    } else if d == 3 {
        '3'
    } else if d == 4 {
        '4'
    } else if d == 5 {
        '5'
    } else if d == 6 {
        '6'
    } else if d == 7 {
        '7'
    } else if d == 8 {
        '8'
    } else {
        '9'
    }
}

/// Decimal notation of a natural number, without leading zeros.
pub open spec fn dec_nat(n: nat) -> Seq<char>
    decreases n,
{
    if n < 10 {
        seq![digit_char(n)]
    } else {
        dec_nat(n / 10).push(digit_char(n % 10))
    }
}

/// Decimal notation of an integer, with a leading `-` when negative.
pub open spec fn dec_int(i: int) -> Seq<char> {
    if i < 0 {
        seq!['-'] + dec_nat((-i) as nat)
    } else {
        dec_nat(i as nat)
    }
}

fn digit_str(d: u64) -> (s: &'static str)
    requires
        d < 10,
    ensures
        s@ == seq![digit_char(d as nat)],
{
    if d == 0 {
        proof { reveal_strlit("0"); }
        "0"
    } else if d == 1 {
        proof { reveal_strlit("1"); }
        "1"
    } else if d == 2 {
        proof { reveal_strlit("2"); }
        "2"
    } else if d == 3 {
        proof { reveal_strlit("3"); }
        "3"
    } else if d == 4 {
        proof { reveal_strlit("4"); }
        "4"
    } else if d == 5 {
        proof { reveal_strlit("5"); }
        "5"
    } else if d == 6 {
        proof { reveal_strlit("6"); }
        "6"
    } else if d == 7 {
        proof { reveal_strlit("7"); }
        "7"
    } else if d == 8 {
        proof { reveal_strlit("8"); }
        "8"
    } else {
        proof { reveal_strlit("9"); }
        "9"
    }
}

/// Appends the decimal notation of `n` to `s`.
pub fn push_u64(s: &mut String, n: u64)
    ensures
        final(s)@ == old(s)@ + dec_nat(n as nat),
    decreases n,
{
    if n >= 10 {
        push_u64(s, n / 10);
    }
    s.append(digit_str(n % 10));
    proof {
        assert((n as nat) % 10 == (n % 10) as nat);
        if n >= 10 {
            assert(dec_nat(n as nat) == dec_nat((n / 10) as nat).push(digit_char((n % 10) as nat)));
        }
    }
}

/// Appends the decimal notation of the signed `i` to `s`.
pub fn push_i64(s: &mut String, i: i64)
    ensures
        final(s)@ == old(s)@ + dec_int(i as int),
{
    if i < 0 {
        proof { reveal_strlit("-"); }
        s.append("-");
        let m: u64 = if i == i64::MIN {
            9223372036854775808u64
        } else {
            (-i) as u64
        };
        push_u64(s, m);
        assert(s@ =~= old(s)@ + dec_int(i as int));
    } else {
        push_u64(s, i as u64);
    }
}

/// Decimal text of `n`.
pub fn u64_text(n: u64) -> (s: String)
    ensures
        s@ == dec_nat(n as nat),
{
    let mut s = String::new();
    push_u64(&mut s, n);
    assert(s@ =~= dec_nat(n as nat));
    s
}

// ---------------------------------------------------------------------------
// Character access
// ---------------------------------------------------------------------------

/// The characters of `s`, in order.
pub fn chars_of(s: &str) -> (v: Vec<char>)
    ensures
        v@ == s@,
{
    let n = s.unicode_len();
    let mut v: Vec<char> = Vec::new();
    let mut i: usize = 0;
    while i < n
        invariant
            n == s@.len(),
            i <= n,
            v@ == s@.take(i as int),
        decreases n - i,
    {
        v.push(s.get_char(i));
        i = i + 1;
        assert(v@ =~= s@.take(i as int));
    }
    assert(s@.take(n as int) =~= s@);
    v
}

/// A `String` holding exactly the characters `v[from..to]`.
pub fn string_of(s: &str, from: usize, to: usize) -> (r: String)
    requires
        from <= to <= s@.len(),
    ensures
        r@ == s@.subrange(from as int, to as int),
{
    s.substring_char(from, to).to_owned()
}

/// Whether two strings hold the same characters.
pub fn str_eq(a: &str, b: &str) -> (r: bool)
    ensures
        r == (a@ == b@),
{
    let n = a.unicode_len();
    let m = b.unicode_len();
    if n != m {
        return false;
    }
    let mut i: usize = 0;
    while i < n
        invariant
            n == a@.len(),
            m == b@.len(),
            n == m,
            i <= n,
            forall|j: int| 0 <= j < i ==> a@[j] == b@[j],
        decreases n - i,
    {
        if a.get_char(i) != b.get_char(i) {
            return false;
        }
        i = i + 1;
    }
    assert(a@ =~= b@);
    true
}

/// Whether `p` is a prefix of `s`.
pub open spec fn starts_with(s: Seq<char>, p: Seq<char>) -> bool {
    p.len() <= s.len() && s.take(p.len() as int) == p
}

/// Whether `p` is a suffix of `s`.
pub open spec fn ends_with(s: Seq<char>, p: Seq<char>) -> bool {
    p.len() <= s.len() && s.skip(s.len() - p.len()) == p
}

/// Whether `v[i..]` starts with the characters of `p`.
fn matches_at(v: &Vec<char>, i: usize, p: &Vec<char>) -> (r: bool)
    requires
        i <= v@.len(),
    ensures
        r == starts_with(v@.skip(i as int), p@),
{
    let n = v.len();
    let m = p.len();
    if m > n - i {
        return false;
    }
    let mut k: usize = 0;
    while k < m
        invariant
            n == v@.len(),
            m == p@.len(),
            i + m <= n,
            k <= m,
            forall|j: int| 0 <= j < k ==> v@[i + j] == p@[j],
        decreases m - k,
    {
        if v[i + k] != p[k] {
            assert(v@.skip(i as int).take(m as int)[k as int] != p@[k as int]);
            return false;
        }
        k = k + 1;
    }
    assert(v@.skip(i as int).take(m as int) =~= p@);
    true
}

/// Whether `s` starts with `p`.
pub fn has_prefix(s: &str, p: &str) -> (r: bool)
    ensures
        r == starts_with(s@, p@),
{
    let v = chars_of(s);
    let w = chars_of(p);
    assert(v@.skip(0) =~= v@);
    matches_at(&v, 0, &w)
}

/// Whether `s` ends with `p`.
pub fn has_suffix(s: &str, p: &str) -> (r: bool)
    ensures
        r == ends_with(s@, p@),
{
    let v = chars_of(s);
    let w = chars_of(p);
    if w.len() > v.len() {
        return false;
    }
    let r = matches_at(&v, v.len() - w.len(), &w);
    assert(v@.skip((v.len() - w.len()) as int).take(w@.len() as int) =~= v@.skip(
        (v.len() - w.len()) as int,
    ));
    r
}

/// Whether `p` occurs somewhere inside `s`.
pub open spec fn contains_text(s: Seq<char>, p: Seq<char>) -> bool {
    exists|i: int| 0 <= i <= s.len() && #[trigger] starts_with(s.skip(i), p)
}

/// Whether `s` contains `p`.
pub fn has_text(s: &str, p: &str) -> (r: bool)
    ensures
        r == contains_text(s@, p@),
{
    let v = chars_of(s);
    let w = chars_of(p);
    let n = v.len();
    let mut i: usize = 0;
    while i < n
        invariant
            n == v@.len(),
            v@ == s@,
            w@ == p@,
            i <= n,
            forall|j: int| 0 <= j < i ==> !#[trigger] starts_with(s@.skip(j), p@),
        decreases n - i,
    {
        if matches_at(&v, i, &w) {
            return true;
        }
        i = i + 1;
    }
    if matches_at(&v, n, &w) {
        return true;
    }
    assert forall|j: int| 0 <= j <= s@.len() implies !#[trigger] starts_with(s@.skip(j), p@) by {}
    false
}

// ---------------------------------------------------------------------------
// Whitespace and trimming
// ---------------------------------------------------------------------------

/// Unicode `White_Space`, as `char::is_whitespace` defines it.
pub open spec fn is_ws(c: char) -> bool {
    ||| c == ' '
    ||| c == '\t'
    ||| c == '\n'
    ||| c == '\u{b}'
    ||| c == '\u{c}'
    ||| c == '\r'
    ||| c == '\u{85}'
    ||| c == '\u{a0}'
    ||| c == '\u{1680}'
    ||| ('\u{2000}' <= c && c <= '\u{200a}')
    ||| c == '\u{2028}'
    ||| c == '\u{2029}'
    ||| c == '\u{202f}'
    ||| c == '\u{205f}'
    ||| c == '\u{3000}'
}

/// Whether `c` is whitespace.
pub fn char_is_ws(c: char) -> (r: bool)
    ensures
        r == is_ws(c),
{
    c == ' ' || c == '\t' || c == '\n' || c == '\u{b}' || c == '\u{c}' || c == '\r' || c
        == '\u{85}' || c == '\u{a0}' || c == '\u{1680}' || ('\u{2000}' <= c && c <= '\u{200a}')
        || c == '\u{2028}' || c == '\u{2029}' || c == '\u{202f}' || c == '\u{205f}' || c
        == '\u{3000}'
}

/// `s` without its leading whitespace.
pub open spec fn trim_start(s: Seq<char>) -> Seq<char>
    decreases s.len(),
{
    if s.len() > 0 && is_ws(s[0]) {
        trim_start(s.drop_first())
    } else {
        s
    }
}

/// `s` without its trailing whitespace.
pub open spec fn trim_end(s: Seq<char>) -> Seq<char>
    decreases s.len(),
{
    if s.len() > 0 && is_ws(s.last()) {
        trim_end(s.drop_last())
    } else {
        s
    }
}

/// `s` without leading and trailing whitespace (`str::trim`).
pub open spec fn trim(s: Seq<char>) -> Seq<char> {
    trim_end(trim_start(s))
}

proof fn lemma_trim_start_skip(s: Seq<char>, i: int)
    requires
        0 <= i <= s.len(),
        forall|j: int| 0 <= j < i ==> is_ws(s[j]),
    ensures
        trim_start(s) == trim_start(s.skip(i)),
    decreases i,
{
    if i > 0 {
        assert(s.skip(1) =~= s.drop_first());
        lemma_trim_start_skip(s.drop_first(), i - 1);
        assert(s.drop_first().skip(i - 1) =~= s.skip(i));
    } else {
        assert(s.skip(0) =~= s);
    }
}

proof fn lemma_trim_end_take(s: Seq<char>, i: int)
    requires
        0 <= i <= s.len(),
        forall|j: int| i <= j < s.len() ==> is_ws(s[j]),
    ensures
        trim_end(s) == trim_end(s.take(i)),
    decreases s.len() - i,
{
    if i < s.len() {
        lemma_trim_end_take(s.drop_last(), i);
        assert(s.drop_last().take(i) =~= s.take(i));
    } else {
        assert(s.take(i) =~= s);
    }
}

/// The bounds `[lo, hi)` of `trim(v)` inside `v`.
pub fn trim_bounds(v: &Vec<char>) -> (r: (usize, usize))
    ensures
        r.0 <= r.1 <= v@.len(),
        v@.subrange(r.0 as int, r.1 as int) == trim(v@),
{
    let n = v.len();
    let mut lo: usize = 0;
    while lo < n && char_is_ws(v[lo])
        invariant
            n == v@.len(),
            lo <= n,
            forall|j: int| 0 <= j < lo ==> is_ws(v@[j]),
        decreases n - lo,
    {
        lo = lo + 1;
    }
    proof {
        lemma_trim_start_skip(v@, lo as int);
    }
    let mut hi: usize = n;
    while hi > lo && char_is_ws(v[hi - 1])
        invariant
            n == v@.len(),
            lo <= hi <= n,
            forall|j: int| hi <= j < n ==> is_ws(v@[j]),
        decreases hi,
    {
        hi = hi - 1;
    }
    proof {
        let t = v@.skip(lo as int);
        if lo < n {
            assert(!is_ws(t[0]));
        }
        assert(trim_start(t) == t);
        lemma_trim_end_take(t, (hi - lo) as int);
        assert(t.take((hi - lo) as int) =~= v@.subrange(lo as int, hi as int));
        let u = v@.subrange(lo as int, hi as int);
        if hi > lo {
            assert(!is_ws(u.last()));
        }
        assert(trim_end(u) == u);
    }
    (lo, hi)
}

/// `str::trim`.
pub fn trimmed(s: &str) -> (r: String)
    ensures
        r@ == trim(s@),
{
    let v = chars_of(s);
    let (lo, hi) = trim_bounds(&v);
    string_of(s, lo, hi)
}

// ---------------------------------------------------------------------------
// Splitting
// ---------------------------------------------------------------------------

/// `s` split at every occurrence of `d` (`str::split`): always at least one piece.
pub open spec fn split_on(s: Seq<char>, d: char) -> Seq<Seq<char>>
    decreases s.len(),
{
    if s.len() == 0 {
        seq![Seq::<char>::empty()]
    } else {
        let p = split_on(s.drop_last(), d);
        if s.last() == d {
            p.push(Seq::<char>::empty())
        } else {
            p.update(p.len() - 1, p.last().push(s.last()))
        }
    }
}

pub proof fn lemma_split_on_nonempty(s: Seq<char>, d: char)
    ensures
        split_on(s, d).len() >= 1,
    decreases s.len(),
{
    if s.len() > 0 {
        lemma_split_on_nonempty(s.drop_last(), d);
    }
}

/// `line` without one trailing carriage return.
pub open spec fn strip_cr(line: Seq<char>) -> Seq<char> {
    if line.len() > 0 && line.last() == '\r' {
        line.drop_last()
    } else {
        line
    }
}

/// The lines of `s`, as `str::lines` yields them.
pub open spec fn lines_of(s: Seq<char>) -> Seq<Seq<char>> {
    let parts = split_on(s, '\n');
    let body = parts.take(parts.len() - 1).map_values(|p: Seq<char>| strip_cr(p));
    if parts.last().len() == 0 {
        body
    } else {
        body.push(parts.last())
    }
}

/// The pieces of `s` between occurrences of `d`.
pub fn split_chars(s: &str, d: char) -> (r: Vec<String>)
    ensures
        r@.map_values(|x: String| x@) == split_on(s@, d),
{
    let v = chars_of(s);
    let n = v.len();
    let mut out: Vec<String> = Vec::new();
    let mut start: usize = 0;
    let mut i: usize = 0;
    assert(out@.map_values(|x: String| x@).push(s@.subrange(0, 0)) =~~= split_on(s@.take(0), d));
    while i < n
        invariant
            n == v@.len(),
            v@ == s@,
            start <= i <= n,
            out@.map_values(|x: String| x@).push(s@.subrange(start as int, i as int)) == split_on(
                s@.take(i as int),
                d,
            ),
        decreases n - i,
    {
        let ghost prev = out@.map_values(|x: String| x@);
        assert(s@.take(i + 1).drop_last() =~= s@.take(i as int));
        if v[i] == d {
            out.push(string_of(s, start, i));
            assert(out@.map_values(|x: String| x@) =~= prev.push(
                s@.subrange(start as int, i as int),
            ));
            start = i + 1;
            i = i + 1;
            assert(out@.map_values(|x: String| x@).push(s@.subrange(start as int, i as int))
                =~~= split_on(s@.take(i as int), d));
        } else {
            i = i + 1;
            assert(s@.subrange(start as int, i as int) =~= s@.subrange(
                start as int,
                (i - 1) as int,
            ).push(s@[i - 1]));
            assert(out@.map_values(|x: String| x@).push(s@.subrange(start as int, i as int))
                =~~= split_on(s@.take(i as int), d));
        }
    }
    out.push(string_of(s, start, n));
    assert(s@.take(n as int) =~= s@);
    assert(out@.map_values(|x: String| x@) =~= split_on(s@, d));
    out
}

/// `str::lines`.
pub fn lines(s: &str) -> (r: Vec<String>)
    ensures
        r@.map_values(|x: String| x@) == lines_of(s@),
{
    let parts = split_chars(s, '\n');
    proof {
        lemma_split_on_nonempty(s@, '\n');
    }
    let ghost pv = parts@.map_values(|x: String| x@);
    let k = parts.len() - 1;
    let mut out: Vec<String> = Vec::new();
    let mut i: usize = 0;
    while i < k
        invariant
            k + 1 == parts@.len(),
            pv == parts@.map_values(|x: String| x@),
            i <= k,
            out@.map_values(|x: String| x@) == pv.take(i as int).map_values(
                |p: Seq<char>| strip_cr(p),
            ),
        decreases k - i,
    {
        let p = &parts[i];
        let m = p.unicode_len();
        let ghost before = out@.map_values(|x: String| x@);
        assert(p@ == pv[i as int]);
        if m > 0 && p.get_char(m - 1) == '\r' {
            let t = string_of(p.as_str(), 0, m - 1);
            assert(t@ =~= strip_cr(pv[i as int]));
            out.push(t);
        } else {
            let t = p.clone();
            assert(t@ =~= strip_cr(pv[i as int]));
            out.push(t);
        }
        assert(pv.take(i + 1) =~= pv.take(i as int).push(pv[i as int]));
        assert(out@.map_values(|x: String| x@) =~= before.push(strip_cr(pv[i as int])));
        let ghost now = out@.map_values(|x: String| x@);
        let ghost goal = pv.take((i + 1) as int).map_values(|p: Seq<char>| strip_cr(p));
        assert forall|j: int| 0 <= j < i + 1 implies #[trigger] now[j] == goal[j] by {
            if j < i {
                assert(before[j] == pv.take(i as int).map_values(|p: Seq<char>| strip_cr(p))[j]);
            }
        }
        assert(out@.map_values(|x: String| x@) =~= pv.take((i + 1) as int).map_values(
            |p: Seq<char>| strip_cr(p),
        ));
        i = i + 1;
    }
    let last = &parts[k];
    if last.unicode_len() > 0 {
        out.push(last.clone());
        assert(out@.map_values(|x: String| x@) =~= lines_of(s@));
    } else {
        assert(out@.map_values(|x: String| x@) =~= lines_of(s@));
    }
    out
}

/// Index of the first occurrence of `c` in `s`, if any.
pub open spec fn find_char(s: Seq<char>, c: char) -> Option<int> {
    if exists|i: int| 0 <= i < s.len() && s[i] == c {
        Some(choose|i: int| 0 <= i < s.len() && s[i] == c && forall|j: int| 0 <= j < i ==> s[j] != c)
    } else {
        None
    }
}

/// `str::split_once` on a single character.
pub open spec fn split_once(s: Seq<char>, c: char) -> Option<(Seq<char>, Seq<char>)> {
    match find_char(s, c) {
        Some(i) => Some((s.take(i), s.skip(i + 1))),
        None => None,
    }
}

/// `str::split_once` on the character `c`.
pub fn split_once_char(s: &str, c: char) -> (r: Option<(String, String)>)
    ensures
        match (r, split_once(s@, c)) {
            (Some((a, b)), Some((x, y))) => a@ == x && b@ == y,
            (None, None) => true,
            _ => false,
        },
{
    let v = chars_of(s);
    let n = v.len();
    let mut i: usize = 0;
    while i < n
        invariant
            n == v@.len(),
            v@ == s@,
            i <= n,
            forall|j: int| 0 <= j < i ==> s@[j] != c,
        decreases n - i,
    {
        if v[i] == c {
            let a = string_of(s, 0, i);
            let b = string_of(s, i + 1, n);
            proof {
                let w = choose|w: int|
                    0 <= w < s@.len() && s@[w] == c && forall|j: int| 0 <= j < w ==> s@[j] != c;
                assert(0 <= i < s@.len() && s@[i as int] == c && forall|j: int|
                    0 <= j < i ==> s@[j] != c);
                assert(w == i) by {
                    if w < i {
                    } else if w > i {
                    }
                }
                assert(a@ =~= s@.take(i as int));
                assert(b@ =~= s@.skip(i + 1));
            }
            return Some((a, b));
        }
        i = i + 1;
    }
    None
}

// ---------------------------------------------------------------------------
// Integer parsing (`str::parse` for the integer types)
// ---------------------------------------------------------------------------

/// Whether every character of `s` is an ASCII digit.
pub open spec fn all_digits(s: Seq<char>) -> bool {
    forall|i: int| 0 <= i < s.len() ==> '0' <= #[trigger] s[i] <= '9'
}

/// The value of a string of ASCII digits.
pub open spec fn digits_value(s: Seq<char>) -> nat
    decreases s.len(),
{
    if s.len() == 0 {
        0
    } else {
        digits_value(s.drop_last()) * 10 + ((s.last() as int) - 48) as nat
    }
}

/// The magnitude text of an integer: digits after an optional sign.
pub open spec fn unsigned_body(s: Seq<char>) -> Seq<char> {
    if s.len() > 0 && s[0] == '+' {
        s.drop_first()
    } else {
        s
    }
}

/// `str::parse` into an unsigned integer no larger than `max`.
pub open spec fn parse_unsigned(s: Seq<char>, max: nat) -> Option<nat> {
    let b = unsigned_body(s);
    if b.len() > 0 && all_digits(b) && digits_value(b) <= max {
        Some(digits_value(b))
    } else {
        None
    }
}

/// `str::parse` into a signed integer within `[min, max]`.
pub open spec fn parse_signed(s: Seq<char>, min: int, max: int) -> Option<int> {
    if s.len() > 0 && s[0] == '-' {
        let b = s.drop_first();
        if b.len() > 0 && all_digits(b) && -(digits_value(b) as int) >= min {
            Some(-(digits_value(b) as int))
        } else {
            None
        }
    } else {
        let b = unsigned_body(s);
        if b.len() > 0 && all_digits(b) && digits_value(b) <= max {
            Some(digits_value(b) as int)
        } else {
            None
        }
    }
}

proof fn lemma_digits_value_monotone(s: Seq<char>, i: int)
    requires
        0 <= i <= s.len(),
        all_digits(s),
    ensures
        digits_value(s.take(i)) <= digits_value(s),
    decreases s.len() - i,
{
    if i < s.len() {
        lemma_digits_value_monotone(s.drop_last(), i);
        assert(s.drop_last().take(i) =~= s.take(i));
        assert(digits_value(s) == digits_value(s.drop_last()) * 10 + ((s.last() as int)
            - 48) as nat);
    } else {
        assert(s.take(i) =~= s);
    }
}

proof fn lemma_digit_char(d: nat)
    ensures
        '0' <= digit_char(d) <= '9',
        (digit_char(d) as int) - 48 == d % 10,
{
}

/// Decimal notation is a non-empty string of digits whose value is the number.
pub proof fn lemma_dec_nat_digits(n: nat)
    ensures
        dec_nat(n).len() > 0,
        all_digits(dec_nat(n)),
        digits_value(dec_nat(n)) == n,
    decreases n,
{
    lemma_digit_char(n);
    if n < 10 {
        assert(dec_nat(n).drop_last() =~= Seq::<char>::empty());
        assert(digits_value(dec_nat(n)) == digits_value(Seq::<char>::empty()) * 10 + ((digit_char(n) as int)
            - 48) as nat);
    } else {
        lemma_dec_nat_digits(n / 10);
        let d = dec_nat(n / 10);
        let s = d.push(digit_char(n % 10));
        assert(s.drop_last() =~= d);
        assert(s.last() == digit_char(n % 10));
        lemma_digit_char(n % 10);
        assert(digits_value(s) == digits_value(d) * 10 + ((s.last() as int) - 48) as nat);
        assert(n == (n / 10) * 10 + n % 10);
        assert forall|i: int| 0 <= i < s.len() implies '0' <= #[trigger] s[i] <= '9' by {
            if i < d.len() {
                assert(s[i] == d[i]);
            }
        }
    }
}

/// Decimal notation reads back as the number it renders.
pub proof fn lemma_parse_dec_nat(n: nat, max: nat)
    requires
        n <= max,
    ensures
        parse_unsigned(dec_nat(n), max) == Some(n),
{
    lemma_dec_nat_digits(n);
    assert('0' <= dec_nat(n)[0] <= '9');
}

/// Text that neither starts nor ends with whitespace is its own trim.
pub proof fn lemma_trim_unchanged(s: Seq<char>)
    requires
        s.len() > 0 ==> !is_ws(s[0]) && !is_ws(s.last()),
    ensures
        trim(s) == s,
{
}

proof fn lemma_trim_start_first(s: Seq<char>)
    ensures
        trim_start(s).len() > 0 ==> !is_ws(trim_start(s)[0]),
    decreases s.len(),
{
    if s.len() > 0 && is_ws(s[0]) {
        lemma_trim_start_first(s.drop_first());
    }
}

proof fn lemma_trim_end_shape(s: Seq<char>)
    ensures
        trim_end(s).len() <= s.len(),
        trim_end(s) == s.take(trim_end(s).len() as int),
        trim_end(s).len() > 0 ==> !is_ws(trim_end(s).last()),
    decreases s.len(),
{
    if s.len() > 0 && is_ws(s.last()) {
        lemma_trim_end_shape(s.drop_last());
        assert(s.drop_last().take(trim_end(s).len() as int) =~= s.take(trim_end(s).len() as int));
    } else {
        assert(s.take(s.len() as int) =~= s);
    }
}

/// Trimming twice is trimming once.
pub proof fn lemma_trim_idempotent(s: Seq<char>)
    ensures
        trim(trim(s)) == trim(s),
{
    let a = trim_start(s);
    let t = trim(s);
    lemma_trim_start_first(s);
    lemma_trim_end_shape(a);
    if t.len() > 0 {
        assert(t[0] == a[0]);
    }
    lemma_trim_unchanged(t);
}

/// Value of the digits `v[from..]`, or `None` when one is not a digit or the
/// value exceeds `limit`.
fn digits_upto(v: &Vec<char>, from: usize, limit: u64) -> (r: Option<u64>)
    requires
        from <= v@.len(),
        limit >= 9,
    ensures
        match r {
            Some(x) => all_digits(v@.skip(from as int)) && digits_value(v@.skip(from as int))
                <= limit && x == digits_value(v@.skip(from as int)),
            None => !(all_digits(v@.skip(from as int)) && digits_value(v@.skip(from as int))
                <= limit),
        },
{
    let n = v.len();
    let ghost b = v@.skip(from as int);
    let mut acc: u64 = 0;
    let mut i: usize = from;
    while i < n
        invariant
            n == v@.len(),
            b == v@.skip(from as int),
            from <= i <= n,
            all_digits(b.take(i - from)),
            acc as nat == digits_value(b.take(i - from)),
            acc <= limit,
            limit >= 9,
        decreases n - i,
    {
        let c = v[i];
        assert(b.take(i - from + 1).drop_last() =~= b.take(i - from));
        if c < '0' || c > '9' {
            assert(!all_digits(b)) by {
                assert(b[i - from] == c);
            }
            return None;
        }
        let d = (c as u32 - 48) as u64;
        if acc > (limit - d) / 10 {
            proof {
                assert(all_digits(b.take(i - from + 1)));
                assert(digits_value(b.take(i - from + 1)) == acc * 10 + d) by (nonlinear_arith)
                    requires
                        digits_value(b.take(i - from + 1)) == digits_value(b.take(i - from))
                            * 10 + d,
                        acc as nat == digits_value(b.take(i - from)),
                ;
                assert(acc * 10 + d > limit) by (nonlinear_arith)
                    requires
                        acc > (limit - d) / 10,
                        d <= 9,
                ;
                if all_digits(b) {
                    lemma_digits_value_monotone(b, i - from + 1);
                }
            }
            return None;
        }
        proof {
            assert(acc * 10 + d <= limit) by (nonlinear_arith)
                requires
                    acc <= (limit - d) / 10,
                    d <= limit,
            ;
        }
        acc = acc * 10 + d;
        i = i + 1;
        assert(all_digits(b.take(i - from)));
    }
    assert(b.take(n - from) =~= b);
    Some(acc)
}

/// `str::parse::<u64>`.
pub fn parse_u64(s: &str) -> (r: Option<u64>)
    ensures
        match r {
            Some(x) => parse_unsigned(s@, u64::MAX as nat) == Some(x as nat),
            None => parse_unsigned(s@, u64::MAX as nat) is None,
        },
{
    let v = chars_of(s);
    let from: usize = if v.len() > 0 && v[0] == '+' {
        1
    } else {
        0
    };
    assert(v@.skip(from as int) =~= unsigned_body(s@));
    if from >= v.len() {
        return None;
    }
    digits_upto(&v, from, u64::MAX)
}

/// `str::parse::<u32>`.
pub fn parse_u32(s: &str) -> (r: Option<u32>)
    ensures
        match r {
            Some(x) => parse_unsigned(s@, u32::MAX as nat) == Some(x as nat),
            None => parse_unsigned(s@, u32::MAX as nat) is None,
        },
{
    let v = chars_of(s);
    let from: usize = if v.len() > 0 && v[0] == '+' {
        1
    } else {
        0
    };
    assert(v@.skip(from as int) =~= unsigned_body(s@));
    if from >= v.len() {
        return None;
    }
    match digits_upto(&v, from, u32::MAX as u64) {
        Some(x) => Some(x as u32),
        None => None,
    }
}

/// `str::parse` into a signed integer type within `[-lo, hi]` (`lo`, `hi` as magnitudes).
fn parse_signed_within(s: &str, lo: u64, hi: u64) -> (r: Option<(bool, u64)>)
    requires
        lo >= 9,
        hi >= 9,
    ensures
        match r {
            Some((neg, m)) => parse_signed(s@, -(lo as int), hi as int) == Some(
                if neg {
                    -(m as int)
                } else {
                    m as int
                },
            ) && (neg ==> m <= lo) && (!neg ==> m <= hi),
            None => parse_signed(s@, -(lo as int), hi as int) is None,
        },
{
    let v = chars_of(s);
    if v.len() > 0 && v[0] == '-' {
        assert(v@.skip(1) =~= s@.drop_first());
        if v.len() == 1 {
            return None;
        }
        match digits_upto(&v, 1, lo) {
            Some(m) => Some((true, m)),
            None => None,
        }
    } else {
        let from: usize = if v.len() > 0 && v[0] == '+' {
            1
        } else {
            0
        };
        assert(v@.skip(from as int) =~= unsigned_body(s@));
        if from >= v.len() {
            return None;
        }
        match digits_upto(&v, from, hi) {
            Some(m) => Some((false, m)),
            None => None,
        }
    }
}

/// `str::parse::<i64>`.
pub fn parse_i64(s: &str) -> (r: Option<i64>)
    ensures
        match r {
            Some(x) => parse_signed(s@, i64::MIN as int, i64::MAX as int) == Some(x as int),
            None => parse_signed(s@, i64::MIN as int, i64::MAX as int) is None,
        },
{
    match parse_signed_within(s, 9223372036854775808u64, 9223372036854775807u64) {
        Some((neg, m)) => {
            if neg {
                if m == 9223372036854775808u64 {
                    Some(i64::MIN)
                } else {
                    Some(-(m as i64))
                }
            } else {
                Some(m as i64)
            }
        },
        None => None,
    }
}

/// `str::parse::<i32>`.
pub fn parse_i32(s: &str) -> (r: Option<i32>)
    ensures
        match r {
            Some(x) => parse_signed(s@, i32::MIN as int, i32::MAX as int) == Some(x as int),
            None => parse_signed(s@, i32::MIN as int, i32::MAX as int) is None,
        },
{
    match parse_signed_within(s, 2147483648u64, 2147483647u64) {
        Some((neg, m)) => {
            if neg {
                Some((-(m as i64)) as i32)
            } else {
                Some(m as i32)
            }
        },
        None => None,
    }
}


// ---------------------------------------------------------------------------
// Joining
// ---------------------------------------------------------------------------

/// The characters of each string.
pub open spec fn str_views(v: Seq<String>) -> Seq<Seq<char>> {
    v.map_values(|s: String| s@)
}

/// `parts` joined with `sep` between consecutive parts.
pub open spec fn join(parts: Seq<Seq<char>>, sep: Seq<char>) -> Seq<char>
    decreases parts.len(),
{
    if parts.len() == 0 {
        Seq::empty()
    } else if parts.len() == 1 {
        parts[0]
    } else {
        join(parts.drop_last(), sep) + sep + parts.last()
    }
}

/// `parts.join(sep)`.
pub fn join_strings(parts: &Vec<String>, sep: &str) -> (r: String)
    ensures
        r@ == join(str_views(parts@), sep@),
{
    let mut r = String::new();
    let mut k: usize = 0;
    while k < parts.len()
        invariant
            k <= parts@.len(),
            r@ == join(str_views(parts@.take(k as int)), sep@),
        decreases parts@.len() - k,
    {
        let ghost before = r@;
        if k > 0 {
            r.append(sep);
        }
        r.append(parts[k].as_str());
        proof {
            let t = str_views(parts@.take(k + 1));
            assert(t.drop_last() =~= str_views(parts@.take(k as int)));
            assert(t.last() == parts@[k as int]@);
            if k == 0 {
                assert(r@ =~= t[0]);
            } else {
                assert(r@ =~= before + sep@ + t.last());
            }
        }
        k = k + 1;
    }
    assert(parts@.take(parts@.len() as int) =~= parts@);
    r
}


// ---------------------------------------------------------------------------
// Words and suffixes
// ---------------------------------------------------------------------------

/// The words of `s` (`str::split_whitespace`): its maximal runs of non-whitespace.
pub open spec fn words_of(s: Seq<char>) -> Seq<Seq<char>>
    decreases s.len(),
{
    if s.len() == 0 {
        Seq::empty()
    } else {
        let w = words_of(s.drop_last());
        if is_ws(s.last()) {
            w
        } else if s.len() >= 2 && !is_ws(s[s.len() - 2]) {
            w.update(w.len() - 1, w.last().push(s.last()))
        } else {
            w.push(seq![s.last()])
        }
    }
}

/// `str::split_whitespace`, collected.
pub fn words(s: &str) -> (r: Vec<String>)
    ensures
        str_views(r@) == words_of(s@),
{
    let v = chars_of(s);
    let n = v.len();
    let mut out: Vec<String> = Vec::new();
    let mut start: usize = 0;
    let mut in_word = false;
    let mut i: usize = 0;
    assert(s@.take(0) =~= Seq::<char>::empty());
    assert(str_views(out@) =~= Seq::<Seq<char>>::empty());
    while i < n
        invariant
            n == s@.len(),
            v@ == s@,
            i <= n,
            in_word ==> start < i,
            in_word == (i > 0 && !is_ws(s@[i - 1])),
            words_of(s@.take(i as int)) == if in_word {
                str_views(out@).push(s@.subrange(start as int, i as int))
            } else {
                str_views(out@)
            },
        decreases n - i,
    {
        let c = v[i];
        let ghost before = str_views(out@);
        assert(s@.take(i + 1).drop_last() =~= s@.take(i as int));
        assert(s@.take(i + 1).last() == c);
        if char_is_ws(c) {
            if in_word {
                let w = string_of(s, start, i);
                out.push(w);
                assert(str_views(out@) =~= before.push(s@.subrange(start as int, i as int)));
                in_word = false;
            }
        } else {
            if in_word {
                assert(s@.take(i + 1)[i - 1] == s@[i - 1]);
                assert(s@.subrange(start as int, i as int).push(c) =~= s@.subrange(start as int, i + 1));
            } else {
                if i > 0 {
                    assert(s@.take(i + 1)[i - 1] == s@[i - 1]);
                }
                start = i;
                in_word = true;
                assert(seq![c] =~= s@.subrange(start as int, i + 1));
            }
        }
        i = i + 1;
    }
    assert(s@.take(n as int) =~= s@);
    if in_word {
        let w = string_of(s, start, n);
        let ghost before = str_views(out@);
        out.push(w);
        assert(str_views(out@) =~= before.push(s@.subrange(start as int, n as int)));
    }
    out
}

/// `s` with every trailing repeat of `p` removed (`str::trim_end_matches`).
pub open spec fn strip_suffixes(s: Seq<char>, p: Seq<char>) -> Seq<char>
    decreases s.len(),
{
    if p.len() > 0 && ends_with(s, p) {
        strip_suffixes(s.take(s.len() - p.len()), p)
    } else {
        s
    }
}

/// `str::trim_end_matches` with a text pattern.
pub fn trim_suffixes(s: &str, p: &str) -> (r: String)
    ensures
        r@ == strip_suffixes(s@, p@),
{
    let mut cur = s.to_owned();
    let m = p.unicode_len();
    while m > 0 && has_suffix(cur.as_str(), p)
        invariant
            m == p@.len(),
            strip_suffixes(cur@, p@) == strip_suffixes(s@, p@),
        decreases cur@.len(),
    {
        let k = cur.as_str().unicode_len();
        let next = string_of(cur.as_str(), 0, k - m);
        assert(next@ =~= cur@.take(cur@.len() - p@.len()));
        cur = next;
    }
    cur
}


// ---------------------------------------------------------------------------
// Paths
// ---------------------------------------------------------------------------

/// `base` joined with `rel` as `Path::join` does on Unix: an absolute `rel` replaces
/// `base`; otherwise a `/` separates them unless `base` is empty or already ends in one.
pub open spec fn path_join(base: Seq<char>, rel: Seq<char>) -> Seq<char> {
    if rel.len() > 0 && rel[0] == '/' {
        rel
    } else if base.len() == 0 || base.last() == '/' {
        base + rel
    } else {
        base + "/"@ + rel
    }
}

/// `Path::join` on Unix paths held as text.
pub fn join_path(base: &str, rel: &str) -> (r: String)
    ensures
        r@ == path_join(base@, rel@),
{
    let n = base.unicode_len();
    if rel.unicode_len() > 0 && rel.get_char(0) == '/' {
        return rel.to_owned();
    }
    let mut r = base.to_owned();
    if !(n == 0 || base.get_char(n - 1) == '/') {
        r.append("/");
    }
    r.append(rel);
    r
}


// ---------------------------------------------------------------------------
// Searching
// ---------------------------------------------------------------------------

/// The first position at or after `i` where `p` occurs in `s`.
pub open spec fn first_match_from(s: Seq<char>, p: Seq<char>, i: int) -> Option<int>
    decreases s.len() + 1 - i,
{
    if i < 0 || i > s.len() {
        None
    } else if starts_with(s.skip(i), p) {
        Some(i)
    } else {
        first_match_from(s, p, i + 1)
    }
}

/// The first position where `p` occurs in `s` (`str::find`).
pub open spec fn first_match(s: Seq<char>, p: Seq<char>) -> Option<int> {
    first_match_from(s, p, 0)
}

/// `str::find` with a text pattern, as a character position.
pub fn find_text(s: &str, p: &str) -> (r: Option<usize>)
    ensures
        match first_match(s@, p@) {
            Some(i) => r == Some(i as usize),
            None => r is None,
        },
        r matches Some(i) ==> i + p@.len() <= s@.len() && first_match(s@, p@) == Some(i as int),
{
    let v = chars_of(s);
    let w = chars_of(p);
    let n = v.len();
    let mut i: usize = 0;
    while i < n
        invariant
            n == v@.len(),
            v@ == s@,
            w@ == p@,
            i <= n,
            first_match(s@, p@) == first_match_from(s@, p@, i as int),
        decreases n - i,
    {
        if matches_at(&v, i, &w) {
            return Some(i);
        }
        i = i + 1;
    }
    if matches_at(&v, n, &w) {
        return Some(n);
    }
    assert(first_match_from(s@, p@, n + 1) is None);
    None
}


/// `s` with every leading repeat of `p` removed (`str::trim_start_matches`).
pub open spec fn strip_prefixes(s: Seq<char>, p: Seq<char>) -> Seq<char>
    decreases s.len(),
{
    if p.len() > 0 && starts_with(s, p) {
        strip_prefixes(s.skip(p.len() as int), p)
    } else {
        s
    }
}

/// `str::trim_start_matches` with a text pattern.
pub fn trim_prefixes(s: &str, p: &str) -> (r: String)
    ensures
        r@ == strip_prefixes(s@, p@),
{
    let mut cur = s.to_owned();
    let m = p.unicode_len();
    while m > 0 && has_prefix(cur.as_str(), p)
        invariant
            m == p@.len(),
            strip_prefixes(cur@, p@) == strip_prefixes(s@, p@),
        decreases cur@.len(),
    {
        let k = cur.as_str().unicode_len();
        let next = string_of(cur.as_str(), m, k);
        assert(next@ =~= cur@.skip(p@.len() as int));
        cur = next;
    }
    cur
}

} // verus!
