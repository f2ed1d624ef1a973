//! Character-level text utilities shared by the query parser: trimming,
//! character search, segment extraction, decimal parsing and rendering,
//! and substring containment. All of them are specified over `Seq<char>`.

use vstd::prelude::*;

verus! {

/// ASCII whitespace, as trimmed from the edges of query text.
pub open spec fn is_space_char(c: char) -> bool {
    c == ' ' || c == '\t' || c == '\n' || c == '\r' || c == '\x0c'
}

/// Executable counterpart of [`is_space_char`].
pub fn is_space(c: char) -> (r: bool)
    ensures
        r == is_space_char(c),
{
    c == ' ' || c == '\t' || c == '\n' || c == '\r' || c == '\x0c'
}

/// `s` with its leading whitespace removed.
pub open spec fn ltrim_spec(s: Seq<char>) -> Seq<char>
    decreases s.len(),
{
    if s.len() > 0 && is_space_char(s[0]) {
        ltrim_spec(s.subrange(1, s.len() as int))
    } else {
        s
    }
}

/// `s` with its trailing whitespace removed.
pub open spec fn rtrim_spec(s: Seq<char>) -> Seq<char>
    decreases s.len(),
{
    if s.len() > 0 && is_space_char(s[s.len() - 1]) {
        rtrim_spec(s.subrange(0, s.len() - 1))
    } else {
        s
    }
}

/// `s` with whitespace removed from both edges.
pub open spec fn trim_spec(s: Seq<char>) -> Seq<char> {
    rtrim_spec(ltrim_spec(s))
}

pub proof fn lemma_ltrim_at(s: Seq<char>, i: int)
    requires
        0 <= i <= s.len(),
        forall|k: int| 0 <= k < i ==> is_space_char(s[k]),
        i < s.len() ==> !is_space_char(s[i]),
    ensures
        ltrim_spec(s) == s.subrange(i, s.len() as int),
    decreases i,
{
    if i == 0 {
        assert(s.subrange(0, s.len() as int) =~= s);
    } else {
        let t = s.subrange(1, s.len() as int);
        lemma_ltrim_at(t, i - 1);
        assert(t.subrange(i - 1, t.len() as int) =~= s.subrange(i, s.len() as int));
    }
}

pub proof fn lemma_rtrim_at(s: Seq<char>, j: int)
    requires
        0 <= j <= s.len(),
        forall|k: int| j <= k < s.len() ==> is_space_char(s[k]),
        j > 0 ==> !is_space_char(s[j - 1]),
    ensures
        rtrim_spec(s) == s.subrange(0, j),
    decreases s.len() - j,
{
    if j == s.len() {
        if s.len() > 0 && is_space_char(s[s.len() - 1]) {
            // contradiction with j > 0 ==> !is_space_char(s[j-1])
            assert(false);
        }
        assert(s.subrange(0, s.len() as int) =~= s);
    } else {
        let t = s.subrange(0, s.len() - 1);
        lemma_rtrim_at(t, j);
        assert(t.subrange(0, j) =~= s.subrange(0, j));
    }
}

/// Remove leading and trailing whitespace from a string slice.
pub fn trim_str<'a>(s: &'a str) -> (r: &'a str)
    ensures
        r@ == trim_spec(s@),
{
    let n = s.unicode_len();
    let mut i: usize = 0;
    while i < n && is_space(s.get_char(i))
        invariant
            0 <= i <= n,
            n == s@.len(),
            forall|k: int| 0 <= k < i ==> is_space_char(s@[k]),
        decreases n - i,
    {
        i = i + 1;
    }
    let mut j: usize = n;
    while j > i && is_space(s.get_char(j - 1))
        invariant
            i <= j <= n,
            n == s@.len(),
            forall|k: int| j <= k < n ==> is_space_char(s@[k]),
        decreases j,
    {
        j = j - 1;
    }
    proof {
        lemma_ltrim_at(s@, i as int);
        let t = s@.subrange(i as int, n as int);
        lemma_rtrim_at(t, j - i);
        assert(t.subrange(0, j - i) =~= s@.subrange(i as int, j as int));
    }
    s.substring_char(i, j)
}

/// Index of the first occurrence of `c` in `s`, or `-1` if absent.
pub open spec fn find_spec(s: Seq<char>, c: char) -> int
    decreases s.len(),
{
    if s.len() == 0 {
        -1
    } else if s[0] == c {
        0
    } else {
        let r = find_spec(s.subrange(1, s.len() as int), c);
        if r < 0 {
            -1
        } else {
            r + 1
        }
    }
}

pub proof fn lemma_find_at(s: Seq<char>, c: char, i: int)
    requires
        0 <= i <= s.len(),
        forall|k: int| 0 <= k < i ==> s[k] != c,
        i < s.len() ==> s[i] == c,
    ensures
        i < s.len() ==> find_spec(s, c) == i,
        i == s.len() ==> find_spec(s, c) == -1,
    decreases i,
{
    if i == 0 {
        if s.len() == 0 {
        } else {
            assert(s[0] == c);
        }
    } else {
        let t = s.subrange(1, s.len() as int);
        lemma_find_at(t, c, i - 1);
        assert(s[0] != c);
    }
}

/// Characterize `find_spec`: a found index is the first occurrence, and a
/// negative result means the character is absent.
pub proof fn lemma_find_props(s: Seq<char>, c: char)
    ensures
        find_spec(s, c) >= 0 ==> 0 <= find_spec(s, c) < s.len() && s[find_spec(s, c)] == c
            && forall|k: int| 0 <= k < find_spec(s, c) ==> s[k] != c,
        find_spec(s, c) < 0 ==> forall|k: int| 0 <= k < s.len() ==> s[k] != c,
    decreases s.len(),
{
    if s.len() == 0 {
    } else if s[0] == c {
    } else {
        let t = s.subrange(1, s.len() as int);
        lemma_find_props(t, c);
        if find_spec(t, c) >= 0 {
            assert(forall|k: int| 1 <= k < find_spec(s, c) ==> s[k] == t[k - 1]);
        } else {
            assert(forall|k: int| 1 <= k < s.len() ==> s[k] == t[k - 1]);
        }
    }
}

/// First index of `c` in `s`, if any.
pub fn find_char(s: &str, c: char) -> (r: Option<usize>)
    ensures
        match r {
            Some(i) => i == find_spec(s@, c) && i < s@.len() && s@[i as int] == c,
            None => find_spec(s@, c) == -1,
        },
{
    let n = s.unicode_len();
    let mut i: usize = 0;
    while i < n
        invariant
            0 <= i <= n,
            n == s@.len(),
            forall|k: int| 0 <= k < i ==> s@[k] != c,
        decreases n - i,
    {
        if s.get_char(i) == c {
            proof {
                lemma_find_at(s@, c, i as int);
            }
            return Some(i);
        }
        i = i + 1;
    }
    proof {
        lemma_find_at(s@, c, n as int);
    }
    None
}

/// Whether `c` occurs in `s`.
pub fn contains_char(s: &str, c: char) -> (r: bool)
    ensures
        r == s@.contains(c),
{
    let f = find_char(s, c);
    proof {
        lemma_find_props(s@, c);
        if find_spec(s@, c) >= 0 {
            assert(s@.contains(c));
        } else {
            assert(forall|k: int| 0 <= k < s@.len() ==> s@[k] != c);
            assert(!s@.contains(c));
        }
    }
    f.is_some()
}

/// `s` with every leading occurrence of `c` removed.
pub open spec fn strip_leading_spec(s: Seq<char>, c: char) -> Seq<char>
    decreases s.len(),
{
    if s.len() > 0 && s[0] == c {
        strip_leading_spec(s.subrange(1, s.len() as int), c)
    } else {
        s
    }
}

/// `s` with every trailing occurrence of `c` removed.
pub open spec fn strip_trailing_spec(s: Seq<char>, c: char) -> Seq<char>
    decreases s.len(),
{
    if s.len() > 0 && s[s.len() - 1] == c {
        strip_trailing_spec(s.subrange(0, s.len() - 1), c)
    } else {
        s
    }
}

pub proof fn lemma_strip_leading_at(s: Seq<char>, c: char, i: int)
    requires
        0 <= i <= s.len(),
        forall|k: int| 0 <= k < i ==> s[k] == c,
        i < s.len() ==> s[i] != c,
    ensures
        strip_leading_spec(s, c) == s.subrange(i, s.len() as int),
    decreases i,
{
    if i == 0 {
        assert(s.subrange(0, s.len() as int) =~= s);
    } else {
        let t = s.subrange(1, s.len() as int);
        lemma_strip_leading_at(t, c, i - 1);
        assert(t.subrange(i - 1, t.len() as int) =~= s.subrange(i, s.len() as int));
    }
}

pub proof fn lemma_strip_trailing_at(s: Seq<char>, c: char, j: int)
    requires
        0 <= j <= s.len(),
        forall|k: int| j <= k < s.len() ==> s[k] == c,
        j > 0 ==> s[j - 1] != c,
    ensures
        strip_trailing_spec(s, c) == s.subrange(0, j),
    decreases s.len() - j,
{
    if j == s.len() {
        if s.len() > 0 && s[s.len() - 1] == c {
            assert(false);
        }
        assert(s.subrange(0, s.len() as int) =~= s);
    } else {
        let t = s.subrange(0, s.len() - 1);
        lemma_strip_trailing_at(t, c, j);
        assert(t.subrange(0, j) =~= s.subrange(0, j));
    }
}

/// Remove every leading occurrence of `c`.
pub fn strip_leading<'a>(s: &'a str, c: char) -> (r: &'a str)
    ensures
        r@ == strip_leading_spec(s@, c),
{
    let n = s.unicode_len();
    let mut i: usize = 0;
    while i < n && s.get_char(i) == c
        invariant
            0 <= i <= n,
            n == s@.len(),
            forall|k: int| 0 <= k < i ==> s@[k] == c,
        decreases n - i,
    {
        i = i + 1;
    }
    proof {
        lemma_strip_leading_at(s@, c, i as int);
    }
    s.substring_char(i, n)
}

/// Remove every trailing occurrence of `c`.
pub fn strip_trailing<'a>(s: &'a str, c: char) -> (r: &'a str)
    ensures
        r@ == strip_trailing_spec(s@, c),
{
    let n = s.unicode_len();
    let mut j: usize = n;
    while j > 0 && s.get_char(j - 1) == c
        invariant
            0 <= j <= n,
            n == s@.len(),
            forall|k: int| j <= k < n ==> s@[k] == c,
        decreases j,
    {
        j = j - 1;
    }
    proof {
        lemma_strip_trailing_at(s@, c, j as int);
    }
    s.substring_char(0, j)
}

/// The text before the first occurrence of `c`, or all of `s` when `c` is
/// absent.
pub open spec fn seg_before(s: Seq<char>, c: char) -> Seq<char> {
    if find_spec(s, c) >= 0 {
        s.subrange(0, find_spec(s, c))
    } else {
        s
    }
}

/// The text after the first occurrence of `c`, or empty when `c` is absent.
pub open spec fn seg_after_first(s: Seq<char>, c: char) -> Seq<char> {
    if find_spec(s, c) >= 0 {
        s.subrange(find_spec(s, c) + 1, s.len() as int)
    } else {
        Seq::empty()
    }
}

/// The text between the first and second occurrences of `c` (running to the
/// end when there is no second occurrence, empty when there is no first).
pub open spec fn seg_between(s: Seq<char>, c: char) -> Seq<char> {
    seg_before(seg_after_first(s, c), c)
}

/// The part of `s` before the first `c`.
pub fn segment_before<'a>(s: &'a str, c: char) -> (r: &'a str)
    ensures
        r@ == seg_before(s@, c),
{
    let n = s.unicode_len();
    match find_char(s, c) {
        Some(i) => s.substring_char(0, i),
        None => s,
    }
}

/// The part of `s` between the first and second `c`.
pub fn segment_between<'a>(s: &'a str, c: char) -> (r: &'a str)
    ensures
        r@ == seg_between(s@, c),
{
    let n = s.unicode_len();
    match find_char(s, c) {
        Some(i) => {
            let rest = s.substring_char(i + 1, n);
            segment_before(rest, c)
        },
        None => {
            let r = s.substring_char(0, 0);
            proof {
                assert(r@ =~= Seq::<char>::empty());
            }
            r
        },
    }
}

/// Decimal digit.
pub open spec fn is_digit_char(c: char) -> bool {
    48 <= c as u32 <= 57
}

/// Numeric value of a decimal digit.
pub open spec fn digit_val(c: char) -> int {
    c as u32 - 48
}

/// Whether every character of `s` is a decimal digit.
pub open spec fn all_digits(s: Seq<char>) -> bool {
    forall|k: int| 0 <= k < s.len() ==> is_digit_char(s[k])
}

/// Value of a sequence of decimal digits, most significant first.
pub open spec fn digits_val(s: Seq<char>) -> int
    decreases s.len(),
{
    if s.len() == 0 {
        0
    } else {
        digits_val(s.drop_last()) * 10 + digit_val(s.last())
    }
}

/// `s` with a single leading `'+'` removed, as `str::parse` accepts for
/// unsigned integers.
pub open spec fn strip_plus(s: Seq<char>) -> Seq<char> {
    if s.len() > 0 && s[0] == '+' {
        s.subrange(1, s.len() as int)
    } else {
        s
    }
}

/// The `u64` a piece of text denotes in decimal, if any: an optional `'+'`,
/// then one or more digits, whose value fits in 64 bits.
pub open spec fn u64_from_chars(s: Seq<char>) -> Option<u64> {
    let t = strip_plus(s);
    if t.len() == 0 || !all_digits(t) {
        None
    } else if digits_val(t) > u64::MAX {
        None
    } else {
        Some(digits_val(t) as u64)
    }
}

proof fn lemma_digits_val_nonneg(s: Seq<char>)
    requires
        all_digits(s),
    ensures
        digits_val(s) >= 0,
    decreases s.len(),
{
    if s.len() > 0 {
        assert(all_digits(s.drop_last()));
        lemma_digits_val_nonneg(s.drop_last());
    }
}

proof fn lemma_digits_val_prefix_grows(s: Seq<char>, k: int)
    requires
        all_digits(s),
        0 <= k <= s.len(),
    ensures
        digits_val(s) >= digits_val(s.subrange(0, k)),
    decreases s.len() - k,
{
    if k == s.len() {
        assert(s.subrange(0, k) =~= s);
    } else {
        lemma_digits_val_prefix_grows(s, k + 1);
        let p1 = s.subrange(0, k + 1);
        let p0 = s.subrange(0, k);
        assert(p1.drop_last() =~= p0);
        assert(all_digits(p0));
        lemma_digits_val_nonneg(p0);
        assert(digits_val(p1) == digits_val(p0) * 10 + digit_val(p1.last()));
        assert(digits_val(p0) * 10 >= digits_val(p0)) by (nonlinear_arith)
            requires digits_val(p0) >= 0;
    }
}

/// Parse a `u64` from decimal text: an optional leading `'+'` followed by
/// one or more digits; fails on other characters or on overflow.
pub fn parse_u64(s: &str) -> (r: Option<u64>)
    ensures
        r == u64_from_chars(s@),
{
    let n = s.unicode_len();
    let start: usize = if n > 0 && s.get_char(0) == '+' {
        1
    } else {
        0
    };
    let ghost t = strip_plus(s@);
    proof {
        assert(t =~= s@.subrange(start as int, n as int));
    }
    if start == n {
        return None;
    }
    let mut acc: u64 = 0;
    let mut i: usize = start;
    while i < n
        invariant
            start <= i <= n,
            n == s@.len(),
            t == strip_plus(s@),
            t == s@.subrange(start as int, n as int),
            start < n,
            all_digits(t.subrange(0, i - start)),
            acc == digits_val(t.subrange(0, i - start)),
        decreases n - i,
    {
        let c = s.get_char(i);
        let cv = c as u32;
        if cv < 48 || cv > 57 {
            proof {
                assert(t[i - start] == s@[i as int]);
                assert(!all_digits(t)) by {
                    assert(0 <= i - start < t.len() && !is_digit_char(t[i - start]));
                }
            }
            return None;
        }
        let d = (cv - 48) as u64;
        let ghost pre = t.subrange(0, i - start);
        let ghost pre1 = t.subrange(0, i + 1 - start);
        proof {
            assert(pre1.drop_last() =~= pre);
            assert(pre1.last() == s@[i as int]);
            assert(all_digits(pre1));
        }
        if acc > (u64::MAX - d) / 10 {
            proof {
                lemma_digits_val_nonneg(pre);
                assert(digits_val(pre1) > u64::MAX) by (nonlinear_arith)
                    requires
                        digits_val(pre1) == digits_val(pre) * 10 + d,
                        digits_val(pre) > ((u64::MAX - d) as u64 / 10) as int,
                        0 <= d <= 9,
                        digits_val(pre) >= 0,
                        u64::MAX == 0xffff_ffff_ffff_ffffu64;
                if all_digits(t) {
                    lemma_digits_val_prefix_grows(t, i + 1 - start);
                }
            }
            return None;
        }
        proof {
            lemma_digits_val_nonneg(pre);
            assert(digits_val(pre) * 10 + d <= u64::MAX) by (nonlinear_arith)
                requires
                    digits_val(pre) <= ((u64::MAX - d) as u64 / 10) as int,
                    0 <= d <= 9,
                    digits_val(pre) >= 0,
                    u64::MAX == 0xffff_ffff_ffff_ffffu64;
        }
        acc = acc * 10 + d;
        i = i + 1;
    }
    proof {
        assert(t.subrange(0, n - start) =~= t);
    }
    Some(acc)
}

/// The character for a decimal digit value.
pub open spec fn digit_char(d: int) -> char {
    if d == 0 { '0' }
    else if d == 1 { '1' }
    else if d == 2 { '2' }
    else if d == 3 { '3' }
    else if d == 4 { '4' }
    else if d == 5 { '5' }
    else if d == 6 { '6' }
    else if d == 7 { '7' }
    else if d == 8 { '8' }
    else { '9' }
}

/// Decimal representation of `n`, most significant digit first, no sign and
/// no leading zero (except for `n == 0` itself).
pub open spec fn dec_rep(n: int) -> Seq<char>
    decreases n,
{
    if n < 10 {
        seq![digit_char(n)]
    } else {
        dec_rep(n / 10).push(digit_char(n % 10))
    }
}

fn push_digit(s: &mut String, d: u64)
    requires
        d < 10,
    ensures
        final(s)@ == old(s)@ + seq![digit_char(d as int)],
{
    if d == 0 {
        s.append("0");
        proof { reveal_strlit("0"); }
    } else if d == 1 {
        s.append("1");
        proof { reveal_strlit("1"); }
    } else if d == 2 {
        s.append("2");
        proof { reveal_strlit("2"); }
    } else if d == 3 {
        s.append("3");
        proof { reveal_strlit("3"); }
    } else if d == 4 {
        s.append("4");
        proof { reveal_strlit("4"); }
    } else if d == 5 {
        s.append("5");
        proof { reveal_strlit("5"); }
    } else if d == 6 {
        s.append("6");
        proof { reveal_strlit("6"); }
    } else if d == 7 {
        s.append("7");
        proof { reveal_strlit("7"); }
    } else if d == 8 {
        s.append("8");
        proof { reveal_strlit("8"); }
    } else {
        s.append("9");
        proof { reveal_strlit("9"); }
    }
    proof {
        assert(s@ =~= old(s)@ + seq![digit_char(d as int)]);
    }
}

/// Append the decimal representation of `n` to `s`.
pub fn push_dec(s: &mut String, n: u64)
    ensures
        final(s)@ == old(s)@ + dec_rep(n as int),
    decreases n,
{
    if n < 10 {
        push_digit(s, n);
    } else {
        push_dec(s, n / 10);
        push_digit(s, n % 10);
        proof {
            assert(s@ =~= old(s)@ + dec_rep(n as int));
        }
    }
}

/// `q` occurs in `t` starting at position `i`.
pub open spec fn contains_at(t: Seq<char>, i: int, q: Seq<char>) -> bool {
    0 <= i && i + q.len() <= t.len() && t.subrange(i, i + q.len()) == q
}

/// `q` occurs somewhere in `t` as a contiguous run of characters.
pub open spec fn contains_seq(t: Seq<char>, q: Seq<char>) -> bool {
    exists|i: int| contains_at(t, i, q)
}

/// `t` begins with `p`.
pub open spec fn starts_with_spec(t: Seq<char>, p: Seq<char>) -> bool {
    contains_at(t, 0, p)
}

/// Whether `q` occurs in `t` starting at `i`.
pub fn match_at(t: &str, i: usize, q: &str) -> (r: bool)
    requires
        i + q@.len() <= t@.len(),
    ensures
        r == contains_at(t@, i as int, q@),
{
    let tl = t.unicode_len();
    let ql = q.unicode_len();
    let mut k: usize = 0;
    while k < ql
        invariant
            0 <= k <= ql,
            ql == q@.len(),
            tl == t@.len(),
            i + ql <= tl,
            forall|m: int| 0 <= m < k ==> t@[i + m] == q@[m],
        decreases ql - k,
    {
        if t.get_char(i + k) != q.get_char(k) {
            proof {
                assert(t@.subrange(i as int, i + q@.len()) != q@) by {
                    assert(t@.subrange(i as int, i + q@.len())[k as int] != q@[k as int]);
                }
            }
            return false;
        }
        k = k + 1;
    }
    proof {
        assert(t@.subrange(i as int, i + q@.len()) =~= q@);
    }
    true
}

/// Substring search: whether `q` occurs in `t`.
pub fn contains_sub(t: &str, q: &str) -> (r: bool)
    ensures
        r == contains_seq(t@, q@),
{
    let tl = t.unicode_len();
    let ql = q.unicode_len();
    if ql > tl {
        proof {
            assert(forall|i: int| !contains_at(t@, i, q@));
        }
        return false;
    }
    if ql == 0 {
        proof {
            assert(t@.subrange(0, 0) =~= q@);
            assert(contains_at(t@, 0, q@));
        }
        return true;
    }
    let mut i: usize = 0;
    while i <= tl - ql
        invariant
            0 <= i <= tl - ql + 1,
            1 <= ql <= tl,
            tl == t@.len(),
            ql == q@.len(),
            forall|m: int| 0 <= m < i ==> !contains_at(t@, m, q@),
        decreases tl - i,
    {
        if match_at(t, i, q) {
            return true;
        }
        i = i + 1;
    }
    proof {
        assert forall|m: int| !contains_at(t@, m, q@) by {
            if 0 <= m < i {
                assert(!contains_at(t@, m, q@));
            }
        }
    }
    false
}

/// `t` begins with `p`.
pub fn starts_with_str(t: &str, p: &str) -> (r: bool)
    ensures
        r == starts_with_spec(t@, p@),
{
    let tl = t.unicode_len();
    let pl = p.unicode_len();
    if pl > tl {
        return false;
    }
    match_at(t, 0, p)
}

/// Whether the views of two string slices are equal.
pub fn str_eq(a: &str, b: &str) -> (r: bool)
    ensures
        r == (a@ == b@),
{
    let al = a.unicode_len();
    let bl = b.unicode_len();
    if al != bl {
        return false;
    }
    let mut i: usize = 0;
    while i < al
        invariant
            0 <= i <= al,
            al == a@.len(),
            al == b@.len(),
            forall|k: int| 0 <= k < i ==> a@[k] == b@[k],
        decreases al - i,
    {
        if a.get_char(i) != b.get_char(i) {
            return false;
        }
        i = i + 1;
    }
    proof {
        assert(a@ =~= b@);
    }
    true
}


proof fn lemma_ltrim_no_leading_space(s: Seq<char>)
    ensures
        ltrim_spec(s).len() > 0 ==> !is_space_char(ltrim_spec(s)[0]),
    decreases s.len(),
{
    if s.len() > 0 && is_space_char(s[0]) {
        lemma_ltrim_no_leading_space(s.subrange(1, s.len() as int));
    }
}

proof fn lemma_rtrim_no_trailing_space(s: Seq<char>)
    ensures
        rtrim_spec(s).len() > 0 ==> !is_space_char(rtrim_spec(s)[rtrim_spec(s).len() - 1]),
    decreases s.len(),
{
    if s.len() > 0 && is_space_char(s[s.len() - 1]) {
        lemma_rtrim_no_trailing_space(s.subrange(0, s.len() - 1));
    }
}

proof fn lemma_rtrim_prefix(s: Seq<char>)
    ensures
        rtrim_spec(s).len() <= s.len(),
        forall|k: int| 0 <= k < rtrim_spec(s).len() ==> rtrim_spec(s)[k] == s[k],
    decreases s.len(),
{
    if s.len() > 0 && is_space_char(s[s.len() - 1]) {
        let t = s.subrange(0, s.len() - 1);
        lemma_rtrim_prefix(t);
        assert(forall|k: int| 0 <= k < t.len() ==> t[k] == s[k]);
    }
}

/// Trimming is idempotent: the edges of a trimmed string hold no
/// whitespace.
pub proof fn lemma_trim_idempotent(s: Seq<char>)
    ensures
        trim_spec(trim_spec(s)) == trim_spec(s),
{
    let a = ltrim_spec(s);
    let b = rtrim_spec(a);
    lemma_ltrim_no_leading_space(s);
    lemma_rtrim_prefix(a);
    if b.len() > 0 {
        assert(b[0] == a[0]);
        assert(!is_space_char(b[0]));
    }
    assert(ltrim_spec(b) == b);
    lemma_rtrim_no_trailing_space(a);
    assert(rtrim_spec(b) == b);
}


/// Digits carry none of the grammar's delimiter characters.
pub proof fn lemma_digit_char_facts(c: char)
    requires
        is_digit_char(c),
    ensures
        c != ':' && c != '[' && c != ']' && c != '+' && c != '{' && c != '}' && c != ','
            && c != '/' && !is_space_char(c),
{
    assert(48 <= c as u32 <= 57);
}

/// The decimal rendering of a non-negative number is a non-empty digit
/// string denoting the number itself.
pub proof fn lemma_dec_rep_digits(n: int)
    requires
        n >= 0,
    ensures
        all_digits(dec_rep(n)),
        dec_rep(n).len() >= 1,
        digits_val(dec_rep(n)) == n,
    decreases n,
{
    if n < 10 {
        assert(is_digit_char(digit_char(n)));
        assert(digit_val(digit_char(n)) == n);
        assert(dec_rep(n) == seq![digit_char(n)]);
        let s = seq![digit_char(n)];
        assert(s.drop_last() =~= Seq::<char>::empty());
        assert(s.last() == digit_char(n));
        assert(digits_val(s.drop_last()) == 0);
        assert(digits_val(s) == digits_val(s.drop_last()) * 10 + digit_val(s.last()));
    } else {
        lemma_dec_rep_digits(n / 10);
        let s = dec_rep(n / 10).push(digit_char(n % 10));
        assert(s.drop_last() =~= dec_rep(n / 10));
        assert(s.last() == digit_char(n % 10));
        assert(is_digit_char(digit_char(n % 10)));
        assert(digit_val(digit_char(n % 10)) == n % 10);
        assert(all_digits(s)) by {
            assert(forall|k: int| 0 <= k < s.len() - 1 ==> s[k] == dec_rep(n / 10)[k]);
        }
        assert(digits_val(s) == (n / 10) * 10 + n % 10);
        vstd::arithmetic::div_mod::lemma_fundamental_div_mod(n, 10);
    }
}

/// Parsing the decimal rendering of `n` gives back `n`.
pub proof fn lemma_u64_dec_roundtrip(n: u64)
    ensures
        u64_from_chars(dec_rep(n as int)) == Some(n),
{
    lemma_dec_rep_digits(n as int);
    let s = dec_rep(n as int);
    lemma_digit_char_facts(s[0]);
    assert(strip_plus(s) == s);
}

} // verus!
