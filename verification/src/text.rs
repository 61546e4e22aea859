//! Character-level helpers shared by the naming and framing code.

use vstd::prelude::*;

verus! {

/// Appends one character to a string.
#[verifier::external_body]
pub(crate) fn push_char(s: &mut String, c: char)
    ensures
        final(s)@ == old(s)@.push(c),
{
    s.push(c);
}

/// The characters of `s`, in order.
pub fn chars_of(s: &str) -> (v: Vec<char>)
    ensures
        v@ == s@,
{
    let mut v: Vec<char> = Vec::new();
    for c in it: s.chars()
        invariant
            it.seq() == s@,
            v@ == it.seq().take(it.index() as int),
    {
        v.push(c);
    }
    v
}

/// The string made of the characters `chars`, in order.
pub fn string_from_chars(chars: &[char]) -> (s: String)
    ensures
        s@ == chars@,
{
    let mut s = String::new();
    let n = chars.len();
    let mut i: usize = 0;
    while i < n
        invariant
            n == chars@.len(),
            i <= n,
            s@ == chars@.take(i as int),
        decreases n - i,
    {
        push_char(&mut s, chars[i]);
        i = i + 1;
        assert(s@ =~= chars@.take(i as int));
    }
    assert(chars@.take(n as int) =~= chars@);
    s
}

/// The character of a decimal digit.
pub open spec fn digit_char(d: nat) -> char {
    (48 + d) as char
}

/// The decimal digits of `n`, most significant first, without leading zeros.
pub open spec fn decimal(n: nat) -> Seq<char>
    decreases n,
{
    if n < 10 {
        seq![digit_char(n)]
    } else {
        decimal(n / 10).push(digit_char(n % 10))
    }
}

/// The character of the decimal digit `d`.
pub fn digit(d: u8) -> (c: char)
    requires
        d < 10,
    ensures
        c == digit_char(d as nat),
{
    (48u8 + d) as char
}

/// The decimal representation of `n`.
pub fn decimal_string(n: u128) -> (s: String)
    ensures
        s@ == decimal(n as nat),
    decreases n,
{
    if n < 10 {
        let mut s = String::new();
        push_char(&mut s, digit(n as u8));
        assert(s@ =~= seq![digit_char(n as nat)]);
        s
    } else {
        let mut s = decimal_string(n / 10);
        push_char(&mut s, digit((n % 10) as u8));
        s
    }
}

/// The index of the first `c` in `s`, or -1 when `s` holds no `c`.
pub open spec fn index_of(s: Seq<char>, c: char) -> int
    decreases s.len(),
{
    if s.len() == 0 {
        -1
    } else if s[0] == c {
        0
    } else {
        let r = index_of(s.drop_first(), c);
        if r < 0 {
            -1
        } else {
            r + 1
        }
    }
}

/// The index of the last `c` in `s`, or -1 when `s` holds no `c`.
pub open spec fn last_index_of(s: Seq<char>, c: char) -> int
    decreases s.len(),
{
    if s.len() == 0 {
        -1
    } else if s.last() == c {
        s.len() - 1
    } else {
        last_index_of(s.drop_last(), c)
    }
}

/// `last_index_of` lies in the sequence, and nothing after it is `c`.
pub proof fn lemma_last_index_of_bounds(s: Seq<char>, c: char)
    ensures
        -1 <= last_index_of(s, c) < s.len(),
        last_index_of(s, c) >= 0 ==> s[last_index_of(s, c)] == c,
        forall|k: int| last_index_of(s, c) < k < s.len() ==> s[k] != c,
    decreases s.len(),
{
    if s.len() > 0 && s.last() != c {
        lemma_last_index_of_bounds(s.drop_last(), c);
        assert forall|k: int| last_index_of(s, c) < k < s.len() implies s[k] != c by {
            if k < s.len() - 1 {
                assert(s.drop_last()[k] == s[k]);
            }
        }
    }
}

/// `index_of` lies in the sequence, and nothing before it is `c`.
pub proof fn lemma_index_of_bounds(s: Seq<char>, c: char)
    ensures
        -1 <= index_of(s, c) < s.len(),
        index_of(s, c) >= 0 ==> s[index_of(s, c)] == c,
        forall|k: int| 0 <= k < index_of(s, c) ==> s[k] != c,
        index_of(s, c) < 0 ==> forall|k: int| 0 <= k < s.len() ==> s[k] != c,
    decreases s.len(),
{
    if s.len() > 0 && s[0] != c {
        lemma_index_of_bounds(s.drop_first(), c);
        assert forall|k: int| 1 <= k < s.len() implies (s[k] == s.drop_first()[k - 1]) by {}
    }
}

/// `index_of` is the first position that holds `c`.
pub proof fn lemma_index_of(s: Seq<char>, c: char, r: int)
    requires
        0 <= r <= s.len(),
        forall|k: int| 0 <= k < r ==> s[k] != c,
        r == s.len() || s[r] == c,
    ensures
        index_of(s, c) == (if r == s.len() { -1 } else { r }),
    decreases s.len(),
{
    if s.len() > 0 && r > 0 {
        lemma_index_of(s.drop_first(), c, r - 1);
    }
}

/// `last_index_of` is the last position that holds `c`.
pub proof fn lemma_last_index_of(s: Seq<char>, c: char, r: int)
    requires
        -1 <= r < s.len(),
        forall|k: int| r < k < s.len() ==> s[k] != c,
        r == -1 || s[r] == c,
    ensures
        last_index_of(s, c) == r,
    decreases s.len(),
{
    if s.len() > 0 && r < s.len() - 1 {
        lemma_last_index_of(s.drop_last(), c, r);
    }
}

/// The first position at or after `from` that holds `c`, or `v.len()`.
pub fn find_from(v: &Vec<char>, c: char, from: usize) -> (r: usize)
    requires
        from <= v@.len(),
    ensures
        from <= r <= v@.len(),
        forall|k: int| from <= k < r ==> v@[k] != c,
        r == v@.len() || v@[r as int] == c,
        index_of(v@.skip(from as int), c) == (if r == v@.len() { -1 } else { r - from }),
{
    let mut i = from;
    while i < v.len() && v[i] != c
        invariant
            from <= i <= v@.len(),
            forall|k: int| from <= k < i ==> v@[k] != c,
        decreases v@.len() - i,
    {
        i = i + 1;
    }
    proof {
        lemma_index_of(v@.skip(from as int), c, i - from);
    }
    i
}

/// The last position before `end` that holds `c`.
pub fn find_last_before(v: &Vec<char>, c: char, end: usize) -> (r: Option<usize>)
    requires
        end <= v@.len(),
    ensures
        last_index_of(v@.take(end as int), c) == (match r {
            Some(i) => i as int,
            None => -1,
        }),
        r matches Some(i) ==> i < end,
{
    let mut i = end;
    while i > 0
        invariant
            i <= end <= v@.len(),
            forall|k: int| i <= k < end ==> v@[k] != c,
        decreases i,
    {
        if v[i - 1] == c {
            proof {
                lemma_last_index_of(v@.take(end as int), c, i - 1);
            }
            return Some(i - 1);
        }
        i = i - 1;
    }
    proof {
        lemma_last_index_of(v@.take(end as int), c, -1);
    }
    None
}

/// Whether `v[a..b]` equals `w`.
pub fn range_eq(v: &Vec<char>, a: usize, b: usize, w: &[char]) -> (r: bool)
    requires
        a <= b <= v@.len(),
    ensures
        r == (v@.subrange(a as int, b as int) == w@),
{
    if b - a != w.len() {
        return false;
    }
    let mut i: usize = 0;
    while i < w.len()
        invariant
            a <= b <= v@.len(),
            b - a == w@.len(),
            i <= w@.len(),
            forall|k: int| 0 <= k < i ==> v@[a + k] == w@[k],
        decreases w@.len() - i,
    {
        if v[a + i] != w[i] {
            return false;
        }
        i = i + 1;
    }
    assert(v@.subrange(a as int, b as int) =~= w@);
    true
}

/// The characters `v[a..b]`.
pub fn copy_range(v: &Vec<char>, a: usize, b: usize) -> (r: Vec<char>)
    requires
        a <= b <= v@.len(),
    ensures
        r@ == v@.subrange(a as int, b as int),
{
    let mut r: Vec<char> = Vec::new();
    let mut i = a;
    while i < b
        invariant
            a <= i <= b <= v@.len(),
            r@ == v@.subrange(a as int, i as int),
        decreases b - i,
    {
        r.push(v[i]);
        i = i + 1;
        assert(r@ =~= v@.subrange(a as int, i as int));
    }
    r
}

/// Whether `pat` occurs in `s` at position `k`.
pub open spec fn matches_at(s: Seq<char>, pat: Seq<char>, k: int) -> bool {
    0 <= k && k + pat.len() <= s.len() && s.subrange(k, k + pat.len()) == pat
}

/// The index of the first occurrence of `pat` in `s`, or -1 when there is
/// none.
pub open spec fn first_match(s: Seq<char>, pat: Seq<char>) -> int
    decreases s.len(),
{
    if pat.len() <= s.len() && s.take(pat.len() as int) == pat {
        0
    } else if s.len() == 0 {
        -1
    } else {
        let r = first_match(s.drop_first(), pat);
        if r < 0 {
            -1
        } else {
            r + 1
        }
    }
}

/// A match one position further in `s` is a match in `s.drop_first()`.
proof fn lemma_matches_at_drop_first(s: Seq<char>, pat: Seq<char>, k: int)
    requires
        s.len() > 0,
        0 <= k,
    ensures
        matches_at(s.drop_first(), pat, k) == matches_at(s, pat, k + 1),
{
    if k + pat.len() <= s.drop_first().len() {
        assert(s.drop_first().subrange(k, k + pat.len()) =~= s.subrange(k + 1, k + 1 + pat.len()));
    }
}

/// `first_match` is the first position where `pat` occurs.
pub proof fn lemma_first_match(s: Seq<char>, pat: Seq<char>, r: int)
    requires
        0 <= r,
        forall|k: int| 0 <= k < r ==> !#[trigger] matches_at(s, pat, k),
        r + pat.len() > s.len() || matches_at(s, pat, r),
    ensures
        first_match(s, pat) == (if r + pat.len() > s.len() { -1 } else { r }),
    decreases s.len(),
{
    if pat.len() <= s.len() {
        assert(s.take(pat.len() as int) =~= s.subrange(0, pat.len() as int));
    }
    if matches_at(s, pat, 0) {
        if r > 0 {
            assert(!matches_at(s, pat, 0));
        }
    } else if s.len() > 0 {
        let r1 = if r > 0 { r - 1 } else { 0 };
        assert forall|k: int| 0 <= k < r1 implies !#[trigger] matches_at(s.drop_first(), pat, k) by {
            lemma_matches_at_drop_first(s, pat, k);
            assert(!matches_at(s, pat, k + 1));
        }
        lemma_matches_at_drop_first(s, pat, r1);
        lemma_first_match(s.drop_first(), pat, r1);
    }
}

/// The first position at or after `from` where `pat` occurs in `v`.
pub fn find_sub(v: &Vec<char>, pat: &[char], from: usize) -> (r: Option<usize>)
    requires
        from <= v@.len(),
    ensures
        first_match(v@.skip(from as int), pat@) == (match r {
            Some(i) => i - from,
            None => -1,
        }),
        r matches Some(i) ==> from <= i && i + pat@.len() <= v@.len() && v@.subrange(
            i as int,
            i + pat@.len(),
        ) == pat@,
{
    let n = v.len();
    let m = pat.len();
    let ghost t = v@.skip(from as int);
    if m > n - from {
        proof {
            lemma_first_match(t, pat@, 0);
        }
        return None;
    }
    if m == 0 {
        proof {
            assert(t.subrange(0, 0) =~= pat@);
            lemma_first_match(t, pat@, 0);
        }
        assert(v@.subrange(from as int, from as int) =~= pat@);
        return Some(from);
    }
    let mut i = from;
    while i <= n - m
        invariant
            n == v@.len(),
            m == pat@.len(),
            0 < m <= n,
            from <= i,
            i <= n - m + 1,
            t == v@.skip(from as int),
            forall|k: int| 0 <= k < i - from ==> !#[trigger] matches_at(t, pat@, k),
        decreases n + 1 - i,
    {
        let hit = range_eq(v, i, i + m, pat);
        assert(t.subrange(i - from, i - from + m) =~= v@.subrange(i as int, i + m));
        if hit {
            proof {
                lemma_first_match(t, pat@, i - from);
            }
            return Some(i);
        }
        assert(!matches_at(t, pat@, i - from));
        i = i + 1;
    }
    proof {
        lemma_first_match(t, pat@, i - from);
    }
    None
}

} // verus!
