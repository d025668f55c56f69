//! Character-level string helpers shared by the modules of the library:
//! building strings from characters, decimal rendering, ASCII classes.

use vstd::prelude::*;

verus! {

/// The views of a sequence of strings.
pub open spec fn strings_view(v: Seq<String>) -> Seq<Seq<char>> {
    Seq::new(v.len(), |i: int| v[i]@)
}

/// `String::push`: append one character.
#[verifier::external_body]
pub(crate) fn push_char(s: &mut String, c: char)
    ensures
        final(s)@ == old(s)@.push(c),
{
    s.push(c);
}

/// A fresh `String` holding the characters of `s`.
pub fn owned(s: &str) -> (r: String)
    ensures
        r@ == s@,
{
    String::from_str(s)
}

/// Append `t` to `s`.
pub fn push_str(s: &mut String, t: &str)
    ensures
        final(s)@ == old(s)@ + t@,
{
    s.append(t);
}

/// The characters of `s`, in order.
pub fn chars_of(s: &str) -> (v: Vec<char>)
    ensures
        v@ == s@,
{
    let n = s.unicode_len();
    let mut v: Vec<char> = Vec::new();
    let mut i: usize = 0;
    while i < n
        invariant
            n == s@.len(),
            i <= n,
            v@ == s@.take(i as int),
        decreases n - i,
    {
        let c = s.get_char(i);
        v.push(c);
        assert(s@.take(i as int + 1) == s@.take(i as int).push(c));
        i = i + 1;
    }
    assert(s@.take(n as int) == s@);
    v
}

/// A `String` made of the characters of `v`.
pub fn string_of(v: &Vec<char>) -> (s: String)
    ensures
        s@ == v@,
{
    let mut s = String::new();
    let mut i: usize = 0;
    while i < v.len()
        invariant
            i <= v.len(),
            s@ == v@.take(i as int),
        decreases v.len() - i,
    {
        push_char(&mut s, v[i]);
        assert(v@.take(i as int + 1) == v@.take(i as int).push(v@[i as int]));
        i = i + 1;
    }
    assert(v@.take(v.len() as int) == v@);
    s
}

/// Character-wise equality of two strings.
pub fn str_eq(a: &str, b: &str) -> (r: bool)
    ensures
        r == (a@ == b@),
{
    let n = a.unicode_len();
    let m = b.unicode_len();
    if n != m {
        return false;
    }
    let mut i: usize = 0;
    while i < n
        invariant
            n == a@.len(),
            m == b@.len(),
            n == m,
            i <= n,
            forall|j: int| 0 <= j < i ==> a@[j] == b@[j],
        decreases n - i,
    {
        if a.get_char(i) != b.get_char(i) {
            return false;
        }
        i = i + 1;
    }
    assert(a@ =~= b@);
    true
}

/// `p` is a prefix of `s`.
pub open spec fn is_prefix(p: Seq<char>, s: Seq<char>) -> bool {
    p.len() <= s.len() && s.take(p.len() as int) == p
}

/// Whether `s` starts with `p`.
pub fn starts_with(s: &str, p: &str) -> (r: bool)
    ensures
        r == is_prefix(p@, s@),
{
    let n = s.unicode_len();
    let m = p.unicode_len();
    if m > n {
        return false;
    }
    let mut i: usize = 0;
    while i < m
        invariant
            n == s@.len(),
            m == p@.len(),
            m <= n,
            i <= m,
            forall|j: int| 0 <= j < i ==> s@[j] == p@[j],
        decreases m - i,
    {
        if s.get_char(i) != p.get_char(i) {
            assert(s@.take(m as int)[i as int] != p@[i as int]);
            return false;
        }
        i = i + 1;
    }
    assert(s@.take(m as int) =~= p@);
    true
}

/// ASCII letter or digit (`char::is_ascii_alphanumeric`).
pub open spec fn is_ascii_alnum(c: char) -> bool {
    ('a' <= c && c <= 'z') || ('A' <= c && c <= 'Z') || ('0' <= c && c <= '9')
}

pub fn ascii_alnum(c: char) -> (r: bool)
    ensures
        r == is_ascii_alnum(c),
{
    ('a' <= c && c <= 'z') || ('A' <= c && c <= 'Z') || ('0' <= c && c <= '9')
}

/// The decimal digit character for `d < 10`.
pub open spec fn digit_char(d: nat) -> char {
    if d == 0 {
        '0'
    } else if d == 1 {
        '1'
    } else if d == 2 {
        '2'
    } else if d == 3 {
        '3'
    } else if d == 4 {
        '4'
    } else if d == 5 {
        '5'
    } else if d == 6 {
        '6'
    } else if d == 7 {
        '7'
    } else if d == 8 {
        '8'
    } else {
        '9'
    }
}

/// The decimal representation of `n`, most significant digit first,
/// with no leading zeros (`0` renders as `"0"`).
pub open spec fn decimal(n: nat) -> Seq<char>
    decreases n,
{
    if n < 10 {
        seq![digit_char(n)]
    } else {
        decimal(n / 10).push(digit_char(n % 10))
    }
}

fn digit(d: u64) -> (c: char)
    requires
        d < 10,
    ensures
        c == digit_char(d as nat),
{
    if d == 0 {
        '0'
    } else if d == 1 {
        '1'
    } else if d == 2 {
        '2'
    } else if d == 3 {
        '3'
    } else if d == 4 {
        '4'
    } else if d == 5 {
        '5'
    } else if d == 6 {
        '6'
    } else if d == 7 {
        '7'
    } else if d == 8 {
        '8'
    } else {
        '9'
    }
}

/// Render `n` in decimal.
pub fn u64_to_decimal(n: u64) -> (s: String)
    ensures
        s@ == decimal(n as nat),
    decreases n,
{
    if n < 10 {
        let mut s = String::new();
        push_char(&mut s, digit(n));
        assert(s@ =~= seq![digit_char(n as nat)]);
        s
    } else {
        let mut s = u64_to_decimal(n / 10);
        push_char(&mut s, digit(n % 10));
        s
    }
}

/// Index of the first `c` in `s`, or -1.
pub open spec fn index_of(s: Seq<char>, c: char) -> int
    decreases s.len(),
{
    if s.len() == 0 {
        -1
    } else if s[0] == c {
        0
    } else {
        let j = index_of(s.drop_first(), c);
        if j < 0 {
            -1
        } else {
            j + 1
        }
    }
}

/// `index_of` is the first position holding `c`, or -1 when none does.
pub proof fn lemma_index_of(s: Seq<char>, c: char)
    ensures
        -1 <= index_of(s, c) < s.len(),
        index_of(s, c) == -1 <==> (forall|i: int| 0 <= i < s.len() ==> s[i] != c),
        index_of(s, c) >= 0 ==> s[index_of(s, c)] == c,
        index_of(s, c) >= 0 ==> (forall|i: int| 0 <= i < index_of(s, c) ==> s[i] != c),
    decreases s.len(),
{
    if s.len() > 0 {
        lemma_index_of(s.drop_first(), c);
        if s[0] != c {
            if index_of(s.drop_first(), c) == -1 {
                assert forall|i: int| 0 <= i < s.len() implies s[i] != c by {
                    if i > 0 {
                        assert(s[i] == s.drop_first()[i - 1]);
                    }
                }
            } else {
                assert forall|i: int| 0 < i < index_of(s, c) implies s[i] != c by {
                    assert(s[i] == s.drop_first()[i - 1]);
                }
            }
        }
    }
}

/// Position of the first `c` in `s` at or after `from`, or `s.len()`.
pub fn find_char(s: &str, c: char, from: usize) -> (i: usize)
    requires
        from <= s@.len(),
    ensures
        from <= i <= s@.len(),
        forall|j: int| from <= j < i ==> s@[j] != c,
        i < s@.len() ==> s@[i as int] == c,
{
    let n = s.unicode_len();
    let mut i = from;
    while i < n
        invariant
            n == s@.len(),
            from <= i <= n,
            forall|j: int| from <= j < i ==> s@[j] != c,
        decreases n - i,
    {
        if s.get_char(i) == c {
            return i;
        }
        i = i + 1;
    }
    i
}

/// The part of `h` after `prefix`, split at its first `:` into two
/// non-empty halves (the second may hold further colons).
pub open spec fn split_prefixed(h: Seq<char>, prefix: Seq<char>) -> Option<(Seq<char>, Seq<char>)> {
    if is_prefix(prefix, h) {
        let rest = h.skip(prefix.len() as int);
        let j = index_of(rest, ':');
        if j > 0 && j + 1 < rest.len() {
            Some((rest.take(j), rest.skip(j + 1)))
        } else {
            None
        }
    } else {
        None
    }
}

/// Strip `prefix` from `h` and split the rest at its first `:`; `None`
/// when the prefix is absent or either half would be empty.
pub fn split_after_prefix<'a>(h: &'a str, prefix: &str) -> (r: Option<(&'a str, &'a str)>)
    ensures
        match r {
            Some((a, b)) => split_prefixed(h@, prefix@) == Some((a@, b@)),
            None => split_prefixed(h@, prefix@) is None,
        },
{
    if !starts_with(h, prefix) {
        return None;
    }
    let n = h.unicode_len();
    let p = prefix.unicode_len();
    let ghost rest = h@.skip(p as int);
    let j = find_char(h, ':', p);
    proof {
        lemma_index_of(rest, ':');
        if j < n {
            assert(rest[j - p] == ':');
            assert forall|k: int| 0 <= k < j - p implies rest[k] != ':' by {
                assert(rest[k] == h@[k + p]);
            }
            assert(index_of(rest, ':') == j - p);
        } else {
            assert forall|k: int| 0 <= k < rest.len() implies rest[k] != ':' by {
                assert(rest[k] == h@[k + p]);
            }
        }
    }
    if j >= n || j == p || j + 1 == n {
        return None;
    }
    let a = h.substring_char(p, j);
    let b = h.substring_char(j + 1, n);
    assert(a@ =~= rest.take(j - p));
    assert(b@ =~= rest.skip(j - p + 1));
    Some((a, b))
}

/// Unicode `White_Space` (the set `char::is_whitespace` and `str::trim`
/// use).
pub open spec fn is_space(c: char) -> bool {
    ('\u{9}' <= c && c <= '\u{d}') || c == ' ' || c == '\u{85}' || c == '\u{a0}' || c
        == '\u{1680}' || ('\u{2000}' <= c && c <= '\u{200a}') || c == '\u{2028}' || c
        == '\u{2029}' || c == '\u{202f}' || c == '\u{205f}' || c == '\u{3000}'
}

pub fn space(c: char) -> (r: bool)
    ensures
        r == is_space(c),
{
    ('\u{9}' <= c && c <= '\u{d}') || c == ' ' || c == '\u{85}' || c == '\u{a0}' || c
        == '\u{1680}' || ('\u{2000}' <= c && c <= '\u{200a}') || c == '\u{2028}' || c
        == '\u{2029}' || c == '\u{202f}' || c == '\u{205f}' || c == '\u{3000}'
}

/// `s` without its leading whitespace.
pub open spec fn trim_start(s: Seq<char>) -> Seq<char>
    decreases s.len(),
{
    if s.len() > 0 && is_space(s[0]) {
        trim_start(s.drop_first())
    } else {
        s
    }
}

/// `s` without its trailing whitespace.
pub open spec fn trim_end(s: Seq<char>) -> Seq<char>
    decreases s.len(),
{
    if s.len() > 0 && is_space(s.last()) {
        trim_end(s.drop_last())
    } else {
        s
    }
}

/// `s` without leading and trailing whitespace (`str::trim`).
pub open spec fn trim(s: Seq<char>) -> Seq<char> {
    trim_end(trim_start(s))
}

/// Number of leading whitespace characters of `s` at or after `from`:
/// `s.skip(k)` is `trim_start(s.skip(from))`.
pub fn skip_spaces(s: &str, from: usize) -> (k: usize)
    requires
        from <= s@.len(),
    ensures
        from <= k <= s@.len(),
        s@.skip(k as int) == trim_start(s@.skip(from as int)),
{
    let n = s.unicode_len();
    let mut i = from;
    while i < n && space(s.get_char(i))
        invariant
            n == s@.len(),
            from <= i <= n,
            trim_start(s@.skip(i as int)) == trim_start(s@.skip(from as int)),
        decreases n - i,
    {
        assert(s@.skip(i as int).drop_first() =~= s@.skip(i as int + 1));
        i = i + 1;
    }
    i
}

/// End of `s.take(to)` once its trailing whitespace is cut:
/// `s.subrange(from, e)` is `trim_end(s.subrange(from, to))`.
pub fn cut_spaces(s: &str, from: usize, to: usize) -> (e: usize)
    requires
        from <= to <= s@.len(),
    ensures
        from <= e <= to,
        s@.subrange(from as int, e as int) == trim_end(s@.subrange(from as int, to as int)),
{
    let mut j = to;
    while j > from && space(s.get_char(j - 1))
        invariant
            to <= s@.len(),
            from <= j <= to,
            trim_end(s@.subrange(from as int, j as int)) == trim_end(
                s@.subrange(from as int, to as int),
            ),
        decreases j,
    {
        assert(s@.subrange(from as int, j as int).drop_last() =~= s@.subrange(
            from as int,
            j - 1,
        ));
        j = j - 1;
    }
    j
}

/// ASCII lower-casing of one character (`char::to_ascii_lowercase`).
pub open spec fn ascii_lower(c: char) -> char {
    if 'A' <= c && c <= 'Z' {
        ((c as u8) + 32) as char
    } else {
        c
    }
}

pub fn to_ascii_lower(c: char) -> (r: char)
    ensures
        r == ascii_lower(c),
{
    if 'A' <= c && c <= 'Z' {
        ((c as u8) + 32) as char
    } else {
        c
    }
}

/// Lexicographic order on characters (the order of `str`'s `<`).
pub open spec fn lex_lt(a: Seq<char>, b: Seq<char>) -> bool
    decreases a.len(),
{
    if a.len() == 0 {
        b.len() > 0
    } else if b.len() == 0 {
        false
    } else if a[0] != b[0] {
        a[0] < b[0]
    } else {
        lex_lt(a.drop_first(), b.drop_first())
    }
}

/// `lex_lt` is irreflexive, asymmetric and total.
pub proof fn lemma_lex_strict(a: Seq<char>, b: Seq<char>)
    ensures
        !lex_lt(a, a),
        lex_lt(a, b) ==> !lex_lt(b, a),
        a != b ==> lex_lt(a, b) || lex_lt(b, a),
    decreases a.len(),
{
    if a.len() > 0 {
        lemma_lex_strict(a.drop_first(), a.drop_first());
    }
    if a.len() > 0 && b.len() > 0 {
        lemma_lex_strict(a.drop_first(), b.drop_first());
        if a != b && a[0] == b[0] {
            assert(a.drop_first() != b.drop_first()) by {
                if a.drop_first() == b.drop_first() {
                    assert(a =~= seq![a[0]] + a.drop_first());
                    assert(b =~= seq![b[0]] + b.drop_first());
                }
            }
        }
    }
    if a.len() == 0 && b.len() == 0 {
        assert(a =~= b);
    }
}

/// `lex_lt` is transitive.
pub proof fn lemma_lex_trans(a: Seq<char>, b: Seq<char>, c: Seq<char>)
    requires
        lex_lt(a, b),
        lex_lt(b, c),
    ensures
        lex_lt(a, c),
    decreases a.len(),
{
    if a.len() > 0 && b.len() > 0 && c.len() > 0 && a[0] == b[0] && b[0] == c[0] {
        lemma_lex_trans(a.drop_first(), b.drop_first(), c.drop_first());
    }
}

/// Whether `a` sorts strictly before `b`.
pub fn str_lt(a: &str, b: &str) -> (r: bool)
    ensures
        r == lex_lt(a@, b@),
{
    let n = a.unicode_len();
    let m = b.unicode_len();
    let mut i: usize = 0;
    assert(a@.skip(0) =~= a@);
    assert(b@.skip(0) =~= b@);
    while i < n && i < m
        invariant
            n == a@.len(),
            m == b@.len(),
            i <= n,
            i <= m,
            lex_lt(a@, b@) == lex_lt(a@.skip(i as int), b@.skip(i as int)),
        decreases n - i,
    {
        let x = a.get_char(i);
        let y = b.get_char(i);
        if x != y {
            return x < y;
        }
        assert(a@.skip(i as int).drop_first() =~= a@.skip(i as int + 1));
        assert(b@.skip(i as int).drop_first() =~= b@.skip(i as int + 1));
        i = i + 1;
    }
    i == n && i < m
}

/// Index of the first occurrence of `n` in `h`, or -1.
pub open spec fn find_seq(h: Seq<char>, n: Seq<char>) -> int
    decreases h.len(),
{
    if h.len() < n.len() {
        -1
    } else if h.take(n.len() as int) == n {
        0
    } else if h.len() == 0 {
        -1
    } else {
        let j = find_seq(h.drop_first(), n);
        if j < 0 {
            -1
        } else {
            j + 1
        }
    }
}

/// `n` occurs in `h` at position `i`.
pub open spec fn occurs_at(h: Seq<char>, n: Seq<char>, i: int) -> bool {
    0 <= i && i + n.len() <= h.len() && h.subrange(i, i + n.len() as int) == n
}

/// `find_seq` is the first position where the needle occurs, or -1 when
/// it occurs nowhere.
pub proof fn lemma_find_seq(h: Seq<char>, n: Seq<char>)
    ensures
        -1 <= find_seq(h, n) <= h.len(),
        find_seq(h, n) >= 0 ==> occurs_at(h, n, find_seq(h, n)),
        forall|i: int|
            0 <= i && (find_seq(h, n) < 0 || i < find_seq(h, n)) ==> !#[trigger] occurs_at(h, n, i),
    decreases h.len(),
{
    if h.len() >= n.len() && h.take(n.len() as int) != n && h.len() > 0 {
        lemma_find_seq(h.drop_first(), n);
        assert forall|i: int| 0 <= i && (find_seq(h, n) < 0 || i < find_seq(h, n)) implies !#[trigger] occurs_at(h, n, i) by {
            if i == 0 {
                assert(h.subrange(0, n.len() as int) == h.take(n.len() as int));
            } else if occurs_at(h, n, i) {
                assert(h.drop_first().subrange(i - 1, i - 1 + n.len()) =~= h.subrange(i, i + n.len()));
                assert(occurs_at(h.drop_first(), n, i - 1));
            }
        }
        if find_seq(h, n) >= 0 {
            let j = find_seq(h.drop_first(), n);
            assert(h.drop_first().subrange(j, j + n.len()) =~= h.subrange(j + 1, j + 1 + n.len()));
        }
    } else if h.len() >= n.len() && h.take(n.len() as int) == n {
        assert(h.subrange(0, n.len() as int) == h.take(n.len() as int));
    } else {
        assert forall|i: int| 0 <= i implies !#[trigger] occurs_at(h, n, i) by {}
    }
}

/// First position at or after `from` where `n` occurs in `h`, or
/// `h.len()` when there is none.
pub fn find_str(h: &str, n: &str, from: usize) -> (i: usize)
    requires
        from <= h@.len(),
    ensures
        from <= i <= h@.len(),
        i < h@.len() ==> occurs_at(h@, n@, i as int),
        forall|j: int| from <= j < i ==> !#[trigger] occurs_at(h@, n@, j),
{
    let len = h.unicode_len();
    let m = n.unicode_len();
    let mut i = from;
    while i < len
        invariant
            len == h@.len(),
            m == n@.len(),
            from <= i <= len,
            forall|j: int| from <= j < i ==> !#[trigger] occurs_at(h@, n@, j),
        decreases len - i,
    {
        if m <= len - i {
            let mut k: usize = 0;
            while k < m && h.get_char(i + k) == n.get_char(k)
                invariant
                    len == h@.len(),
                    m == n@.len(),
                    i + m <= len,
                    k <= m,
                    forall|t: int| 0 <= t < k ==> h@[i + t] == n@[t],
                decreases m - k,
            {
                k = k + 1;
            }
            if k == m {
                assert(h@.subrange(i as int, i + m) =~= n@);
                return i;
            }
            assert(h@.subrange(i as int, i + m)[k as int] != n@[k as int]);
        }
        i = i + 1;
    }
    i
}

/// Position of the first occurrence of the non-empty `n` in `h`, or
/// `h.len()` when it does not occur.
pub fn find_first(h: &str, n: &str) -> (r: usize)
    requires
        n@.len() > 0,
    ensures
        r == (if find_seq(h@, n@) < 0 {
            h@.len() as int
        } else {
            find_seq(h@, n@)
        }),
{
    let r = find_str(h, n, 0);
    proof {
        lemma_find_seq(h@, n@);
        let f = find_seq(h@, n@);
        if f >= 0 {
            if f < r {
                assert(!occurs_at(h@, n@, f));
            }
            if (r as int) < f {
                assert(occurs_at(h@, n@, r as int));
            }
            assert(f < h@.len());
        } else {
            if r < h@.len() {
                assert(occurs_at(h@, n@, r as int));
            }
        }
    }
    r
}

} // verus!
