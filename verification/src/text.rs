//! Character-sequence utilities shared by the rewriter, the descriptor
//! parser and the icon resolver: substring search, splitting and joining
//! on a separator character, trimming, and decimal parsing.

use vstd::prelude::*;
use vstd::string::*;

verus! {

/// Whitespace that may follow a rewritten field's key inside one line:
/// the usual single-line whitespace characters.
pub open spec fn is_space_char(c: char) -> bool {
    c == ' ' || c == '\t' || c == '\r' || c == '\u{b}' || c == '\u{c}'
}

/// Whitespace stripped from both ends by `trim_str`.
pub open spec fn is_trim_space(c: char) -> bool {
    is_space_char(c) || c == '\n'
}

/// Index of the first occurrence of `c` in `s`, if any.
pub open spec fn find_ch(s: Seq<char>, c: char) -> Option<int>
    decreases s.len(),
{
    if s.len() == 0 {
        None
    } else if s[0] == c {
        Some(0)
    } else {
        match find_ch(s.drop_first(), c) {
            None => None,
            Some(i) => Some(i + 1),
        }
    }
}

pub proof fn lemma_find_ch(s: Seq<char>, c: char)
    ensures
        match find_ch(s, c) {
            Some(i) => 0 <= i < s.len() && s[i] == c && (forall|j: int| 0 <= j < i ==> s[j] != c),
            None => forall|j: int| 0 <= j < s.len() ==> s[j] != c,
        },
    decreases s.len(),
{
    if s.len() == 0 {
    } else if s[0] == c {
    } else {
        lemma_find_ch(s.drop_first(), c);
        assert(forall|j: int| 1 <= j < s.len() ==> s[j] == s.drop_first()[j - 1]);
    }
}

/// `find_ch` returns exactly the first witness.
pub proof fn lemma_find_ch_is(s: Seq<char>, c: char, k: int)
    requires
        0 <= k < s.len(),
        s[k] == c,
        forall|j: int| 0 <= j < k ==> s[j] != c,
    ensures
        find_ch(s, c) == Some(k),
{
    lemma_find_ch(s, c);
    match find_ch(s, c) {
        None => {
            assert(false);
        },
        Some(i) => {
            if i < k {
                assert(s[i] != c);
                assert(false);
            }
            if k < i {
                assert(s[k] != c);
                assert(false);
            }
        },
    }
}

/// Index of the last occurrence of `c` in `s`, if any.
pub open spec fn rfind_ch(s: Seq<char>, c: char) -> Option<int>
    decreases s.len(),
{
    if s.len() == 0 {
        None
    } else if s.last() == c {
        Some(s.len() - 1)
    } else {
        rfind_ch(s.drop_last(), c)
    }
}

pub proof fn lemma_rfind_ch(s: Seq<char>, c: char)
    ensures
        match rfind_ch(s, c) {
            Some(i) => 0 <= i < s.len() && s[i] == c && (forall|j: int|
                i < j < s.len() ==> s[j] != c),
            None => forall|j: int| 0 <= j < s.len() ==> s[j] != c,
        },
    decreases s.len(),
{
    if s.len() == 0 {
    } else if s.last() == c {
    } else {
        lemma_rfind_ch(s.drop_last(), c);
        assert(forall|j: int| 0 <= j < s.len() - 1 ==> s[j] == s.drop_last()[j]);
    }
}

pub proof fn lemma_rfind_ch_is(s: Seq<char>, c: char, k: int)
    requires
        0 <= k < s.len(),
        s[k] == c,
        forall|j: int| k < j < s.len() ==> s[j] != c,
    ensures
        rfind_ch(s, c) == Some(k),
{
    lemma_rfind_ch(s, c);
    match rfind_ch(s, c) {
        None => {
            assert(false);
        },
        Some(i) => {
            if i < k {
                assert(s[k] != c);
                assert(false);
            }
            if k < i {
                assert(s[i] != c);
                assert(false);
            }
        },
    }
}

/// Does `pat` occur in `s` starting at index `i`?
pub open spec fn match_at(s: Seq<char>, pat: Seq<char>, i: int) -> bool {
    0 <= i && i + pat.len() <= s.len() && s.subrange(i, i + pat.len() as int) == pat
}

/// Index of the first occurrence of `pat` as a contiguous subsequence of `s`.
pub open spec fn find_sub(s: Seq<char>, pat: Seq<char>) -> Option<int>
    decreases s.len(),
{
    if pat.len() > s.len() {
        None
    } else if s.subrange(0, pat.len() as int) == pat {
        Some(0)
    } else if s.len() == 0 {
        None
    } else {
        match find_sub(s.drop_first(), pat) {
            None => None,
            Some(i) => Some(i + 1),
        }
    }
}

pub proof fn lemma_find_sub(s: Seq<char>, pat: Seq<char>)
    ensures
        match find_sub(s, pat) {
            Some(i) => match_at(s, pat, i) && (forall|j: int| 0 <= j < i ==> !match_at(s, pat, j)),
            None => forall|j: int| !match_at(s, pat, j),
        },
    decreases s.len(),
{
    if pat.len() > s.len() {
    } else if s.subrange(0, pat.len() as int) == pat {
    } else if s.len() == 0 {
    } else {
        lemma_find_sub(s.drop_first(), pat);
        assert forall|j: int| 1 <= j implies match_at(s, pat, j) == match_at(
            s.drop_first(),
            pat,
            j - 1,
        ) by {
            if 1 <= j && j + pat.len() <= s.len() {
                assert(s.subrange(j, j + pat.len() as int) =~= s.drop_first().subrange(
                    j - 1,
                    j - 1 + pat.len() as int,
                ));
            }
        }
    }
}

pub proof fn lemma_find_sub_is(s: Seq<char>, pat: Seq<char>, k: int)
    requires
        match_at(s, pat, k),
        forall|j: int| 0 <= j < k ==> !match_at(s, pat, j),
    ensures
        find_sub(s, pat) == Some(k),
{
    lemma_find_sub(s, pat);
    match find_sub(s, pat) {
        None => {
            assert(!match_at(s, pat, k));
            assert(false);
        },
        Some(i) => {
            if i < k {
                assert(!match_at(s, pat, i));
                assert(false);
            }
            if k < i {
                assert(!match_at(s, pat, k));
                assert(false);
            }
        },
    }
}

/// Split `s` on every occurrence of `sep`; always yields at least one part.
pub open spec fn split_char(s: Seq<char>, sep: char) -> Seq<Seq<char>>
    decreases s.len(),
    via split_char_decreases
{
    match find_ch(s, sep) {
        None => seq![s],
        Some(i) => seq![s.subrange(0, i)] + split_char(s.subrange(i + 1, s.len() as int), sep),
    }
}

#[via_fn]
proof fn split_char_decreases(s: Seq<char>, sep: char) {
    lemma_find_ch(s, sep);
}

pub proof fn lemma_split_char_len(s: Seq<char>, sep: char)
    ensures
        split_char(s, sep).len() >= 1,
    decreases s.len(),
{
    lemma_find_ch(s, sep);
    match find_ch(s, sep) {
        None => {},
        Some(i) => {
            lemma_split_char_len(s.subrange(i + 1, s.len() as int), sep);
        },
    }
}

/// Join parts with `sep` between them.
pub open spec fn join_char(parts: Seq<Seq<char>>, sep: char) -> Seq<char>
    decreases parts.len(),
{
    if parts.len() == 0 {
        Seq::empty()
    } else if parts.len() == 1 {
        parts[0]
    } else {
        parts[0] + seq![sep] + join_char(parts.drop_first(), sep)
    }
}

/// Splitting and re-joining on the same separator gives the text back.
pub proof fn lemma_join_split(s: Seq<char>, sep: char)
    ensures
        join_char(split_char(s, sep), sep) == s,
    decreases s.len(),
{
    lemma_find_ch(s, sep);
    match find_ch(s, sep) {
        None => {
            assert(join_char(seq![s], sep) == s);
        },
        Some(i) => {
            let rest = s.subrange(i + 1, s.len() as int);
            lemma_join_split(rest, sep);
            lemma_split_char_len(rest, sep);
            let parts = seq![s.subrange(0, i)] + split_char(rest, sep);
            assert(parts.len() >= 2);
            assert(parts[0] == s.subrange(0, i));
            assert(parts.drop_first() =~= split_char(rest, sep));
            assert(s.subrange(0, i) + seq![sep] + rest =~= s);
        },
    }
}

/// Appending one more part to a join appends a separator and the part.
pub proof fn lemma_join_push(p: Seq<Seq<char>>, x: Seq<char>, sep: char)
    ensures
        join_char(p.push(x), sep) == if p.len() == 0 {
            x
        } else {
            join_char(p, sep) + seq![sep] + x
        },
    decreases p.len(),
{
    if p.len() == 0 {
        assert(p.push(x).len() == 1);
        assert(p.push(x)[0] == x);
    } else if p.len() == 1 {
        assert(p.push(x).len() == 2);
        assert(p.push(x)[0] == p[0]);
        assert(p.push(x).drop_first() =~= seq![x]);
        assert(join_char(seq![x], sep) == x);
    } else {
        lemma_join_push(p.drop_first(), x, sep);
        assert(p.push(x).drop_first() =~= p.drop_first().push(x));
        assert(p.push(x)[0] == p[0]);
        assert(p[0] + seq![sep] + (join_char(p.drop_first(), sep) + seq![sep] + x) =~= (p[0]
            + seq![sep] + join_char(p.drop_first(), sep)) + seq![sep] + x);
    }
}

/// Strip `is_trim_space` characters from the front.
pub open spec fn trim_start_spec(s: Seq<char>) -> Seq<char>
    decreases s.len(),
{
    if s.len() > 0 && is_trim_space(s[0]) {
        trim_start_spec(s.drop_first())
    } else {
        s
    }
}

/// Strip `is_trim_space` characters from the back.
pub open spec fn trim_end_spec(s: Seq<char>) -> Seq<char>
    decreases s.len(),
{
    if s.len() > 0 && is_trim_space(s.last()) {
        trim_end_spec(s.drop_last())
    } else {
        s
    }
}

/// Strip `is_trim_space` characters from both ends.
pub open spec fn trim_spec(s: Seq<char>) -> Seq<char> {
    trim_end_spec(trim_start_spec(s))
}

pub open spec fn is_digit_char(c: char) -> bool {
    48 <= c as u32 && c as u32 <= 57
}

pub open spec fn digit_val(c: char) -> nat {
    (c as u32 - 48) as nat
}

/// Value of a sequence of decimal digits, most significant first.
pub open spec fn digits_val(s: Seq<char>) -> nat
    decreases s.len(),
{
    if s.len() == 0 {
        0
    } else {
        digits_val(s.drop_last()) * 10 + digit_val(s.last())
    }
}

pub open spec fn all_digits(s: Seq<char>) -> bool {
    forall|i: int| 0 <= i < s.len() ==> is_digit_char(s[i])
}

/// Decimal parse of an unsigned 32-bit number: an optional leading `+`,
/// then one or more digits, whose value fits.
pub open spec fn parse_u32_spec(s: Seq<char>) -> Option<u32> {
    let body = if s.len() > 0 && s[0] == '+' {
        s.drop_first()
    } else {
        s
    };
    if body.len() > 0 && all_digits(body) && digits_val(body) <= u32::MAX {
        Some(digits_val(body) as u32)
    } else {
        None
    }
}

/// Character-for-character string equality.
pub fn eq_str(a: &str, b: &str) -> (r: bool)
    ensures
        r == (a@ == b@),
{
    let n = a.unicode_len();
    let m = b.unicode_len();
    if n != m {
        assert(a@ != b@) by {
            if a@ == b@ {
                assert(a@.len() == b@.len());
            }
        }
        return false;
    }
    let mut i: usize = 0;
    while i < n
        invariant
            n == a@.len(),
            n == b@.len(),
            0 <= i <= n,
            forall|j: int| 0 <= j < i ==> a@[j] == b@[j],
        decreases n - i,
    {
        if a.get_char(i) != b.get_char(i) {
            return false;
        }
        i += 1;
    }
    assert(a@ =~= b@);
    true
}

/// First occurrence of the character `c` in `s`.
pub fn find_char_str(s: &str, c: char) -> (r: Option<usize>)
    ensures
        match find_ch(s@, c) {
            Some(i) => r == Some(i as usize),
            None => r is None,
        },
{
    proof {
        lemma_find_ch(s@, c);
    }
    let n = s.unicode_len();
    let mut i: usize = 0;
    while i < n
        invariant
            n == s@.len(),
            0 <= i <= n,
            forall|j: int| 0 <= j < i ==> s@[j] != c,
        decreases n - i,
    {
        if s.get_char(i) == c {
            proof {
                lemma_find_ch_is(s@, c, i as int);
            }
            return Some(i);
        }
        i += 1;
    }
    assert(find_ch(s@, c) is None) by {
        lemma_find_ch(s@, c);
        match find_ch(s@, c) {
            Some(k) => assert(s@[k] != c),
            None => {},
        }
    }
    None
}

/// Last occurrence of the character `c` in `s`.
pub fn rfind_char_str(s: &str, c: char) -> (r: Option<usize>)
    ensures
        match rfind_ch(s@, c) {
            Some(i) => r == Some(i as usize),
            None => r is None,
        },
{
    let n = s.unicode_len();
    let mut i: usize = n;
    while i > 0
        invariant
            n == s@.len(),
            0 <= i <= n,
            forall|j: int| i <= j < n ==> s@[j] != c,
        decreases i,
    {
        i -= 1;
        if s.get_char(i) == c {
            proof {
                lemma_rfind_ch_is(s@, c, i as int);
            }
            return Some(i);
        }
    }
    assert(rfind_ch(s@, c) is None) by {
        lemma_rfind_ch(s@, c);
        match rfind_ch(s@, c) {
            Some(k) => assert(s@[k] != c),
            None => {},
        }
    }
    None
}

/// Does `pat` occur in `s` at index `i`?
pub fn match_at_str(s: &str, pat: &str, i: usize) -> (r: bool)
    requires
        i + pat@.len() <= s@.len(),
    ensures
        r == match_at(s@, pat@, i as int),
{
    let n = s.unicode_len();
    let m = pat.unicode_len();
    let mut j: usize = 0;
    while j < m
        invariant
            n == s@.len(),
            m == pat@.len(),
            i + m <= n,
            0 <= j <= m,
            forall|k: int| 0 <= k < j ==> s@[i + k] == pat@[k],
        decreases m - j,
    {
        if s.get_char(i + j) != pat.get_char(j) {
            assert(s@.subrange(i as int, i + m as int)[j as int] != pat@[j as int]);
            return false;
        }
        j += 1;
    }
    assert(s@.subrange(i as int, i + m as int) =~= pat@);
    true
}

/// First occurrence of `pat` as a contiguous substring of `s`.
pub fn find_sub_str(s: &str, pat: &str) -> (r: Option<usize>)
    ensures
        match find_sub(s@, pat@) {
            Some(i) => r == Some(i as usize),
            None => r is None,
        },
{
    let n = s.unicode_len();
    let m = pat.unicode_len();
    if m > n {
        proof {
            lemma_find_sub(s@, pat@);
            match find_sub(s@, pat@) {
                Some(k) => assert(match_at(s@, pat@, k)),
                None => {},
            }
        }
        return None;
    }
    if m == 0 {
        proof {
            assert(s@.subrange(0, 0) =~= pat@);
            lemma_find_sub_is(s@, pat@, 0);
        }
        return Some(0);
    }
    let mut i: usize = 0;
    while i <= n - m
        invariant
            n == s@.len(),
            m == pat@.len(),
            1 <= m <= n,
            0 <= i <= n - m + 1,
            forall|j: int| 0 <= j < i ==> !match_at(s@, pat@, j),
        decreases n - i,
    {
        if match_at_str(s, pat, i) {
            proof {
                lemma_find_sub_is(s@, pat@, i as int);
            }
            return Some(i);
        }
        i += 1;
    }
    assert(find_sub(s@, pat@) is None) by {
        lemma_find_sub(s@, pat@);
        match find_sub(s@, pat@) {
            Some(k) => {
                assert(match_at(s@, pat@, k));
                assert(0 <= k < i);
            },
            None => {},
        }
    }
    None
}

/// Split `s` on every occurrence of `sep`.
pub fn split_str(s: &str, sep: char) -> (r: Vec<String>)
    ensures
        r.deep_view() == split_char(s@, sep),
{
    let n = s.unicode_len();
    let mut r: Vec<String> = Vec::new();
    let mut seg_start: usize = 0;
    let mut i: usize = 0;
    proof {
        assert(s@.subrange(0, n as int) =~= s@);
        assert(r.deep_view() =~= Seq::<Seq<char>>::empty());
        assert(r.deep_view() + split_char(s@, sep) =~= split_char(s@, sep));
    }
    while i < n
        invariant
            n == s@.len(),
            0 <= seg_start <= i <= n,
            forall|j: int| seg_start <= j < i ==> s@[j] != sep,
            split_char(s@, sep) == r.deep_view() + split_char(
                s@.subrange(seg_start as int, n as int),
                sep,
            ),
        decreases n - i,
    {
        if s.get_char(i) == sep {
            let seg = String::from_str(s.substring_char(seg_start, i));
            proof {
                let tail = s@.subrange(seg_start as int, n as int);
                let k = i - seg_start;
                assert(tail[k as int] == sep);
                assert(forall|j: int| 0 <= j < k ==> tail[j] == s@[seg_start + j] && tail[j] != sep);
                lemma_find_ch_is(tail, sep, k as int);
                assert(tail.subrange(0, k as int) =~= s@.subrange(seg_start as int, i as int));
                assert(tail.subrange(k + 1, tail.len() as int) =~= s@.subrange(
                    i + 1 as int,
                    n as int,
                ));
                let old_dv = r.deep_view();
                let pushed = r@.push(seg);
                assert(Seq::new(pushed.len(), |q: int| pushed[q].deep_view()) =~= old_dv.push(
                    seg@,
                ));
                assert(old_dv + split_char(tail, sep) =~= old_dv.push(seg@) + split_char(
                    s@.subrange(i + 1 as int, n as int),
                    sep,
                ));
            }
            r.push(seg);
            seg_start = i + 1;
        }
        i += 1;
    }
    let seg = String::from_str(s.substring_char(seg_start, n));
    proof {
        let tail = s@.subrange(seg_start as int, n as int);
        lemma_find_ch(tail, sep);
        match find_ch(tail, sep) {
            Some(k) => {
                assert(tail[k] == s@[seg_start + k]);
                assert(false);
            },
            None => {},
        }
        let old_dv = r.deep_view();
        let pushed = r@.push(seg);
        assert(Seq::new(pushed.len(), |q: int| pushed[q].deep_view()) =~= old_dv.push(seg@));
        assert(old_dv + split_char(tail, sep) =~= old_dv.push(seg@));
    }
    r.push(seg);
    r
}

/// Join parts with the one-character separator `sep`.
pub fn join_str(parts: &Vec<String>, sep: &str) -> (r: String)
    requires
        sep@.len() == 1,
    ensures
        r@ == join_char(parts.deep_view(), sep@[0]),
{
    let mut r = String::new();
    let n = parts.len();
    let mut i: usize = 0;
    proof {
        assert(parts.deep_view().subrange(0, 0) =~= Seq::<Seq<char>>::empty());
    }
    while i < n
        invariant
            n == parts@.len(),
            sep@.len() == 1,
            0 <= i <= n,
            r@ == join_char(parts.deep_view().subrange(0, i as int), sep@[0]),
        decreases n - i,
    {
        if i > 0 {
            r.append(sep);
        }
        r.append(parts[i].as_str());
        proof {
            let dv = parts.deep_view();
            let pre = dv.subrange(0, i as int);
            lemma_join_push(pre, dv[i as int], sep@[0]);
            assert(dv.subrange(0, i + 1 as int) =~= pre.push(dv[i as int]));
            assert(dv[i as int] == parts@[i as int]@);
            if i == 0 {
                assert(r@ =~= dv[0]);
            } else {
                assert(seq![sep@[0]] =~= sep@);
                assert(r@ =~= join_char(pre, sep@[0]) + seq![sep@[0]] + dv[i as int]);
            }
        }
        i += 1;
    }
    proof {
        let dv = parts.deep_view();
        assert(dv.subrange(0, n as int) =~= dv);
    }
    r
}

/// Strip whitespace from both ends.
pub fn trim_str<'a>(s: &'a str) -> (r: &'a str)
    ensures
        r@ == trim_spec(s@),
{
    let n = s.unicode_len();
    let mut a: usize = 0;
    proof {
        assert(s@.subrange(0, n as int) =~= s@);
    }
    while a < n && is_trim_space_exec(s.get_char(a))
        invariant
            n == s@.len(),
            0 <= a <= n,
            trim_start_spec(s@) == trim_start_spec(s@.subrange(a as int, n as int)),
        decreases n - a,
    {
        proof {
            let cur = s@.subrange(a as int, n as int);
            assert(cur[0] == s@[a as int]);
            assert(cur.drop_first() =~= s@.subrange(a + 1 as int, n as int));
        }
        a += 1;
    }
    proof {
        let cur = s@.subrange(a as int, n as int);
        if a < n {
            assert(cur[0] == s@[a as int]);
        }
        assert(trim_start_spec(cur) == cur);
    }
    let mut b: usize = n;
    while b > a && is_trim_space_exec(s.get_char(b - 1))
        invariant
            n == s@.len(),
            0 <= a <= b <= n,
            trim_start_spec(s@) == s@.subrange(a as int, n as int),
            trim_end_spec(s@.subrange(a as int, n as int)) == trim_end_spec(
                s@.subrange(a as int, b as int),
            ),
        decreases b,
    {
        proof {
            let cur = s@.subrange(a as int, b as int);
            assert(cur.last() == s@[b - 1]);
            assert(cur.drop_last() =~= s@.subrange(a as int, b - 1));
        }
        b -= 1;
    }
    proof {
        let cur = s@.subrange(a as int, b as int);
        if b > a {
            assert(cur.last() == s@[b - 1]);
        }
        assert(trim_end_spec(cur) == cur);
    }
    s.substring_char(a, b)
}

/// Whitespace test used by `trim_str`.
pub fn is_trim_space_exec(c: char) -> (r: bool)
    ensures
        r == is_trim_space(c),
{
    c == ' ' || c == '\t' || c == '\r' || c == '\u{b}' || c == '\u{c}' || c == '\n'
}

/// Whitespace test matching `is_space_char`.
pub fn is_space_char_exec(c: char) -> (r: bool)
    ensures
        r == is_space_char(c),
{
    c == ' ' || c == '\t' || c == '\r' || c == '\u{b}' || c == '\u{c}'
}

/// Parse an unsigned 32-bit decimal number.
pub fn parse_u32_str(s: &str) -> (r: Option<u32>)
    ensures
        r == parse_u32_spec(s@),
{
    let n = s.unicode_len();
    let start: usize = if n > 0 && s.get_char(0) == '+' {
        1
    } else {
        0
    };
    let ghost body = if s@.len() > 0 && s@[0] == '+' {
        s@.drop_first()
    } else {
        s@
    };
    proof {
        assert(body =~= s@.subrange(start as int, n as int));
    }
    if start == n {
        return None;
    }
    let mut acc: u64 = 0;
    let mut i: usize = start;
    while i < n
        invariant
            n == s@.len(),
            start <= i <= n,
            body == s@.subrange(start as int, n as int),
            parse_u32_spec(s@) == (if body.len() > 0 && all_digits(body) && digits_val(body)
                <= u32::MAX {
                Some(digits_val(body) as u32)
            } else {
                None
            }),
            acc <= u32::MAX,
            all_digits(body.subrange(0, (i - start) as int)),
            acc == digits_val(body.subrange(0, (i - start) as int)),
        decreases n - i,
    {
        let c = s.get_char(i);
        let cv = c as u32;
        if cv < 48 || cv > 57 {
            assert(body[(i - start) as int] == c);
            assert(!is_digit_char(body[(i - start) as int]));
            assert(!all_digits(body));
            return None;
        }
        let d = (cv - 48) as u64;
        let next: u64 = acc * 10 + d;
        proof {
            let k = (i - start) as int;
            let pre = body.subrange(0, k);
            let pre2 = body.subrange(0, k + 1);
            assert(pre2.drop_last() =~= pre);
            assert(pre2.last() == body[k] == c);
            assert(digits_val(pre2) == digits_val(pre) * 10 + digit_val(c));
            assert(next == digits_val(pre2));
        }
        if next > u32::MAX as u64 {
            proof {
                lemma_digits_val_prefix(body, (i - start) + 1);
                assert(digits_val(body) > u32::MAX);
            }
            return None;
        }
        acc = next;
        i += 1;
    }
    proof {
        assert(body.subrange(0, (n - start) as int) =~= body);
    }
    Some(acc as u32)
}

/// A digit sequence's value never shrinks when digits are appended.
pub proof fn lemma_digits_val_prefix(s: Seq<char>, k: int)
    requires
        0 <= k <= s.len(),
    ensures
        digits_val(s.subrange(0, k)) <= digits_val(s),
    decreases s.len(),
{
    if k == s.len() {
        assert(s.subrange(0, k) =~= s);
    } else {
        lemma_digits_val_prefix(s.drop_last(), k);
        assert(s.drop_last().subrange(0, k) =~= s.subrange(0, k));
        assert(digits_val(s) == digits_val(s.drop_last()) * 10 + digit_val(s.last()));
        assert(digits_val(s.drop_last()) * 10 >= digits_val(s.drop_last())) by (nonlinear_arith);
    }
}

} // verus!
