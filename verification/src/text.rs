//! Character-level text helpers with their meaning stated over `Seq<char>`.
use vstd::prelude::*;

verus! {

/// Unicode White_Space, the set that `str::trim` removes.
pub open spec fn is_ws(c: char) -> bool {
    c == '\t' || c == '\n' || c == '\u{0B}' || c == '\u{0C}' || c == '\r' || c == ' ' || c
        == '\u{85}' || c == '\u{A0}' || c == '\u{1680}' || ('\u{2000}' <= c && c <= '\u{200A}')
        || c == '\u{2028}' || c == '\u{2029}' || c == '\u{202F}' || c == '\u{205F}' || c
        == '\u{3000}'
}

/// Whether a character is Unicode white space.
pub fn is_whitespace(c: char) -> (r: bool)
    ensures
        r == is_ws(c),
{
    c == '\t' || c == '\n' || c == '\u{0B}' || c == '\u{0C}' || c == '\r' || c == ' ' || c
        == '\u{85}' || c == '\u{A0}' || c == '\u{1680}' || ('\u{2000}' <= c && c <= '\u{200A}')
        || c == '\u{2028}' || c == '\u{2029}' || c == '\u{202F}' || c == '\u{205F}' || c
        == '\u{3000}'
}

/// `s` without its leading white space.
pub open spec fn trim_start(s: Seq<char>) -> Seq<char>
    decreases s.len(),
{
    if s.len() > 0 && is_ws(s[0]) {
        trim_start(s.drop_first())
    } else {
        s
    }
}

/// `s` without its trailing white space.
pub open spec fn trim_end(s: Seq<char>) -> Seq<char>
    decreases s.len(),
{
    if s.len() > 0 && is_ws(s.last()) {
        trim_end(s.drop_last())
    } else {
        s
    }
}

/// `s` without leading and trailing white space.
pub open spec fn trim(s: Seq<char>) -> Seq<char> {
    trim_end(trim_start(s))
}

proof fn lemma_trim_start_skip(s: Seq<char>, i: int)
    requires
        0 <= i <= s.len(),
        forall|k: int| 0 <= k < i ==> is_ws(#[trigger] s[k]),
    ensures
        trim_start(s) == trim_start(s.skip(i)),
    decreases i,
{
    if i > 0 {
        assert(s.drop_first().skip(i - 1) =~= s.skip(i));
        lemma_trim_start_skip(s.drop_first(), i - 1);
    } else {
        assert(s.skip(0) =~= s);
    }
}

proof fn lemma_trim_end_take(s: Seq<char>, j: int)
    requires
        0 <= j <= s.len(),
        forall|k: int| j <= k < s.len() ==> is_ws(#[trigger] s[k]),
    ensures
        trim_end(s) == trim_end(s.take(j)),
    decreases s.len() - j,
{
    if j < s.len() {
        assert(s.drop_last().take(j) =~= s.take(j));
        lemma_trim_end_take(s.drop_last(), j);
    } else {
        assert(s.take(j) =~= s);
    }
}

/// The character positions that `trim` keeps: `start..end`.
fn trim_bounds(s: &str) -> (r: (usize, usize))
    ensures
        r.0 <= r.1 <= s@.len(),
        s@.subrange(r.0 as int, r.1 as int) == trim(s@),
        trim_start(s@) == s@.skip(r.0 as int),
{
    let n = s.unicode_len();
    let mut start: usize = 0;
    while start < n && is_whitespace(s.get_char(start))
        invariant
            n == s@.len(),
            start <= n,
            forall|k: int| 0 <= k < start ==> is_ws(#[trigger] s@[k]),
        decreases n - start,
    {
        start = start + 1;
    }
    proof {
        lemma_trim_start_skip(s@, start as int);
    }
    let ghost rest = s@.skip(start as int);
    assert(trim_start(rest) == rest);
    assert(trim_start(s@) == rest);
    let mut end: usize = n;
    while end > start && is_whitespace(s.get_char(end - 1))
        invariant
            n == s@.len(),
            start <= end <= n,
            forall|k: int| end <= k < n ==> is_ws(#[trigger] s@[k]),
        decreases end,
    {
        end = end - 1;
    }
    proof {
        let len = (end - start) as int;
        assert forall|k: int| len <= k < rest.len() implies is_ws(#[trigger] rest[k]) by {
            assert(rest[k] == s@[start + k]);
        }
        lemma_trim_end_take(rest, len);
        let t = rest.take(len);
        assert(t =~= s@.subrange(start as int, end as int));
        assert(trim_end(t) == t);
    }
    (start, end)
}

/// `s` without leading and trailing white space.
pub fn trim_str(s: &str) -> (r: &str)
    ensures
        r@ == trim(s@),
{
    let (start, end) = trim_bounds(s);
    s.substring_char(start, end)
}

/// `s` without trailing white space.
pub fn trim_end_str(s: &str) -> (r: &str)
    ensures
        r@ == trim_end(s@),
{
    let n = s.unicode_len();
    let mut end: usize = n;
    while end > 0 && is_whitespace(s.get_char(end - 1))
        invariant
            n == s@.len(),
            end <= n,
            forall|k: int| end <= k < n ==> is_ws(#[trigger] s@[k]),
        decreases end,
    {
        end = end - 1;
    }
    proof {
        lemma_trim_end_take(s@, end as int);
        assert(trim_end(s@.take(end as int)) == s@.take(end as int));
        assert(s@.subrange(0, end as int) =~= s@.take(end as int));
    }
    s.substring_char(0, end)
}

/// Whether two strings hold the same characters.
pub fn str_eq(a: &str, b: &str) -> (r: bool)
    ensures
        r == (a@ == b@),
{
    let n = a.unicode_len();
    if n != b.unicode_len() {
        return false;
    }
    let mut i: usize = 0;
    while i < n
        invariant
            n == a@.len(),
            n == b@.len(),
            i <= n,
            forall|k: int| 0 <= k < i ==> a@[k] == b@[k],
        decreases n - i,
    {
        if a.get_char(i) != b.get_char(i) {
            return false;
        }
        i = i + 1;
    }
    assert(a@ =~= b@);
    true
}

/// ASCII upper case of one character; other characters are kept.
pub open spec fn ascii_upper(c: char) -> char {
    if 'a' <= c && c <= 'z' {
        ((c as u32) - 32) as char
    } else {
        c
    }
}

/// ASCII lower case of one character; other characters are kept.
pub open spec fn ascii_lower(c: char) -> char {
    if 'A' <= c && c <= 'Z' {
        ((c as u32) + 32) as char
    } else {
        c
    }
}

/// `s` with ASCII letters in upper case.
pub open spec fn upper(s: Seq<char>) -> Seq<char> {
    Seq::new(s.len(), |i: int| ascii_upper(s[i]))
}

/// ASCII upper case of one character.
pub fn to_ascii_upper(c: char) -> (r: char)
    ensures
        r == ascii_upper(c),
{
    if 'a' <= c && c <= 'z' {
        ((c as u8) - 32) as char
    } else {
        c
    }
}

/// ASCII lower case of one character.
pub fn to_ascii_lower(c: char) -> (r: char)
    ensures
        r == ascii_lower(c),
{
    if 'A' <= c && c <= 'Z' {
        ((c as u8) + 32) as char
    } else {
        c
    }
}


/// Whether `s` ends with `suffix`.
pub open spec fn ends_with(s: Seq<char>, suffix: Seq<char>) -> bool {
    suffix.len() <= s.len() && s.subrange(s.len() - suffix.len(), s.len() as int) == suffix
}

/// Whether `s` ends with `(`, `name`, `)`.
pub fn ends_with_parenthesized(s: &str, name: &str) -> (r: bool)
    ensures
        r == ends_with(s@, seq!['('] + name@ + seq![')']),
{
    let ghost suffix = seq!['('] + name@ + seq![')'];
    let n = s.unicode_len();
    let m = name.unicode_len();
    if m > n || n - m < 2 {
        return false;
    }
    let start = n - m - 2;
    if s.get_char(start) != '(' || s.get_char(n - 1) != ')' {
        assert(!(s@.subrange(start as int, n as int) =~= suffix)) by {
            if s@.subrange(start as int, n as int) =~= suffix {
                assert(s@.subrange(start as int, n as int)[0] == suffix[0]);
                assert(s@.subrange(start as int, n as int)[m as int + 1] == suffix[m as int + 1]);
            }
        }
        return false;
    }
    let mut i: usize = 0;
    while i < m
        invariant
            n == s@.len(),
            m == name@.len(),
            start + m + 2 == n,
            suffix == seq!['('] + name@ + seq![')'],
            suffix.len() == m + 2,
            s@[start as int] == '(',
            s@[n - 1] == ')',
            i <= m,
            forall|k: int| 0 <= k < i ==> s@[start + 1 + k] == name@[k],
        decreases m - i,
    {
        if s.get_char(start + 1 + i) != name.get_char(i) {
            assert(!(s@.subrange(start as int, n as int) =~= suffix)) by {
                if s@.subrange(start as int, n as int) =~= suffix {
                    assert(s@.subrange(start as int, n as int)[i as int + 1] == suffix[i as int + 1]);
                }
            }
            return false;
        }
        i = i + 1;
    }
    assert(s@.subrange(start as int, n as int) =~= suffix);
    true
}

/// Equal up to ASCII case.
pub open spec fn eq_ignore_ascii_case(a: Seq<char>, b: Seq<char>) -> bool {
    a.len() == b.len() && forall|k: int| 0 <= k < a.len() ==> ascii_lower(#[trigger] a[k]) == ascii_lower(b[k])
}

/// Whether two strings are equal up to ASCII case.
pub fn str_eq_ignore_ascii_case(a: &str, b: &str) -> (r: bool)
    ensures
        r == eq_ignore_ascii_case(a@, b@),
{
    let n = a.unicode_len();
    if n != b.unicode_len() {
        return false;
    }
    let mut i: usize = 0;
    while i < n
        invariant
            n == a@.len(),
            n == b@.len(),
            i <= n,
            forall|k: int| 0 <= k < i ==> ascii_lower(#[trigger] a@[k]) == ascii_lower(b@[k]),
        decreases n - i,
    {
        if to_ascii_lower(a.get_char(i)) != to_ascii_lower(b.get_char(i)) {
            return false;
        }
        i = i + 1;
    }
    true
}

/// `marker` occurs in `s` at position `i`.
pub open spec fn occurs_at(s: Seq<char>, marker: Seq<char>, i: int) -> bool {
    0 <= i && i + marker.len() <= s.len() && s.subrange(i, i + marker.len()) == marker
}

/// The first position of `marker` in `s`.
#[verifier::opaque]
pub open spec fn first_occurrence(s: Seq<char>, marker: Seq<char>) -> Option<int> {
    if exists|i: int| #[trigger] occurs_at(s, marker, i) {
        Some(
            choose|i: int|
                #[trigger] occurs_at(s, marker, i) && forall|j: int|
                    0 <= j < i ==> !occurs_at(s, marker, j),
        )
    } else {
        None
    }
}

/// Finds the first position of `marker` in the ASCII upper case of `s`.
pub fn find_in_upper(s: &str, marker: &str) -> (r: Option<usize>)
    ensures
        r matches Some(i) ==> first_occurrence(upper(s@), marker@) == Some(i as int),
        r is None ==> first_occurrence(upper(s@), marker@) is None,
        r matches Some(i) ==> occurs_at(upper(s@), marker@, i as int),
        r is Some <==> exists|i: int| #[trigger] occurs_at(upper(s@), marker@, i),
{
    reveal(first_occurrence);
    let ghost u = upper(s@);
    let n = s.unicode_len();
    let m = marker.unicode_len();
    if m > n {
        assert(forall|i: int| !#[trigger] occurs_at(u, marker@, i));
        reveal(first_occurrence);
        return None;
    }
    let last = n - m;
    let mut i: usize = 0;
    loop
        invariant
            n == s@.len(),
            m == marker@.len(),
            m <= n,
            last == n - m,
            u == upper(s@),
            i <= last,
            forall|j: int| 0 <= j < i ==> !#[trigger] occurs_at(u, marker@, j),
        decreases last - i,
    {
        let mut k: usize = 0;
        let mut matched = true;
        while k < m
            invariant
                n == s@.len(),
                m == marker@.len(),
                i + m <= n,
                u == upper(s@),
                k <= m,
                matched ==> forall|q: int| 0 <= q < k ==> u[i + q] == marker@[q],
                !matched ==> !occurs_at(u, marker@, i as int),
            decreases m - k,
        {
            if to_ascii_upper(s.get_char(i + k)) != marker.get_char(k) {
                matched = false;
                assert(!occurs_at(u, marker@, i as int)) by {
                    if occurs_at(u, marker@, i as int) {
                        assert(u.subrange(i as int, i + m)[k as int] == marker@[k as int]);
                    }
                }
                k = m;
            } else {
                k = k + 1;
            }
        }
        if matched {
            assert(u.subrange(i as int, i + m) =~= marker@);
            assert(occurs_at(u, marker@, i as int));
            reveal(first_occurrence);
            let ghost c = first_occurrence(u, marker@).unwrap();
            assert(c == i as int) by {
                if c < i as int {
                    assert(!occurs_at(u, marker@, c));
                } else if c > i as int {
                    assert(!occurs_at(u, marker@, i as int));
                }
            }
            return Some(i);
        }
        if i == last {
            assert forall|j: int| !#[trigger] occurs_at(u, marker@, j) by {
                if 0 <= j && j + m <= n {
                    assert(j <= i);
                }
            }
            reveal(first_occurrence);
            return None;
        }
        i = i + 1;
    }
}

/// Whether `marker` occurs in `s` at position `i`.
fn occurs_at_exec(s: &str, marker: &str, i: usize) -> (r: bool)
    requires
        i <= s@.len(),
    ensures
        r == occurs_at(s@, marker@, i as int),
{
    let n = s.unicode_len();
    let m = marker.unicode_len();
    if m > n - i {
        return false;
    }
    let mut k: usize = 0;
    while k < m
        invariant
            n == s@.len(),
            m == marker@.len(),
            i + m <= n,
            k <= m,
            forall|q: int| 0 <= q < k ==> s@[i + q] == marker@[q],
        decreases m - k,
    {
        if s.get_char(i + k) != marker.get_char(k) {
            assert(!occurs_at(s@, marker@, i as int)) by {
                if occurs_at(s@, marker@, i as int) {
                    assert(s@.subrange(i as int, i + m)[k as int] == marker@[k as int]);
                }
            }
            return false;
        }
        k = k + 1;
    }
    assert(s@.subrange(i as int, i + m) =~= marker@);
    true
}

/// Whether `s` contains `needle`.
pub fn contains_str(s: &str, needle: &str) -> (r: bool)
    ensures
        r == (exists|i: int| #[trigger] occurs_at(s@, needle@, i)),
{
    let n = s.unicode_len();
    let m = needle.unicode_len();
    if m > n {
        assert(forall|i: int| !#[trigger] occurs_at(s@, needle@, i));
        return false;
    }
    let last = n - m;
    let mut i: usize = 0;
    loop
        invariant
            n == s@.len(),
            m == needle@.len(),
            m <= n,
            last == n - m,
            i <= last,
            forall|j: int| 0 <= j < i ==> !#[trigger] occurs_at(s@, needle@, j),
        decreases last - i,
    {
        if occurs_at_exec(s, needle, i) {
            return true;
        }
        if i == last {
            assert forall|j: int| !#[trigger] occurs_at(s@, needle@, j) by {
                if 0 <= j && j + m <= n {
                    assert(j <= i);
                }
            }
            return false;
        }
        i = i + 1;
    }
}

/// Whether the ASCII upper case of `s` contains `marker`.
pub fn contains_in_upper(s: &str, marker: &str) -> (r: bool)
    ensures
        r == (exists|i: int| #[trigger] occurs_at(upper(s@), marker@, i)),
{
    find_in_upper(s, marker).is_some()
}

/// Hexadecimal digit (0-9, A-F, a-f).
pub open spec fn is_hex_char(c: char) -> bool {
    ('0' <= c && c <= '9') || ('A' <= c && c <= 'F') || ('a' <= c && c <= 'f')
}

/// Value of a hexadecimal digit.
pub open spec fn hex_char_value(c: char) -> nat {
    if '0' <= c && c <= '9' {
        (c as u32 - '0' as u32) as nat
    } else if 'A' <= c && c <= 'F' {
        (c as u32 - 'A' as u32 + 10) as nat
    } else {
        (c as u32 - 'a' as u32 + 10) as nat
    }
}

/// Number of leading hexadecimal digits.
pub open spec fn hex_run(s: Seq<char>) -> nat
    decreases s.len(),
{
    if s.len() > 0 && is_hex_char(s[0]) {
        1 + hex_run(s.drop_first())
    } else {
        0
    }
}

/// Value of a string of hexadecimal digits.
pub open spec fn hex_value(s: Seq<char>) -> nat
    decreases s.len(),
{
    if s.len() == 0 {
        0
    } else {
        hex_value(s.drop_last()) * 16 + hex_char_value(s.last())
    }
}

/// Digits as `i32::from_str_radix(_, 16)` reads them: none or too large is
/// no number.
pub open spec fn parse_hex_i32(digits: Seq<char>) -> Option<i32> {
    if digits.len() == 0 || hex_value(digits) > i32::MAX {
        None
    } else {
        Some(hex_value(digits) as i32)
    }
}

proof fn lemma_hex_run(s: Seq<char>, i: int)
    requires
        0 <= i <= s.len(),
        forall|k: int| 0 <= k < i ==> is_hex_char(#[trigger] s[k]),
        i == s.len() || !is_hex_char(s[i]),
    ensures
        hex_run(s) == i,
    decreases i,
{
    if i > 0 {
        lemma_hex_run(s.drop_first(), i - 1);
    }
}

proof fn lemma_hex_value_grows(s: Seq<char>, k: int)
    requires
        0 <= k <= s.len(),
    ensures
        hex_value(s.take(k)) <= hex_value(s),
    decreases s.len() - k,
{
    if k < s.len() {
        assert(s.drop_last().take(k) =~= s.take(k));
        lemma_hex_value_grows(s.drop_last(), k);
    } else {
        assert(s.take(k) =~= s);
    }
}

/// Whether a character is a hexadecimal digit.
pub fn is_hex_digit(c: char) -> (r: bool)
    ensures
        r == is_hex_char(c),
{
    ('0' <= c && c <= '9') || ('A' <= c && c <= 'F') || ('a' <= c && c <= 'f')
}

/// Value of one hexadecimal digit character.
pub fn hex_digit(c: char) -> (r: u32)
    requires
        is_hex_char(c),
    ensures
        r as nat == hex_char_value(c),
        r < 16,
{
    if '0' <= c && c <= '9' {
        (c as u32) - ('0' as u32)
    } else if 'A' <= c && c <= 'F' {
        (c as u32) - ('A' as u32) + 10
    } else {
        (c as u32) - ('a' as u32) + 10
    }
}

/// Reads the hexadecimal number that follows the first `marker` in the ASCII
/// upper case of `s`.
pub open spec fn spec_hex_after_marker(s: Seq<char>, marker: Seq<char>) -> Option<i32> {
    match first_occurrence(upper(s), marker) {
        Some(i) => {
            let rest = upper(s).skip(i + marker.len());
            parse_hex_i32(rest.take(hex_run(rest) as int))
        },
        None => None,
    }
}

/// Reads the hexadecimal digits of the ASCII upper case of `path` from
/// position `start` on.
fn hex_from(path: &str, start: usize) -> (r: Option<i32>)
    requires
        start <= path@.len(),
    ensures
        ({
            let rest = upper(path@).skip(start as int);
            r == parse_hex_i32(rest.take(hex_run(rest) as int))
        }),
{
    let ghost u = upper(path@);
    let ghost rest = u.skip(start as int);
    let n = path.unicode_len();
    let mut end: usize = start;
    let mut value: u64 = 0;
    let mut overflow = false;
    assert(rest.take(0) =~= Seq::<char>::empty());
    while end < n && is_hex_digit(to_ascii_upper(path.get_char(end)))
        invariant
            n == path@.len(),
            u == upper(path@),
            rest == u.skip(start as int),
            start <= end <= n,
            forall|k: int| start <= k < end ==> is_hex_char(#[trigger] u[k]),
            !overflow ==> value as nat == hex_value(rest.take(end - start)),
            !overflow ==> value <= i32::MAX,
            overflow ==> hex_value(rest.take(end - start)) > i32::MAX,
        decreases n - end,
    {
        let c = to_ascii_upper(path.get_char(end));
        let d = hex_digit(c);
        let ghost prev = rest.take(end - start);
        assert(rest.take(end + 1 - start).drop_last() =~= prev);
        assert(rest.take(end + 1 - start).last() == c);
        if !overflow {
            value = value * 16 + d as u64;
            if value > 0x7FFF_FFFF {
                overflow = true;
            }
        } else {
            assert(hex_value(rest.take(end + 1 - start)) >= hex_value(prev) * 16);
        }
        end = end + 1;
    }
    proof {
        let run = (end - start) as int;
        assert forall|k: int| 0 <= k < run implies is_hex_char(#[trigger] rest[k]) by {
            assert(rest[k] == u[start + k]);
        }
        if end < n {
            assert(rest[run] == u[end as int]);
        }
        lemma_hex_run(rest, run);
    }
    if end == start || overflow {
        None
    } else {
        Some(value as i32)
    }
}

/// Reads the hexadecimal number after `marker` in `path` (ASCII case ignored).
pub fn parse_hex_after_marker(path: &str, marker: &str) -> (r: Option<i32>)
    ensures
        r == spec_hex_after_marker(path@, marker@),
{
    let n = path.unicode_len();
    match find_in_upper(path, marker) {
        Some(i) => {
            assert(occurs_at(upper(path@), marker@, i as int));
            assert(upper(path@).len() == n);
            hex_from(path, i + marker.unicode_len())
        },
        None => None,
    }
}


/// The character of a hexadecimal digit value (upper case).
pub open spec fn hex_char(d: nat) -> char {
    if d == 0 {
        '0'
    } else if d == 1 {
        '1'
    } else if d == 2 {
        '2'
    } else if d == 3 {
        '3'
    } else if d == 4 {
        '4'
    } else if d == 5 {
        '5'
    } else if d == 6 {
        '6'
    } else if d == 7 {
        '7'
    } else if d == 8 {
        '8'
    } else if d == 9 {
        '9'
    } else if d == 10 {
        'A'
    } else if d == 11 {
        'B'
    } else if d == 12 {
        'C'
    } else if d == 13 {
        'D'
    } else if d == 14 {
        'E'
    } else {
        'F'
    }
}

/// A one-character string holding a hexadecimal digit.
fn digit_str(d: u32) -> (s: &'static str)
    requires
        d < 16,
    ensures
        s@ == seq![hex_char(d as nat)],
{
    if d == 0 {
        proof {
            reveal_strlit("0");
        }
        "0"
    } else if d == 1 {
        proof {
            reveal_strlit("1");
        }
        "1"
    } else if d == 2 {
        proof {
            reveal_strlit("2");
        }
        "2"
    } else if d == 3 {
        proof {
            reveal_strlit("3");
        }
        "3"
    } else if d == 4 {
        proof {
            reveal_strlit("4");
        }
        "4"
    } else if d == 5 {
        proof {
            reveal_strlit("5");
        }
        "5"
    } else if d == 6 {
        proof {
            reveal_strlit("6");
        }
        "6"
    } else if d == 7 {
        proof {
            reveal_strlit("7");
        }
        "7"
    } else if d == 8 {
        proof {
            reveal_strlit("8");
        }
        "8"
    } else if d == 9 {
        proof {
            reveal_strlit("9");
        }
        "9"
    } else if d == 10 {
        proof {
            reveal_strlit("A");
        }
        "A"
    } else if d == 11 {
        proof {
            reveal_strlit("B");
        }
        "B"
    } else if d == 12 {
        proof {
            reveal_strlit("C");
        }
        "C"
    } else if d == 13 {
        proof {
            reveal_strlit("D");
        }
        "D"
    } else if d == 14 {
        proof {
            reveal_strlit("E");
        }
        "E"
    } else {
        proof {
            reveal_strlit("F");
        }
        "F"
    }
}

/// Four upper-case hexadecimal digits, as `{:04X}` writes a `u16`.
pub open spec fn hex4(v: u16) -> Seq<char> {
    seq![
        hex_char((v / 4096) as nat),
        hex_char(((v / 256) % 16) as nat),
        hex_char(((v / 16) % 16) as nat),
        hex_char((v % 16) as nat),
    ]
}

/// Appends four upper-case hexadecimal digits of `v`.
pub fn append_hex4(out: &mut String, v: u16)
    ensures
        final(out)@ == old(out)@ + hex4(v),
{
    out.append(digit_str((v / 4096) as u32));
    out.append(digit_str(((v / 256) % 16) as u32));
    out.append(digit_str(((v / 16) % 16) as u32));
    out.append(digit_str((v % 16) as u32));
    assert(out@ =~= old(out)@ + hex4(v));
}

/// Decimal digits of `n`, as `{}` writes an unsigned number.
pub open spec fn decimal(n: nat) -> Seq<char>
    decreases n,
{
    if n < 10 {
        seq![hex_char(n)]
    } else {
        decimal(n / 10).push(hex_char(n % 10))
    }
}

/// Appends the decimal digits of `n`.
pub fn append_decimal(out: &mut String, n: u32)
    ensures
        final(out)@ == old(out)@ + decimal(n as nat),
    decreases n,
{
    if n >= 10 {
        append_decimal(out, n / 10);
    }
    out.append(digit_str(n % 10));
    assert(out@ =~= old(out)@ + decimal(n as nat));
}

/// `vvvv:pppp` in upper-case hexadecimal.
pub open spec fn vid_pid_text(vid: u16, pid: u16) -> Seq<char> {
    hex4(vid) + seq![':'] + hex4(pid)
}

/// Appends `vvvv:pppp` in upper-case hexadecimal.
pub fn append_vid_pid(out: &mut String, vid: u16, pid: u16)
    ensures
        final(out)@ == old(out)@ + vid_pid_text(vid, pid),
{
    append_hex4(out, vid);
    proof {
        reveal_strlit(":");
    }
    out.append(":");
    append_hex4(out, pid);
    assert(out@ =~= old(out)@ + vid_pid_text(vid, pid));
}

/// A string holding the characters of a string slice.
pub fn owned(s: &str) -> (r: String)
    ensures
        r@ == s@,
{
    String::from_str(s)
}

} // verus!
