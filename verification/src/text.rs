//! Character-level text operations: whitespace, trimming, lines, words,
//! splitting and decimal numbers.
use vstd::prelude::*;

verus! {

/// The Unicode `White_Space` property, as `char::is_whitespace` uses it.
pub open spec fn is_white(c: char) -> bool {
    let u = c as u32;
    (9 <= u <= 13) || u == 32 || u == 0x85 || u == 0xA0 || u == 0x1680 || (0x2000 <= u <= 0x200A)
        || u == 0x2028 || u == 0x2029 || u == 0x202F || u == 0x205F || u == 0x3000
}

/// `char::is_whitespace`.
pub fn is_whitespace(c: char) -> (b: bool)
    ensures
        b == is_white(c),
{
    let u = c as u32;
    (9 <= u && u <= 13) || u == 32 || u == 0x85 || u == 0xA0 || u == 0x1680 || (0x2000 <= u && u
        <= 0x200A) || u == 0x2028 || u == 0x2029 || u == 0x202F || u == 0x205F || u == 0x3000
}

/// The characters of a string slice.
pub fn chars_of(s: &str) -> (v: Vec<char>)
    ensures
        v@ == s@,
{
    let n = s.unicode_len();
    let mut v: Vec<char> = Vec::new();
    let mut i: usize = 0;
    while i < n
        invariant
            n == s@.len(),
            i <= n,
            v@ == s@.subrange(0, i as int),
        decreases n - i,
    {
        v.push(s.get_char(i));
        assert(s@.subrange(0, i + 1) == s@.subrange(0, i as int).push(s@[i as int]));
        i = i + 1;
    }
    assert(s@.subrange(0, n as int) == s@);
    v
}

/// The characters `s[from..to)` as an owned string.
pub fn substring(s: &str, from: usize, to: usize) -> (r: String)
    requires
        from <= to <= s@.len(),
    ensures
        r@ == s@.subrange(from as int, to as int),
{
    String::from_str(s.substring_char(from, to))
}

/// `needle` occurs in `hay` at index `i`.
pub open spec fn occurs_at(hay: Seq<char>, needle: Seq<char>, i: int) -> bool {
    0 <= i && i + needle.len() <= hay.len() && hay.subrange(i, i + needle.len()) == needle
}

/// `str::contains` with a string pattern.
pub open spec fn contains_text(hay: Seq<char>, needle: Seq<char>) -> bool {
    exists|i: int| occurs_at(hay, needle, i)
}

/// `str::starts_with`.
pub open spec fn starts_with(hay: Seq<char>, prefix: Seq<char>) -> bool {
    occurs_at(hay, prefix, 0)
}

/// `str::ends_with`.
pub open spec fn ends_with(hay: Seq<char>, suffix: Seq<char>) -> bool {
    occurs_at(hay, suffix, hay.len() - suffix.len())
}

/// Compares `hay[i..i + needle.len())` with `needle`.
pub fn occurs_at_exec(hay: &[char], needle: &[char], i: usize) -> (b: bool)
    ensures
        b == occurs_at(hay@, needle@, i as int),
{
    let n = hay.len();
    let m = needle.len();
    if i > n || m > n - i {
        return false;
    }
    let mut k: usize = 0;
    while k < m
        invariant
            n == hay@.len(),
            m == needle@.len(),
            i + m <= n,
            k <= m,
            forall|j: int| 0 <= j < k ==> hay@[i + j] == needle@[j],
        decreases m - k,
    {
        if hay[i + k] != needle[k] {
            assert(hay@.subrange(i as int, i + m)[k as int] != needle@[k as int]);
            return false;
        }
        k = k + 1;
    }
    assert(hay@.subrange(i as int, i + m) =~= needle@);
    true
}

/// The first index at or after `from` at which `needle` occurs.
pub open spec fn find_text(hay: Seq<char>, needle: Seq<char>, from: int) -> Option<int>
    decreases hay.len() + 1 - from,
{
    if from < 0 || from > hay.len() {
        None
    } else if occurs_at(hay, needle, from) {
        Some(from)
    } else {
        find_text(hay, needle, from + 1)
    }
}

pub proof fn lemma_find_text(hay: Seq<char>, needle: Seq<char>, from: int)
    requires
        0 <= from,
    ensures
        find_text(hay, needle, from) matches Some(k) ==> from <= k && occurs_at(hay, needle, k)
            && forall|j: int| from <= j < k ==> !occurs_at(hay, needle, j),
        find_text(hay, needle, from) is None ==> forall|j: int|
            from <= j ==> !occurs_at(hay, needle, j),
    decreases hay.len() + 1 - from,
{
    if from <= hay.len() && !occurs_at(hay, needle, from) {
        lemma_find_text(hay, needle, from + 1);
    }
}

/// Searches for `needle` in `hay` from index `from`.
pub fn find_text_exec(hay: &[char], needle: &[char], from: usize) -> (r: Option<usize>)
    ensures
        match r {
            Some(k) => find_text(hay@, needle@, from as int) == Some(k as int),
            None => find_text(hay@, needle@, from as int) is None,
        },
{
    let n = hay.len();
    if from > n {
        return None;
    }
    let mut i = from;
    while i <= n
        invariant
            n == hay@.len(),
            from <= i <= n + 1,
            find_text(hay@, needle@, from as int) == find_text(hay@, needle@, i as int),
        decreases n + 1 - i,
    {
        if occurs_at_exec(hay, needle, i) {
            return Some(i);
        }
        if i == n {
            assert(find_text(hay@, needle@, (n + 1) as int) is None);
            return None;
        }
        i = i + 1;
    }
    None
}

/// `str::contains` on character sequences.
pub fn contains_exec(hay: &[char], needle: &[char]) -> (b: bool)
    ensures
        b == contains_text(hay@, needle@),
{
    proof {
        lemma_find_text(hay@, needle@, 0);
    }
    find_text_exec(hay, needle, 0).is_some()
}

/// `str::starts_with` on character sequences.
pub fn starts_with_exec(hay: &[char], prefix: &[char]) -> (b: bool)
    ensures
        b == starts_with(hay@, prefix@),
{
    occurs_at_exec(hay, prefix, 0)
}

/// `str::ends_with` on character sequences.
pub fn ends_with_exec(hay: &[char], suffix: &[char]) -> (b: bool)
    ensures
        b == ends_with(hay@, suffix@),
{
    if suffix.len() > hay.len() {
        return false;
    }
    occurs_at_exec(hay, suffix, hay.len() - suffix.len())
}

/// The end of the whitespace run that starts at `i`.
pub open spec fn skip_white(s: Seq<char>, i: int) -> int
    decreases s.len() - i,
{
    if i < 0 || i >= s.len() || !is_white(s[i]) {
        i
    } else {
        skip_white(s, i + 1)
    }
}

/// The end of the non-whitespace run that starts at `i`.
pub open spec fn skip_word(s: Seq<char>, i: int) -> int
    decreases s.len() - i,
{
    if i < 0 || i >= s.len() || is_white(s[i]) {
        i
    } else {
        skip_word(s, i + 1)
    }
}

/// The start of the whitespace run that ends at `j` (exclusive), not before `lo`.
pub open spec fn back_white(s: Seq<char>, lo: int, j: int) -> int
    decreases j - lo,
{
    if j <= lo || j > s.len() || !is_white(s[j - 1]) {
        j
    } else {
        back_white(s, lo, j - 1)
    }
}

pub proof fn lemma_skip_white(s: Seq<char>, i: int)
    requires
        0 <= i <= s.len(),
    ensures
        i <= skip_white(s, i) <= s.len(),
        forall|k: int| i <= k < skip_white(s, i) ==> is_white(s[k]),
        skip_white(s, i) < s.len() ==> !is_white(s[skip_white(s, i)]),
    decreases s.len() - i,
{
    if i < s.len() && is_white(s[i]) {
        lemma_skip_white(s, i + 1);
    }
}

pub proof fn lemma_skip_word(s: Seq<char>, i: int)
    requires
        0 <= i <= s.len(),
    ensures
        i <= skip_word(s, i) <= s.len(),
        forall|k: int| i <= k < skip_word(s, i) ==> !is_white(s[k]),
        skip_word(s, i) < s.len() ==> is_white(s[skip_word(s, i)]),
    decreases s.len() - i,
{
    if i < s.len() && !is_white(s[i]) {
        lemma_skip_word(s, i + 1);
    }
}

pub proof fn lemma_back_white(s: Seq<char>, lo: int, j: int)
    requires
        0 <= lo <= j <= s.len(),
    ensures
        lo <= back_white(s, lo, j) <= j,
        forall|k: int| back_white(s, lo, j) <= k < j ==> is_white(s[k]),
        back_white(s, lo, j) > lo ==> !is_white(s[back_white(s, lo, j) - 1]),
    decreases j - lo,
{
    if j > lo && is_white(s[j - 1]) {
        lemma_back_white(s, lo, j - 1);
    }
}

/// `str::trim`: the text without leading and trailing whitespace.
pub open spec fn trim(s: Seq<char>) -> Seq<char> {
    let a = skip_white(s, 0);
    s.subrange(a, back_white(s, a, s.len() as int))
}

/// The trimmed bounds of `s[from..to)`.
pub fn trim_bounds(s: &[char], from: usize, to: usize) -> (r: (usize, usize))
    requires
        from <= to <= s@.len(),
    ensures
        r.0 == skip_white(s@.subrange(from as int, to as int), 0) + from,
        r.1 == back_white(
            s@.subrange(from as int, to as int),
            skip_white(s@.subrange(from as int, to as int), 0),
            to - from,
        ) + from,
        from <= r.0 <= r.1 <= to,
{
    let ghost sub = s@.subrange(from as int, to as int);
    let mut a = from;
    while a < to && is_whitespace(s[a])
        invariant
            from <= a <= to <= s@.len(),
            sub == s@.subrange(from as int, to as int),
            skip_white(sub, 0) == skip_white(sub, a - from),
        decreases to - a,
    {
        assert(sub[a - from] == s@[a as int]);
        a = a + 1;
    }
    let mut b = to;
    proof {
        lemma_skip_white(sub, 0);
    }
    while b > a && is_whitespace(s[b - 1])
        invariant
            from <= a <= b <= to <= s@.len(),
            sub == s@.subrange(from as int, to as int),
            a - from == skip_white(sub, 0),
            back_white(sub, a - from, to - from) == back_white(sub, a - from, b - from),
        decreases b - a,
    {
        assert(sub[b - 1 - from] == s@[b - 1]);
        b = b - 1;
    }
    (a, b)
}

/// `str::trim` of a whole string slice.
pub fn trim_str(s: &str) -> (r: String)
    ensures
        r@ == trim(s@),
{
    let v = chars_of(s);
    let (a, b) = trim_bounds(v.as_slice(), 0, v.len());
    assert(v@.subrange(0, v@.len() as int) == v@);
    substring(s, a, b)
}

/// The `(start, end)` bounds of the words of `s` from index `i` on, as `split_whitespace` yields them.
pub open spec fn word_bounds(s: Seq<char>, i: int) -> Seq<(int, int)>
    decreases s.len() - i,
{
    let a = skip_white(s, i);
    if i < 0 || a >= s.len() || a < i {
        seq![]
    } else {
        let b = skip_word(s, a);
        if b <= a || b > s.len() {
            seq![]
        } else {
            seq![(a, b)] + word_bounds(s, b)
        }
    }
}

/// `str::split_whitespace`.
pub open spec fn words(s: Seq<char>) -> Seq<Seq<char>> {
    word_bounds(s, 0).map_values(|p: (int, int)| s.subrange(p.0, p.1))
}

/// Converts each of `v` to its character sequence.
pub open spec fn views(v: Seq<String>) -> Seq<Seq<char>> {
    v.map_values(|x: String| x@)
}

/// `str::split_whitespace` of a string slice, collected.
pub fn split_words(s: &str) -> (r: Vec<String>)
    ensures
        views(r@) == words(s@),
{
    let v = chars_of(s);
    let n = v.len();
    let ghost sv = s@;
    let mut r: Vec<String> = Vec::new();
    let mut i: usize = 0;
    while i < n
        invariant
            n == sv.len(),
            sv == s@,
            v@ == sv,
            i <= n,
            views(r@) + word_bounds(sv, i as int).map_values(|p: (int, int)| sv.subrange(p.0, p.1))
                == words(sv),
        decreases n - i,
    {
        let mut a = i;
        while a < n && is_whitespace(v[a])
            invariant
                i <= a <= n,
                n == sv.len(),
                v@ == sv,
                skip_white(sv, i as int) == skip_white(sv, a as int),
            decreases n - a,
        {
            a = a + 1;
        }
        proof {
            lemma_skip_white(sv, i as int);
        }
        if a >= n {
            assert(word_bounds(sv, i as int) == Seq::<(int, int)>::empty());
            i = n;
            assert(word_bounds(sv, i as int) == Seq::<(int, int)>::empty());
            continue;
        }
        let mut b = a;
        while b < n && !is_whitespace(v[b])
            invariant
                a <= b <= n,
                n == sv.len(),
                v@ == sv,
                skip_word(sv, a as int) == skip_word(sv, b as int),
            decreases n - b,
        {
            b = b + 1;
        }
        proof {
            lemma_skip_word(sv, a as int);
        }
        let word = substring(s, a, b);
        let ghost old_r = r@;
        r.push(word);
        proof {
            let rest = word_bounds(sv, b as int);
            assert(word_bounds(sv, i as int) == seq![(a as int, b as int)] + rest);
            let f = |p: (int, int)| sv.subrange(p.0, p.1);
            assert((seq![(a as int, b as int)] + rest).map_values(f) =~= seq![sv.subrange(
                a as int,
                b as int,
            )] + rest.map_values(f));
            assert(views(r@) =~= views(old_r) + seq![sv.subrange(a as int, b as int)]);
        }
        i = b;
    }
    proof {
        assert(word_bounds(sv, i as int) == Seq::<(int, int)>::empty());
        assert(views(r@) + Seq::<Seq<char>>::empty() == views(r@));
    }
    r
}

/// The first index at or after `i` holding `c`.
pub open spec fn find_char(s: Seq<char>, c: char, i: int) -> Option<int>
    decreases s.len() - i,
{
    if i < 0 || i >= s.len() {
        None
    } else if s[i] == c {
        Some(i)
    } else {
        find_char(s, c, i + 1)
    }
}

pub proof fn lemma_find_char(s: Seq<char>, c: char, i: int)
    requires
        0 <= i,
    ensures
        find_char(s, c, i) matches Some(k) ==> i <= k < s.len() && s[k] == c && forall|j: int|
            i <= j < k ==> s[j] != c,
        find_char(s, c, i) is None ==> forall|j: int| i <= j < s.len() ==> s[j] != c,
    decreases s.len() - i,
{
    if i < s.len() && s[i] != c {
        lemma_find_char(s, c, i + 1);
    }
}

/// Searches for `c` from index `i`.
pub fn find_char_exec(s: &[char], c: char, i: usize) -> (r: Option<usize>)
    ensures
        match r {
            Some(k) => find_char(s@, c, i as int) == Some(k as int),
            None => find_char(s@, c, i as int) is None,
        },
{
    let mut k = i;
    let n = s.len();
    if k >= n {
        return None;
    }
    while k < n
        invariant
            n == s@.len(),
            i <= k <= n,
            find_char(s@, c, i as int) == find_char(s@, c, k as int),
        decreases n - k,
    {
        if s[k] == c {
            return Some(k);
        }
        k = k + 1;
    }
    None
}

/// The `(start, end)` bounds of the lines of `s` from index `i` on, as `str::lines`
/// yields them: split at `\n`, with a `\r` right before a `\n` left out.
pub open spec fn line_bounds(s: Seq<char>, i: int) -> Seq<(int, int)>
    decreases s.len() - i,
{
    if i < 0 || i >= s.len() {
        seq![]
    } else {
        match find_char(s, '\n', i) {
            None => seq![(i, s.len() as int)],
            Some(j) => {
                let end = if j > i && s[j - 1] == '\r' {
                    j - 1
                } else {
                    j
                };
                if j + 1 > i && j + 1 <= s.len() {
                    seq![(i, end)] + line_bounds(s, j + 1)
                } else {
                    seq![]
                }
            },
        }
    }
}

/// The number of `c` characters in `s`.
pub open spec fn count_char(s: Seq<char>, c: char) -> nat
    decreases s.len(),
{
    if s.len() == 0 {
        0
    } else {
        count_char(s.drop_last(), c) + if s.last() == c {
            1nat
        } else {
            0nat
        }
    }
}

/// Counts the `c` characters of `s[from..to)`.
pub fn count_char_exec(s: &[char], c: char, from: usize, to: usize) -> (r: usize)
    requires
        from <= to <= s@.len(),
    ensures
        r == count_char(s@.subrange(from as int, to as int), c),
{
    let mut k = from;
    let mut r: usize = 0;
    while k < to
        invariant
            from <= k <= to <= s@.len(),
            r == count_char(s@.subrange(from as int, k as int), c),
            r <= k - from,
        decreases to - k,
    {
        assert(s@.subrange(from as int, k + 1).drop_last() == s@.subrange(from as int, k as int));
        if s[k] == c {
            r = r + 1;
        }
        k = k + 1;
    }
    r
}

pub proof fn lemma_count_char_zero(s: Seq<char>, c: char)
    ensures
        count_char(s, c) == 0 <==> forall|j: int| 0 <= j < s.len() ==> s[j] != c,
    decreases s.len(),
{
    if s.len() > 0 {
        lemma_count_char_zero(s.drop_last(), c);
        if count_char(s, c) == 0 {
            assert forall|j: int| 0 <= j < s.len() implies s[j] != c by {
                if j < s.len() - 1 {
                    assert(s.drop_last()[j] == s[j]);
                }
            }
        }
        if forall|j: int| 0 <= j < s.len() ==> s[j] != c {
            assert forall|j: int| 0 <= j < s.drop_last().len() implies s.drop_last()[j] != c by {
                assert(s.drop_last()[j] == s[j]);
            }
        }
    }
}

/// The decimal value of a digit sequence.
pub open spec fn digits_value(s: Seq<char>) -> nat
    decreases s.len(),
{
    if s.len() == 0 {
        0
    } else {
        digits_value(s.drop_last()) * 10 + ((s.last() as u32) - 48) as nat
    }
}

pub open spec fn is_digit_char(c: char) -> bool {
    '0' <= c <= '9'
}

/// The text is a non-empty run of ASCII digits.
pub open spec fn all_digits(s: Seq<char>) -> bool {
    s.len() > 0 && forall|i: int| 0 <= i < s.len() ==> is_digit_char(#[trigger] s[i])
}

/// `u64::from_str`: an optional `+` followed by decimal digits whose value fits in `u64`.
pub open spec fn parse_u64(s: Seq<char>) -> Option<u64> {
    let body = if s.len() > 0 && s[0] == '+' {
        s.drop_first()
    } else {
        s
    };
    if all_digits(body) && digits_value(body) <= u64::MAX {
        Some(digits_value(body) as u64)
    } else {
        None
    }
}

/// `u32::from_str`.
pub open spec fn parse_u32(s: Seq<char>) -> Option<u32> {
    match parse_u64(s) {
        Some(v) => if v <= u32::MAX {
            Some(v as u32)
        } else {
            None
        },
        None => None,
    }
}

/// `usize::from_str`.
pub open spec fn parse_usize(s: Seq<char>) -> Option<usize> {
    match parse_u64(s) {
        Some(v) => if v <= usize::MAX {
            Some(v as usize)
        } else {
            None
        },
        None => None,
    }
}

/// Parses the decimal digits of `s[from..to)`, optionally preceded by `+`.
pub fn parse_u64_exec(s: &[char], from: usize, to: usize) -> (r: Option<u64>)
    requires
        from <= to <= s@.len(),
    ensures
        r == parse_u64(s@.subrange(from as int, to as int)),
{
    let ghost sub = s@.subrange(from as int, to as int);
    let mut start = from;
    if start < to && s[start] == '+' {
        start = start + 1;
    }
    let ghost body = s@.subrange(start as int, to as int);
    assert(body == (if sub.len() > 0 && sub[0] == '+' {
        sub.drop_first()
    } else {
        sub
    }));
    if start == to {
        return None;
    }
    let mut value: u64 = 0;
    let mut k = start;
    while k < to
        invariant
            from <= start < to <= s@.len(),
            start <= k <= to,
            sub == s@.subrange(from as int, to as int),
            body == s@.subrange(start as int, to as int),
            body == (if sub.len() > 0 && sub[0] == '+' {
                sub.drop_first()
            } else {
                sub
            }),
            forall|i: int| start <= i < k ==> is_digit_char(s@[i]),
            value == digits_value(s@.subrange(start as int, k as int)),
        decreases to - k,
    {
        let c = s[k];
        if !('0' <= c && c <= '9') {
            assert(!is_digit_char(body[k - start]));
            return None;
        }
        let d = (c as u32 - 48) as u64;
        assert(s@.subrange(start as int, k + 1).drop_last() == s@.subrange(start as int, k as int));
        assert(s@.subrange(start as int, k + 1).last() == c);
        assert(digits_value(s@.subrange(start as int, k + 1)) == value * 10 + d);
        assert(body.subrange(0, k + 1 - start) == s@.subrange(start as int, k + 1));
        if value > (u64::MAX - d) / 10 {
            proof {
                assert(digits_value(s@.subrange(start as int, k + 1)) > u64::MAX) by (
                nonlinear_arith)
                    requires
                        digits_value(s@.subrange(start as int, k + 1)) == value * 10 + d,
                        value > (u64::MAX - d) / 10,
                        d <= 9,
                ;
                lemma_prefix_value_bound(body, k + 1 - start);
            }
            return None;
        }
        value = value * 10 + d;
        k = k + 1;
    }
    assert(s@.subrange(start as int, to as int) == body);
    Some(value)
}

/// Extending a digit sequence never lowers its value.
proof fn lemma_prefix_value_bound(s: Seq<char>, n: int)
    requires
        0 <= n <= s.len(),
        forall|i: int| 0 <= i < s.len() ==> is_digit_char(#[trigger] s[i]) || true,
    ensures
        all_digits(s) ==> digits_value(s.subrange(0, n)) <= digits_value(s),
    decreases s.len() - n,
{
    if n < s.len() {
        lemma_prefix_value_bound(s, n + 1);
        if all_digits(s) {
            assert(s.subrange(0, n + 1).drop_last() == s.subrange(0, n));
            assert(is_digit_char(s[n]));
        }
    } else {
        assert(s.subrange(0, n) == s);
    }
}

/// The decimal digits of `n`, most significant first.
pub open spec fn decimal(n: nat) -> Seq<char>
    decreases n,
{
    if n < 10 {
        seq![(48 + n) as char]
    } else {
        decimal(n / 10).push((48 + n % 10) as char)
    }
}

/// The decimal text of a number, as `to_string` writes it.
pub fn decimal_string(n: u64) -> (r: String)
    ensures
        r@ == decimal(n as nat),
{
    let mut digits: Vec<char> = Vec::new();
    let mut m = n;
    while m >= 10
        invariant
            decimal(n as nat) == decimal(m as nat) + digits@.reverse(),
            forall|j: int| 0 <= j < digits@.len() ==> is_digit_char(#[trigger] digits@[j]),
        decreases m,
    {
        let d = (m % 10) as u32;
        let c = char_of_digit(d);
        assert(decimal(m as nat) == decimal((m / 10) as nat).push(c));
        digits.push(c);
        assert(digits@.reverse() =~= seq![c] + digits@.drop_last().reverse());
        m = m / 10;
    }
    let first = char_of_digit(m as u32);
    digits.push(first);
    assert(digits@.reverse() =~= seq![first] + digits@.drop_last().reverse());
    let mut r = String::new();
    let mut k = digits.len();
    while k > 0
        invariant
            k <= digits@.len(),
            forall|j: int| 0 <= j < digits@.len() ==> is_digit_char(#[trigger] digits@[j]),
            r@ == digits@.reverse().subrange(0, (digits@.len() - k) as int),
        decreases k,
    {
        k = k - 1;
        let s = digit_str(digits[k]);
        r.append(s);
        assert(digits@.reverse().subrange(0, (digits@.len() - k) as int) =~= digits@.reverse().subrange(
            0,
            (digits@.len() - k - 1) as int,
        ).push(digits@[k as int]));
    }
    assert(digits@.reverse().subrange(0, digits@.len() as int) == digits@.reverse());
    r
}

/// The digit character with value `d`.
fn char_of_digit(d: u32) -> (c: char)
    requires
        d < 10,
    ensures
        c == (48 + d) as char,
        is_digit_char(c),
{
    match d {
        0 => '0',
        1 => '1',
        2 => '2',
        3 => '3',
        4 => '4',
        5 => '5',
        6 => '6',
        7 => '7',
        8 => '8',
        _ => '9',
    }
}

/// A one-character string holding digit `c`.
fn digit_str(c: char) -> (s: &'static str)
    requires
        is_digit_char(c),
    ensures
        s@ == seq![c],
{
    proof {
        reveal_strlit("0");
        reveal_strlit("1");
        reveal_strlit("2");
        reveal_strlit("3");
        reveal_strlit("4");
        reveal_strlit("5");
        reveal_strlit("6");
        reveal_strlit("7");
        reveal_strlit("8");
        reveal_strlit("9");
    }
    if c == '0' {
        "0"
    } else if c == '1' {
        "1"
    } else if c == '2' {
        "2"
    } else if c == '3' {
        "3"
    } else if c == '4' {
        "4"
    } else if c == '5' {
        "5"
    } else if c == '6' {
        "6"
    } else if c == '7' {
        "7"
    } else if c == '8' {
        "8"
    } else {
        "9"
    }
}

/// `str::lines`.
pub open spec fn lines(s: Seq<char>) -> Seq<Seq<char>> {
    line_bounds(s, 0).map_values(|p: (int, int)| s.subrange(p.0, p.1))
}

/// `str::lines` of a string slice, collected.
pub fn lines_of(s: &str) -> (r: Vec<String>)
    ensures
        views(r@) == lines(s@),
{
    let v = chars_of(s);
    let n = v.len();
    let ghost sv = s@;
    let ghost f = |p: (int, int)| sv.subrange(p.0, p.1);
    let mut r: Vec<String> = Vec::new();
    let mut i: usize = 0;
    while i < n
        invariant
            n == sv.len(),
            sv == s@,
            v@ == sv,
            i <= n,
            f == (|p: (int, int)| sv.subrange(p.0, p.1)),
            views(r@) + line_bounds(sv, i as int).map_values(f) == lines(sv),
        decreases n - i,
    {
        let ghost old_r = r@;
        proof {
            lemma_find_char(sv, '\n', i as int);
        }
        match find_char_exec(v.as_slice(), '\n', i) {
            None => {
                r.push(substring(s, i, n));
                proof {
                    assert(line_bounds(sv, i as int) == seq![(i as int, n as int)]);
                    assert(seq![(i as int, n as int)].map_values(f) =~= seq![sv.subrange(
                        i as int,
                        n as int,
                    )]);
                    assert(views(r@) =~= views(old_r) + seq![sv.subrange(i as int, n as int)]);
                    assert(line_bounds(sv, n as int) == Seq::<(int, int)>::empty());
                }
                i = n;
            },
            Some(j) => {
                let end = if j > i && v[j - 1] == '\r' {
                    j - 1
                } else {
                    j
                };
                r.push(substring(s, i, end));
                proof {
                    let rest = line_bounds(sv, j + 1);
                    assert(line_bounds(sv, i as int) == seq![(i as int, end as int)] + rest);
                    assert((seq![(i as int, end as int)] + rest).map_values(f) =~= seq![sv.subrange(
                        i as int,
                        end as int,
                    )] + rest.map_values(f));
                    assert(views(r@) =~= views(old_r) + seq![sv.subrange(i as int, end as int)]);
                }
                i = j + 1;
            },
        }
    }
    proof {
        assert(line_bounds(sv, i as int) == Seq::<(int, int)>::empty());
        assert(views(r@) + Seq::<Seq<char>>::empty() == views(r@));
    }
    r
}

/// `a` followed by `b`.
pub fn concat_str(a: &str, b: &str) -> (r: String)
    ensures
        r@ == a@ + b@,
{
    let mut r = String::from_str(a);
    r.append(b);
    r
}

/// Copies a list of strings.
pub fn copy_strings(v: &Vec<String>) -> (r: Vec<String>)
    ensures
        r@ == v@,
{
    let mut r: Vec<String> = Vec::new();
    let mut i: usize = 0;
    while i < v.len()
        invariant
            i <= v@.len(),
            r@ == v@.subrange(0, i as int),
        decreases v@.len() - i,
    {
        r.push(v[i].clone());
        assert(r@ =~= v@.subrange(0, i + 1));
        i = i + 1;
    }
    assert(v@.subrange(0, v@.len() as int) =~= v@);
    r
}

/// `c` with ASCII upper case letters lowered.
pub open spec fn lower_char(c: char) -> char {
    if 'A' <= c <= 'Z' {
        ((c as u32) + 32) as char
    } else {
        c
    }
}

/// `s` with ASCII upper case letters lowered.
pub open spec fn ascii_lower(s: Seq<char>) -> Seq<char> {
    s.map_values(|c: char| lower_char(c))
}

/// `c` with an ASCII upper case letter lowered.
pub fn lower_char_exec(c: char) -> (r: char)
    ensures
        r == lower_char(c),
{
    if 'A' <= c && c <= 'Z' {
        let b = (c as u32 + 32) as u8;
        b as char
    } else {
        c
    }
}

/// Whether the ASCII-lowered text equals `word`.
pub fn lower_equals(s: &[char], word: &str) -> (b: bool)
    ensures
        b == (ascii_lower(s@) == word@),
{
    let w = chars_of(word);
    if s.len() != w.len() {
        assert(ascii_lower(s@).len() == s@.len());
        return false;
    }
    let mut i: usize = 0;
    while i < s.len()
        invariant
            i <= s@.len(),
            s@.len() == w@.len(),
            w@ == word@,
            forall|j: int| 0 <= j < i ==> lower_char(s@[j]) == w@[j],
        decreases s@.len() - i,
    {
        if lower_char_exec(s[i]) != w[i] {
            assert(ascii_lower(s@)[i as int] != word@[i as int]);
            return false;
        }
        i = i + 1;
    }
    assert(ascii_lower(s@) =~= word@);
    true
}


/// The text with ASCII upper case letters lowered.
pub fn ascii_lowercase(s: &[char]) -> (r: Vec<char>)
    ensures
        r@ == ascii_lower(s@),
{
    let mut r: Vec<char> = Vec::new();
    let mut i: usize = 0;
    while i < s.len()
        invariant
            i <= s@.len(),
            r@ == ascii_lower(s@.subrange(0, i as int)),
        decreases s@.len() - i,
    {
        r.push(lower_char_exec(s[i]));
        assert(ascii_lower(s@.subrange(0, i + 1)) =~= ascii_lower(s@.subrange(0, i as int)).push(
            lower_char(s@[i as int]),
        ));
        i = i + 1;
    }
    assert(s@.subrange(0, s@.len() as int) =~= s@);
    r
}

} // verus!
