//! Text primitives over character sequences, each with the meaning that
//! the standard library gives the operation of the same name on `str`.
use vstd::prelude::*;

verus! {

broadcast use vstd::seq_lib::group_seq_properties;

// ------------------------------------------------------------------------
// Specifications
// ------------------------------------------------------------------------

/// `p` occurs in `s` at index `i`.
pub open spec fn occurs_at(s: Seq<char>, p: Seq<char>, i: int) -> bool {
    0 <= i && i + p.len() <= s.len() && s.subrange(i, i + p.len()) == p
}

/// `p` is a prefix of `s`.
pub open spec fn has_prefix(s: Seq<char>, p: Seq<char>) -> bool {
    occurs_at(s, p, 0)
}

/// `p` is a suffix of `s`.
pub open spec fn has_suffix(s: Seq<char>, p: Seq<char>) -> bool {
    p.len() <= s.len() && s.subrange(s.len() - p.len(), s.len() as int) == p
}

/// `p` occurs somewhere in `s`.
pub open spec fn contains(s: Seq<char>, p: Seq<char>) -> bool {
    exists|i: int| occurs_at(s, p, i)
}

/// The first index at or after `i` where `p` occurs in `s`.
pub open spec fn find_from(s: Seq<char>, p: Seq<char>, i: int) -> Option<int>
    decreases s.len() + 1 - i,
{
    if i < 0 || i + p.len() > s.len() {
        None
    } else if occurs_at(s, p, i) {
        Some(i)
    } else {
        find_from(s, p, i + 1)
    }
}

/// The number of non-overlapping occurrences of a non-empty `p` in `s`, scanning from `i`.
pub open spec fn count_from(s: Seq<char>, p: Seq<char>, i: int) -> nat
    decreases s.len() - i,
{
    if p.len() == 0 || i < 0 || i + p.len() > s.len() {
        0
    } else if occurs_at(s, p, i) {
        1 + count_from(s, p, i + p.len())
    } else {
        count_from(s, p, i + 1)
    }
}

/// `s.matches(p).count()`: an empty pattern matches at every character boundary.
pub open spec fn count_matches(s: Seq<char>, p: Seq<char>) -> nat {
    if p.len() == 0 {
        s.len() + 1
    } else {
        count_from(s, p, 0)
    }
}

/// `s[i..].replace(p, t)` for a non-empty `p`.
pub open spec fn replace_from(s: Seq<char>, p: Seq<char>, t: Seq<char>, i: int) -> Seq<char>
    decreases s.len() - i,
{
    if p.len() == 0 || i < 0 || i >= s.len() {
        Seq::empty()
    } else if i + p.len() > s.len() {
        s.subrange(i, s.len() as int)
    } else if occurs_at(s, p, i) {
        t + replace_from(s, p, t, i + p.len())
    } else {
        seq![s[i]] + replace_from(s, p, t, i + 1)
    }
}

/// `s[i..].replace("", t)`: `t` is put at every character boundary.
pub open spec fn replace_empty_from(s: Seq<char>, t: Seq<char>, i: int) -> Seq<char>
    decreases s.len() - i,
{
    if i < 0 || i >= s.len() {
        t
    } else {
        t + seq![s[i]] + replace_empty_from(s, t, i + 1)
    }
}

/// `s.replace(p, t)`.
pub open spec fn replace(s: Seq<char>, p: Seq<char>, t: Seq<char>) -> Seq<char> {
    if p.len() == 0 {
        replace_empty_from(s, t, 0)
    } else {
        replace_from(s, p, t, 0)
    }
}

/// The pieces of `s[i..]` separated by a non-empty `p`.
pub open spec fn split_from(s: Seq<char>, p: Seq<char>, i: int) -> Seq<Seq<char>>
    decreases s.len() - i,
{
    if p.len() == 0 || i < 0 || i > s.len() {
        Seq::empty()
    } else {
        match find_from(s, p, i) {
            None => seq![s.subrange(i, s.len() as int)],
            Some(j) => {
                proof {
                    lemma_find_from_bounds(s, p, i);
                }
                seq![s.subrange(i, j)] + split_from(s, p, j + p.len())
            },
        }
    }
}

/// `s.split(p)`: with an empty pattern the pieces are an empty piece,
/// every character, and an empty piece.
pub open spec fn split(s: Seq<char>, p: Seq<char>) -> Seq<Seq<char>> {
    if p.len() == 0 {
        seq![Seq::<char>::empty()] + Seq::new(s.len(), |k: int| seq![s[k]]) + seq![
            Seq::<char>::empty(),
        ]
    } else {
        split_from(s, p, 0)
    }
}

/// A line without the carriage return that ended it.
pub open spec fn strip_cr(line: Seq<char>) -> Seq<char> {
    if line.len() > 0 && line.last() == '\r' {
        line.drop_last()
    } else {
        line
    }
}

/// `s[i..].lines()`: lines end with `\n` or `\r\n`; the last line ending is optional.
pub open spec fn lines_from(s: Seq<char>, i: int) -> Seq<Seq<char>>
    decreases s.len() - i,
{
    if i < 0 || i >= s.len() {
        Seq::empty()
    } else {
        match find_from(s, seq!['\n'], i) {
            None => seq![s.subrange(i, s.len() as int)],
            Some(j) => {
                proof {
                    lemma_find_from_bounds(s, seq!['\n'], i);
                }
                seq![strip_cr(s.subrange(i, j))] + lines_from(s, j + 1)
            },
        }
    }
}

/// `s.lines()`.
pub open spec fn lines(s: Seq<char>) -> Seq<Seq<char>> {
    lines_from(s, 0)
}

/// `parts.join(sep)`.
pub open spec fn join(parts: Seq<Seq<char>>, sep: Seq<char>) -> Seq<char>
    decreases parts.len(),
{
    if parts.len() == 0 {
        Seq::empty()
    } else if parts.len() == 1 {
        parts[0]
    } else {
        join(parts.drop_last(), sep) + sep + parts.last()
    }
}

/// `s.repeat(n)`.
pub open spec fn repeat(s: Seq<char>, n: nat) -> Seq<char>
    decreases n,
{
    if n == 0 {
        Seq::empty()
    } else {
        repeat(s, (n - 1) as nat) + s
    }
}

/// `c.is_whitespace()`: the characters with the Unicode `White_Space` property.
pub open spec fn is_whitespace(c: char) -> bool {
    let u = c as u32;
    (0x9 <= u && u <= 0xd) || u == 0x20 || u == 0x85 || u == 0xa0 || u == 0x1680 || (0x2000 <= u
        && u <= 0x200a) || u == 0x2028 || u == 0x2029 || u == 0x202f || u == 0x205f || u == 0x3000
}

/// `s.trim_start()`.
pub open spec fn trim_start(s: Seq<char>) -> Seq<char>
    decreases s.len(),
{
    if s.len() > 0 && is_whitespace(s[0]) {
        trim_start(s.drop_first())
    } else {
        s
    }
}

/// `s.trim_end()`.
pub open spec fn trim_end(s: Seq<char>) -> Seq<char>
    decreases s.len(),
{
    if s.len() > 0 && is_whitespace(s.last()) {
        trim_end(s.drop_last())
    } else {
        s
    }
}

/// `s.trim()`.
pub open spec fn trim(s: Seq<char>) -> Seq<char> {
    trim_end(trim_start(s))
}

/// The ASCII decimal digit for `d < 10`.
pub open spec fn digit_char(d: nat) -> char {
    ((48 + d) as u32) as char
}

/// `n.to_string()` for an unsigned integer: its decimal digits.
pub open spec fn decimal(n: nat) -> Seq<char>
    decreases n,
{
    if n < 10 {
        seq![digit_char(n)]
    } else {
        decimal(n / 10).push(digit_char(n % 10))
    }
}

/// `c.is_ascii_digit()`.
pub open spec fn is_ascii_digit(c: char) -> bool {
    '0' <= c && c <= '9'
}

/// The value of a sequence of ASCII decimal digits.
pub open spec fn digits_value(d: Seq<char>) -> nat
    decreases d.len(),
{
    if d.len() == 0 {
        0
    } else {
        digits_value(d.drop_last()) * 10 + ((d.last() as u32) - 48) as nat
    }
}

/// The digits of an unsigned number: the text after an optional leading `+`.
pub open spec fn unsigned_digits(s: Seq<char>) -> Seq<char> {
    if s.len() > 0 && s[0] == '+' {
        s.drop_first()
    } else {
        s
    }
}

/// `s.parse::<u16>()`: an optional `+`, then one or more ASCII digits whose value fits.
pub open spec fn parse_u16(s: Seq<char>) -> Option<u16> {
    let d = unsigned_digits(s);
    if d.len() > 0 && (forall|k: int| 0 <= k < d.len() ==> is_ascii_digit(#[trigger] d[k]))
        && digits_value(d) <= 65535 {
        Some(digits_value(d) as u16)
    } else {
        None
    }
}

/// `c.is_ascii_punctuation()`.
pub open spec fn is_ascii_punctuation(c: char) -> bool {
    ('!' <= c && c <= '/') || (':' <= c && c <= '@') || ('[' <= c && c <= '`') || ('{' <= c && c
        <= '~')
}

/// Lexicographic order of character sequences from index `k` on (the order of `str`).
pub open spec fn lex_le_at(a: Seq<char>, b: Seq<char>, k: int) -> bool
    decreases a.len() - k,
{
    if k < 0 || k >= a.len() {
        true
    } else if k >= b.len() {
        false
    } else if a[k] < b[k] {
        true
    } else if a[k] > b[k] {
        false
    } else {
        lex_le_at(a, b, k + 1)
    }
}

/// `a <= b` for strings.
pub open spec fn lex_le(a: Seq<char>, b: Seq<char>) -> bool {
    lex_le_at(a, b, 0)
}

/// `a < b` for strings.
pub open spec fn lex_lt(a: Seq<char>, b: Seq<char>) -> bool {
    lex_le(a, b) && a != b
}

/// `a <= b` for pairs of strings: by the first component, then by the second.
pub open spec fn pair_le(a: (Seq<char>, Seq<char>), b: (Seq<char>, Seq<char>)) -> bool {
    lex_lt(a.0, b.0) || (a.0 == b.0 && lex_le(a.1, b.1))
}

/// Every element is at most every later one.
pub open spec fn sorted_lex(s: Seq<Seq<char>>) -> bool {
    forall|i: int, j: int| 0 <= i < j < s.len() ==> lex_le(#[trigger] s[i], #[trigger] s[j])
}

/// Every pair is at most every later one.
pub open spec fn sorted_pairs(s: Seq<(Seq<char>, Seq<char>)>) -> bool {
    forall|i: int, j: int| 0 <= i < j < s.len() ==> pair_le(#[trigger] s[i], #[trigger] s[j])
}

/// The views of a sequence of strings.
pub open spec fn views(s: Seq<String>) -> Seq<Seq<char>> {
    s.map_values(|x: String| x@)
}

/// The views of a sequence of string pairs.
pub open spec fn pair_views(s: Seq<(String, String)>) -> Seq<(Seq<char>, Seq<char>)> {
    s.map_values(|x: (String, String)| (x.0@, x.1@))
}

/// What `str::to_lowercase` returns for a string (Unicode lowercase mapping).
pub uninterp spec fn lowercase(s: Seq<char>) -> Seq<char>;

/// What `char::to_uppercase` yields for a character (Unicode uppercase mapping).
pub uninterp spec fn uppercase_char(c: char) -> Seq<char>;

// ------------------------------------------------------------------------
// Lemmas
// ------------------------------------------------------------------------

pub proof fn lemma_find_from_bounds(s: Seq<char>, p: Seq<char>, i: int)
    requires
        0 <= i,
    ensures
        find_from(s, p, i) matches Some(j) ==> i <= j && occurs_at(s, p, j),
        find_from(s, p, i) is None ==> forall|j: int| i <= j ==> !occurs_at(s, p, j),
        find_from(s, p, i) matches Some(j) ==> forall|k: int| i <= k < j ==> !occurs_at(s, p, k),
    decreases s.len() + 1 - i,
{
    if i < 0 || i + p.len() > s.len() {
    } else if occurs_at(s, p, i) {
    } else {
        lemma_find_from_bounds(s, p, i + 1);
        assert forall|j: int| i <= j && j < i + 1 implies !occurs_at(s, p, j) by {}
    }
}

/// A one-character pattern occurs exactly where that character is.
proof fn lemma_occurs_char(s: Seq<char>, c: char, k: int)
    ensures
        occurs_at(s, seq![c], k) <==> 0 <= k < s.len() && s[k] == c,
{
    if 0 <= k < s.len() {
        assert(s.subrange(k, k + 1) =~= seq![s[k]]);
        if occurs_at(s, seq![c], k) {
            assert(s.subrange(k, k + 1)[0] == seq![c][0]);
        }
    }
}

/// Searching a character from `i` finds its first place at or after `i`.
proof fn lemma_find_char(s: Seq<char>, c: char, i: int, j: int)
    requires
        0 <= i <= j <= s.len(),
        j < s.len() ==> s[j] == c,
        forall|k: int| i <= k < j ==> s[k] != c,
    ensures
        find_from(s, seq![c], i) == if j < s.len() {
            Some(j)
        } else {
            None::<int>
        },
    decreases j - i,
{
    lemma_occurs_char(s, c, i);
    if i < j {
        lemma_find_char(s, c, i + 1, j);
    }
}

/// Splitting `a`, a character and `b` by that character, where neither part holds
/// it, gives the two parts.
pub proof fn lemma_split_once(a: Seq<char>, b: Seq<char>, c: char)
    requires
        !a.contains(c),
        !b.contains(c),
    ensures
        split(a + seq![c] + b, seq![c]) == seq![a, b],
{
    let s = a + seq![c] + b;
    let la = a.len() as int;
    assert(s[la] == c);
    assert forall|k: int| 0 <= k < la implies s[k] != c by {
        assert(s[k] == a[k]);
    }
    lemma_find_char(s, c, 0, la);
    assert forall|k: int| la + 1 <= k < s.len() implies s[k] != c by {
        assert(s[k] == b[k - la - 1]);
    }
    lemma_find_char(s, c, la + 1, s.len() as int);
    assert(split_from(s, seq![c], la + 1) == seq![s.subrange(la + 1, s.len() as int)]);
    assert(s.subrange(0, la) =~= a);
    assert(s.subrange(la + 1, s.len() as int) =~= b);
    assert(split(s, seq![c]) =~= seq![a, b]);
}

/// The search from `i` finds the first place at or after `i` where `p` occurs.
proof fn lemma_find_first(s: Seq<char>, p: Seq<char>, i: int, j: int)
    requires
        0 <= i <= j,
        occurs_at(s, p, j),
        forall|k: int| i <= k < j ==> !occurs_at(s, p, k),
    ensures
        find_from(s, p, i) == Some(j),
    decreases j - i,
{
    if i < j {
        lemma_find_first(s, p, i + 1, j);
    }
}

/// The search from `i` finds nothing where `p` occurs nowhere at or after `i`.
proof fn lemma_find_none(s: Seq<char>, p: Seq<char>, i: int)
    requires
        0 <= i,
        forall|k: int| i <= k ==> !occurs_at(s, p, k),
    ensures
        find_from(s, p, i) is None,
    decreases s.len() + 1 - i,
{
    if i + p.len() <= s.len() {
        lemma_find_none(s, p, i + 1);
    }
}

/// Splitting `a%=%b` by `%=%`, where neither part holds `=`, gives the two parts.
pub proof fn lemma_split_value_separator(a: Seq<char>, b: Seq<char>)
    requires
        !a.contains('='),
        !b.contains('='),
    ensures
        split(a + "%=%"@ + b, "%=%"@) == seq![a, b],
        contains(a + "%=%"@ + b, "%=%"@),
{
    reveal_strlit("%=%");
    let p = "%=%"@;
    let s = a + p + b;
    let la = a.len() as int;
    assert(s.subrange(la, la + 3) =~= p);
    assert(occurs_at(s, p, la));
    assert forall|k: int| occurs_at(s, p, k) implies k == la by {
        assert(s.subrange(k, k + 3)[1] == p[1]);
        assert(s[k + 1] == '=');
        if k + 1 < la {
            assert(s[k + 1] == a[k + 1]);
        } else if k + 1 > la + 1 {
            if k + 1 == la + 2 {
                assert(s[k + 1] == '%');
            } else {
                assert(s[k + 1] == b[k + 1 - la - 3]);
            }
        } else if k + 1 == la {
            assert(s[k + 1] == '%');
        }
    }
    lemma_find_first(s, p, 0, la);
    lemma_find_none(s, p, la + 3);
    assert(split_from(s, p, la + 3) == seq![s.subrange(la + 3, s.len() as int)]);
    assert(s.subrange(0, la) =~= a);
    assert(s.subrange(la + 3, s.len() as int) =~= b);
    assert(split(s, p) =~= seq![a, b]);
}

/// A text contains a one-character pattern exactly when it holds the character.
pub proof fn lemma_contains_char(s: Seq<char>, c: char)
    ensures
        contains(s, seq![c]) <==> s.contains(c),
{
    if contains(s, seq![c]) {
        let k = choose|k: int| occurs_at(s, seq![c], k);
        lemma_occurs_char(s, c, k);
    }
    if s.contains(c) {
        let k = choose|k: int| 0 <= k < s.len() && s[k] == c;
        lemma_occurs_char(s, c, k);
    }
}

/// Splitting by a non-empty pattern gives at least one piece.
pub proof fn lemma_split_nonempty(s: Seq<char>, p: Seq<char>)
    requires
        p.len() > 0,
    ensures
        split(s, p).len() >= 1,
{
    assert(split_from(s, p, 0).len() >= 1);
}

/// Splitting by a non-empty pattern that occurs gives at least two pieces.
pub proof fn lemma_split_at_least_two(s: Seq<char>, p: Seq<char>)
    requires
        p.len() > 0,
        contains(s, p),
    ensures
        split(s, p).len() >= 2,
{
    lemma_contains_find(s, p);
    lemma_find_from_bounds(s, p, 0);
    let j = find_from(s, p, 0)->0;
    assert(split_from(s, p, j + p.len()).len() >= 1);
}

/// `p` occurs in `s` exactly when searching from the start finds it.
pub proof fn lemma_contains_find(s: Seq<char>, p: Seq<char>)
    ensures
        contains(s, p) <==> find_from(s, p, 0) is Some,
{
    lemma_find_from_bounds(s, p, 0);
    if let Some(j) = find_from(s, p, 0) {
        assert(occurs_at(s, p, j));
    }
}

pub proof fn lemma_lex_le_at_total(a: Seq<char>, b: Seq<char>, k: int)
    requires
        0 <= k,
    ensures
        lex_le_at(a, b, k) || lex_le_at(b, a, k),
    decreases a.len() - k,
{
    if k < a.len() && k < b.len() && !(a[k] < b[k]) && !(a[k] > b[k]) {
        lemma_lex_le_at_total(a, b, k + 1);
    }
}

pub proof fn lemma_lex_le_at_trans(a: Seq<char>, b: Seq<char>, c: Seq<char>, k: int)
    requires
        0 <= k,
        lex_le_at(a, b, k),
        lex_le_at(b, c, k),
    ensures
        lex_le_at(a, c, k),
    decreases a.len() - k,
{
    if k < a.len() && k < b.len() && k < c.len() && a[k] == b[k] && b[k] == c[k] {
        lemma_lex_le_at_trans(a, b, c, k + 1);
    }
}

pub proof fn lemma_lex_le_at_antisym(a: Seq<char>, b: Seq<char>, k: int)
    requires
        0 <= k <= a.len(),
        k <= b.len(),
        lex_le_at(a, b, k),
        lex_le_at(b, a, k),
    ensures
        a.len() == b.len(),
        forall|m: int| k <= m < a.len() ==> a[m] == b[m],
    decreases a.len() - k,
{
    if k < a.len() && k < b.len() {
        lemma_lex_le_at_antisym(a, b, k + 1);
    }
}

/// `<=` on strings is a total order.
pub proof fn lemma_lex_order(a: Seq<char>, b: Seq<char>, c: Seq<char>)
    ensures
        lex_le(a, a),
        lex_le(a, b) || lex_le(b, a),
        lex_le(a, b) && lex_le(b, c) ==> lex_le(a, c),
        lex_le(a, b) && lex_le(b, a) ==> a == b,
{
    lemma_lex_le_at_total(a, a, 0);
    lemma_lex_le_at_total(a, b, 0);
    if lex_le(a, b) && lex_le(b, c) {
        lemma_lex_le_at_trans(a, b, c, 0);
    }
    if lex_le(a, b) && lex_le(b, a) {
        lemma_lex_le_at_antisym(a, b, 0);
        assert(a =~= b);
    }
}

/// The views of joined sequences are the joined views.
pub proof fn lemma_views_add(a: Seq<String>, b: Seq<String>)
    ensures
        views(a + b) == views(a) + views(b),
{
    assert forall|i: int| 0 <= i < a.len() + b.len() implies #[trigger] views(a + b)[i] == (views(
        a,
    ) + views(b))[i] by {
        if i < a.len() {
            assert((a + b)[i] == a[i]);
        } else {
            assert((a + b)[i] == b[i - a.len()]);
        }
    }
    assert(views(a + b) =~= views(a) + views(b));
}

// ------------------------------------------------------------------------
// Executable operations
// ------------------------------------------------------------------------

/// The characters of a string slice, in order.
pub fn chars_of(s: &str) -> (v: Vec<char>)
    ensures
        v@ == s@,
{
    let mut v: Vec<char> = Vec::new();
    for c in it: s.chars()
        invariant
            v@ == it.seq().take(it.index()),
            it.seq() == s@,
    {
        v.push(c);
    }
    v
}

/// The string made of the given characters (`FromIterator<&char>` for `String`).
#[verifier::external_body]
pub(crate) fn string_from_chars(v: &[char]) -> (s: String)
    ensures
        s@ == v@,
{
    v.iter().collect()
}

/// Whether `p` occurs in `s` at index `i`.
pub fn occurs_at_exec(s: &[char], p: &[char], i: usize) -> (b: bool)
    ensures
        b == occurs_at(s@, p@, i as int),
{
    if i > s.len() || p.len() > s.len() - i {
        return false;
    }
    let mut k: usize = 0;
    while k < p.len()
        invariant
            i + p.len() <= s.len(),
            k <= p.len(),
            forall|m: int| 0 <= m < k ==> s@[i + m] == p@[m],
        decreases p.len() - k,
    {
        if s[i + k] != p[k] {
            assert(s@.subrange(i as int, i + p.len())[k as int] != p@[k as int]);
            return false;
        }
        k = k + 1;
    }
    assert(s@.subrange(i as int, i + p@.len()) =~= p@);
    true
}

/// The first index at or after `i` where `p` occurs in `s`.
pub fn find_from_exec(s: &[char], p: &[char], i: usize) -> (r: Option<usize>)
    ensures
        r matches Some(j) ==> find_from(s@, p@, i as int) == Some(j as int),
        r is None ==> find_from(s@, p@, i as int) is None,
{
    let mut j = i;
    while j <= s.len() && p.len() <= s.len() - j
        invariant
            i <= j,
            find_from(s@, p@, i as int) == find_from(s@, p@, j as int),
        decreases s.len() - j,
    {
        if occurs_at_exec(s, p, j) {
            return Some(j);
        }
        if j == s.len() {
            assert(s@.subrange(j as int, j as int) =~= p@);
        }
        j = j + 1;
    }
    None
}

/// `s.contains(p)`.
pub fn contains_exec(s: &[char], p: &[char]) -> (b: bool)
    ensures
        b == contains(s@, p@),
{
    proof {
        lemma_contains_find(s@, p@);
    }
    find_from_exec(s, p, 0).is_some()
}

/// `s.starts_with(p)`.
pub fn starts_with_exec(s: &[char], p: &[char]) -> (b: bool)
    ensures
        b == has_prefix(s@, p@),
{
    occurs_at_exec(s, p, 0)
}

/// `s.ends_with(p)`.
pub fn ends_with_exec(s: &[char], p: &[char]) -> (b: bool)
    ensures
        b == has_suffix(s@, p@),
{
    if p.len() > s.len() {
        false
    } else {
        occurs_at_exec(s, p, s.len() - p.len())
    }
}

/// `s.matches(p).count()`.
pub fn count_matches_exec(s: &[char], p: &[char]) -> (n: usize)
    ensures
        p@.len() > 0 || s@.len() < usize::MAX ==> n == count_matches(s@, p@),
{
    if p.len() == 0 {
        return s.len().saturating_add(1);
    }
    let mut n: usize = 0;
    let mut i: usize = 0;
    while i <= s.len() && p.len() <= s.len() - i
        invariant
            p.len() > 0,
            i <= s.len() + 1,
            n + count_from(s@, p@, i as int) == count_from(s@, p@, 0),
            n <= i,
        decreases s.len() - i,
    {
        if occurs_at_exec(s, p, i) {
            n = n + 1;
            i = i + p.len();
        } else {
            i = i + 1;
        }
    }
    n
}

/// `s.replace(p, t)`.
pub fn replace_exec(s: &[char], p: &[char], t: &[char]) -> (r: Vec<char>)
    ensures
        r@ == replace(s@, p@, t@),
{
    let mut out: Vec<char> = Vec::new();
    let mut i: usize = 0;
    if p.len() == 0 {
        while i < s.len()
            invariant
                i <= s.len(),
                out@ + replace_empty_from(s@, t@, i as int) == replace_empty_from(s@, t@, 0),
            decreases s.len() - i,
        {
            let ghost before = out@;
            out.extend_from_slice(t);
            out.push(s[i]);
            assert(out@ == before + t@ + seq![s@[i as int]]);
            i = i + 1;
        }
        let ghost before = out@;
        out.extend_from_slice(t);
        assert(out@ == before + t@);
        return out;
    }
    while i < s.len()
        invariant
            p.len() > 0,
            i <= s.len(),
            out@ + replace_from(s@, p@, t@, i as int) == replace_from(s@, p@, t@, 0),
        decreases s.len() - i,
    {
        let ghost before = out@;
        if p.len() > s.len() - i {
            let mut k = i;
            while k < s.len()
                invariant
                    i <= k <= s.len(),
                    out@ == before + s@.subrange(i as int, k as int),
                decreases s.len() - k,
            {
                out.push(s[k]);
                assert(s@.subrange(i as int, k + 1) == s@.subrange(i as int, k as int).push(
                    s@[k as int],
                ));
                k = k + 1;
            }
            i = s.len();
        } else if occurs_at_exec(s, p, i) {
            out.extend_from_slice(t);
            assert(out@ == before + t@);
            i = i + p.len();
        } else {
            out.push(s[i]);
            assert(out@ == before + seq![s@[i as int]]);
            i = i + 1;
        }
    }
    assert(out@ + replace_from(s@, p@, t@, i as int) == out@);
    out
}

/// `s.split(p)`.
pub fn split_exec(s: &[char], p: &[char]) -> (r: Vec<Vec<char>>)
    ensures
        r@.map_values(|v: Vec<char>| v@) == split(s@, p@),
{
    let mut out: Vec<Vec<char>> = Vec::new();
    if p.len() == 0 {
        out.push(Vec::new());
        let mut k: usize = 0;
        while k < s.len()
            invariant
                k <= s.len(),
                out@.len() == k + 1,
                out@[0]@ == Seq::<char>::empty(),
                forall|m: int| 1 <= m <= k ==> #[trigger] out@[m]@ == seq![s@[m - 1]],
            decreases s.len() - k,
        {
            let mut one: Vec<char> = Vec::new();
            one.push(s[k]);
            out.push(one);
            k = k + 1;
        }
        out.push(Vec::new());
        assert(out@.map_values(|v: Vec<char>| v@) =~= split(s@, p@));
        return out;
    }
    let mut i: usize = 0;
    loop
        invariant
            p.len() > 0,
            i <= s.len(),
            out@.map_values(|v: Vec<char>| v@) + split_from(s@, p@, i as int) == split(s@, p@),
        decreases s.len() - i,
    {
        let ghost before = out@.map_values(|v: Vec<char>| v@);
        match find_from_exec(s, p, i) {
            None => {
                let piece = slice_to_vec(s, i, s.len());
                out.push(piece);
                assert(out@.map_values(|v: Vec<char>| v@) =~= before + seq![
                    s@.subrange(i as int, s@.len() as int),
                ]);
                return out;
            },
            Some(j) => {
                proof {
                    lemma_find_from_bounds(s@, p@, i as int);
                }
                let piece = slice_to_vec(s, i, j);
                out.push(piece);
                assert(out@.map_values(|v: Vec<char>| v@) =~= before + seq![
                    s@.subrange(i as int, j as int),
                ]);
                i = j + p.len();
            },
        }
    }
}

/// `s.lines()`.
pub fn lines_exec(s: &[char]) -> (r: Vec<Vec<char>>)
    ensures
        r@.map_values(|v: Vec<char>| v@) == lines(s@),
{
    let mut out: Vec<Vec<char>> = Vec::new();
    let nl: [char; 1] = ['\n'];
    assert(nl@ == seq!['\n']);
    let mut i: usize = 0;
    while i < s.len()
        invariant
            i <= s.len(),
            nl@ == seq!['\n'],
            out@.map_values(|v: Vec<char>| v@) + lines_from(s@, i as int) == lines(s@),
        decreases s.len() - i,
    {
        let ghost before = out@.map_values(|v: Vec<char>| v@);
        match find_from_exec(s, &nl, i) {
            None => {
                let piece = slice_to_vec(s, i, s.len());
                out.push(piece);
                assert(out@.map_values(|v: Vec<char>| v@) =~= before + seq![
                    s@.subrange(i as int, s@.len() as int),
                ]);
                i = s.len();
            },
            Some(j) => {
                proof {
                    lemma_find_from_bounds(s@, nl@, i as int);
                }
                let end = if j > i && s[j - 1] == '\r' {
                    j - 1
                } else {
                    j
                };
                let piece = slice_to_vec(s, i, end);
                out.push(piece);
                assert(strip_cr(s@.subrange(i as int, j as int)) =~= s@.subrange(
                    i as int,
                    end as int,
                ));
                assert(out@.map_values(|v: Vec<char>| v@) =~= before + seq![
                    strip_cr(s@.subrange(i as int, j as int)),
                ]);
                i = j + 1;
            },
        }
    }
    assert(lines_from(s@, i as int) == Seq::<Seq<char>>::empty());
    assert(out@.map_values(|v: Vec<char>| v@) =~= lines(s@));
    out
}

/// `a == b` for character sequences.
pub fn chars_eq(a: &[char], b: &[char]) -> (r: bool)
    ensures
        r == (a@ == b@),
{
    if a.len() != b.len() {
        return false;
    }
    let r = occurs_at_exec(a, b, 0);
    proof {
        if r {
            assert(a@.subrange(0, b@.len() as int) =~= a@);
        } else {
            assert(a@.subrange(0, b@.len() as int) =~= a@);
        }
    }
    r
}

/// `a == b` for string slices.
pub fn str_eq(a: &str, b: &str) -> (r: bool)
    ensures
        r == (a@ == b@),
{
    let va = chars_of(a);
    let vb = chars_of(b);
    chars_eq(&va, &vb)
}

/// A copy of `s[from..to]`.
pub fn slice_to_vec(s: &[char], from: usize, to: usize) -> (r: Vec<char>)
    requires
        from <= to <= s.len(),
    ensures
        r@ == s@.subrange(from as int, to as int),
{
    let mut out: Vec<char> = Vec::new();
    let mut k = from;
    while k < to
        invariant
            from <= k <= to <= s.len(),
            out@ == s@.subrange(from as int, k as int),
        decreases to - k,
    {
        out.push(s[k]);
        assert(s@.subrange(from as int, k + 1) == s@.subrange(from as int, k as int).push(
            s@[k as int],
        ));
        k = k + 1;
    }
    out
}

/// `parts.join(sep)`.
pub fn join_exec(parts: &[Vec<char>], sep: &[char]) -> (r: Vec<char>)
    ensures
        r@ == join(parts@.map_values(|v: Vec<char>| v@), sep@),
{
    let ghost views = parts@.map_values(|v: Vec<char>| v@);
    let mut out: Vec<char> = Vec::new();
    let mut k: usize = 0;
    while k < parts.len()
        invariant
            k <= parts.len(),
            views == parts@.map_values(|v: Vec<char>| v@),
            out@ == join(views.take(k as int), sep@),
        decreases parts.len() - k,
    {
        if k > 0 {
            out.extend_from_slice(sep);
        }
        out.extend_from_slice(parts[k].as_slice());
        assert(views.take(k + 1).drop_last() =~= views.take(k as int));
        k = k + 1;
    }
    assert(views.take(parts.len() as int) =~= views);
    out
}

/// `s.repeat(n)`.
pub fn repeat_exec(s: &[char], n: usize) -> (r: Vec<char>)
    ensures
        r@ == repeat(s@, n as nat),
{
    let mut out: Vec<char> = Vec::new();
    let mut k: usize = 0;
    while k < n
        invariant
            k <= n,
            out@ == repeat(s@, k as nat),
        decreases n - k,
    {
        out.extend_from_slice(s);
        k = k + 1;
    }
    out
}

/// `s.trim()`.
pub fn trim_exec(s: &[char]) -> (r: Vec<char>)
    ensures
        r@ == trim(s@),
{
    let mut a: usize = 0;
    while a < s.len() && is_whitespace_exec(s[a])
        invariant
            a <= s.len(),
            trim_start(s@) == trim_start(s@.subrange(a as int, s@.len() as int)),
        decreases s.len() - a,
    {
        assert(s@.subrange(a as int, s@.len() as int).drop_first() =~= s@.subrange(
            a + 1,
            s@.len() as int,
        ));
        a = a + 1;
    }
    let ghost t = s@.subrange(a as int, s@.len() as int);
    assert(trim_start(t) == t);
    let mut b: usize = s.len();
    while b > a && is_whitespace_exec(s[b - 1])
        invariant
            a <= b <= s.len(),
            t == s@.subrange(a as int, s@.len() as int),
            trim_end(t) == trim_end(s@.subrange(a as int, b as int)),
        decreases b - a,
    {
        assert(s@.subrange(a as int, b as int).drop_last() =~= s@.subrange(
            a as int,
            b - 1,
        ));
        b = b - 1;
    }
    slice_to_vec(s, a, b)
}

/// `c.is_whitespace()`.
pub fn is_whitespace_exec(c: char) -> (b: bool)
    ensures
        b == is_whitespace(c),
{
    let u = c as u32;
    (0x9 <= u && u <= 0xd) || u == 0x20 || u == 0x85 || u == 0xa0 || u == 0x1680 || (0x2000 <= u
        && u <= 0x200a) || u == 0x2028 || u == 0x2029 || u == 0x202f || u == 0x205f || u == 0x3000
}

/// `c.is_ascii_punctuation()`.
pub fn is_ascii_punctuation_exec(c: char) -> (b: bool)
    ensures
        b == is_ascii_punctuation(c),
{
    ('!' <= c && c <= '/') || (':' <= c && c <= '@') || ('[' <= c && c <= '`') || ('{' <= c && c
        <= '~')
}

fn digit_char_exec(d: u128) -> (c: char)
    requires
        d < 10,
    ensures
        c == digit_char(d as nat),
{
    let b: u8 = 48u8 + d as u8;
    b as char
}

/// `n.to_string()`.
pub fn decimal_exec(n: u128) -> (r: Vec<char>)
    ensures
        r@ == decimal(n as nat),
    decreases n,
{
    if n < 10 {
        let mut v: Vec<char> = Vec::new();
        v.push(digit_char_exec(n));
        v
    } else {
        let mut v = decimal_exec(n / 10);
        v.push(digit_char_exec(n % 10));
        v
    }
}

/// `s.parse::<u16>()`, `None` where it returns an error.
pub fn parse_u16_exec(s: &[char]) -> (r: Option<u16>)
    ensures
        r == parse_u16(s@),
{
    let start: usize = if s.len() > 0 && s[0] == '+' {
        1
    } else {
        0
    };
    let ghost d = s@.subrange(start as int, s@.len() as int);
    assert(d =~= unsigned_digits(s@));
    if start == s.len() {
        return None;
    }
    let mut value: u32 = 0;
    let mut k = start;
    while k < s.len()
        invariant
            start <= k <= s.len(),
            d == s@.subrange(start as int, s@.len() as int),
            d == unsigned_digits(s@),
            forall|m: int| 0 <= m < k - start ==> is_ascii_digit(#[trigger] d[m]),
            value == digits_value(d.subrange(0, k - start)),
            value <= 65535,
        decreases s.len() - k,
    {
        let c = s[k];
        assert(d[k - start] == c);
        if !('0' <= c && c <= '9') {
            assert(!is_ascii_digit(d[k - start]));
            assert(!(forall|m: int| 0 <= m < d.len() ==> is_ascii_digit(#[trigger] d[m])));
            return None;
        }
        proof {
            lemma_digits_value_push(d, k - start);
        }
        let next: u32 = value * 10 + ((c as u32) - 48);
        if next > 65535 {
            proof {
                if forall|m: int| 0 <= m < d.len() ==> is_ascii_digit(#[trigger] d[m]) {
                    lemma_digits_value_mono_step(d, k - start + 1, d.len() as int);
                    assert(d.subrange(0, d.len() as int) =~= d);
                }
            }
            return None;
        }
        value = next;
        k = k + 1;
    }
    assert(d.subrange(0, d.len() as int) =~= d);
    Some(value as u16)
}

proof fn lemma_digits_value_push(d: Seq<char>, n: int)
    requires
        0 <= n < d.len(),
    ensures
        digits_value(d.subrange(0, n + 1)) == digits_value(d.subrange(0, n)) * 10 + ((d[n] as u32)
            - 48) as nat,
{
    assert(d.subrange(0, n + 1).drop_last() =~= d.subrange(0, n));
    assert(d.subrange(0, n + 1).last() == d[n]);
}

proof fn lemma_digits_value_mono_step(d: Seq<char>, n: int, j: int)
    requires
        0 <= n <= j <= d.len(),
        forall|m: int| 0 <= m < j ==> is_ascii_digit(#[trigger] d[m]),
    ensures
        digits_value(d.subrange(0, n)) <= digits_value(d.subrange(0, j)),
    decreases j - n,
{
    if n < j {
        lemma_digits_value_mono_step(d, n, j - 1);
        assert(d.subrange(0, j).drop_last() =~= d.subrange(0, j - 1));
        assert(is_ascii_digit(d[j - 1]));
    }
}

/// `a <= b` for strings.
pub fn lex_le_exec(a: &[char], b: &[char]) -> (r: bool)
    ensures
        r == lex_le(a@, b@),
{
    let mut k: usize = 0;
    while k < a.len()
        invariant
            k <= a.len(),
            lex_le(a@, b@) == lex_le_at(a@, b@, k as int),
        decreases a.len() - k,
    {
        if k >= b.len() {
            return false;
        }
        if a[k] < b[k] {
            return true;
        }
        if a[k] > b[k] {
            return false;
        }
        k = k + 1;
    }
    true
}

/// What `str::to_lowercase` returns.
#[verifier::external_body]
pub(crate) fn to_lowercase(s: &str) -> (r: String)
    ensures
        r@ == lowercase(s@),
{
    s.to_lowercase()
}

/// What `char::to_uppercase` yields, collected.
#[verifier::external_body]
pub(crate) fn char_to_uppercase(c: char) -> (r: Vec<char>)
    ensures
        r@ == uppercase_char(c),
{
    c.to_uppercase().collect()
}

/// `a <= b` for `String`s.
pub fn string_le(a: &String, b: &String) -> (r: bool)
    ensures
        r == lex_le(a@, b@),
{
    let va = chars_of(a.as_str());
    let vb = chars_of(b.as_str());
    lex_le_exec(&va, &vb)
}

/// `a <= b` for pairs of `String`s.
pub fn pair_le_exec(a: &(String, String), b: &(String, String)) -> (r: bool)
    ensures
        r == pair_le((a.0@, a.1@), (b.0@, b.1@)),
{
    proof {
        lemma_lex_order(a.0@, b.0@, b.0@);
    }
    let le01 = string_le(&a.0, &b.0);
    let le10 = string_le(&b.0, &a.0);
    if le01 && !le10 {
        true
    } else if le01 && le10 {
        string_le(&a.1, &b.1)
    } else {
        false
    }
}

/// Sorts strings in `str` order (what `Vec::sort` and `Itertools::sorted` do).
pub fn sort_strings(v: Vec<String>) -> (r: Vec<String>)
    ensures
        views(r@).to_multiset() == views(v@).to_multiset(),
        r@.len() == v@.len(),
        sorted_lex(views(r@)),
{
    broadcast use vstd::seq_lib::group_to_multiset_ensures;

    let mut input = v;
    let mut out: Vec<String> = Vec::new();
    let ghost orig = input@;
    proof {
        assert(views(out@) =~= Seq::<Seq<char>>::empty());
    }
    while input.len() > 0
        invariant
            views(out@).to_multiset().add(views(input@).to_multiset()) == views(orig).to_multiset(),
            out@.len() + input@.len() == orig.len(),
            sorted_lex(views(out@)),
        decreases input.len(),
    {
        let ghost before_in = input@;
        let x = input.pop().unwrap();
        assert(before_in == input@.push(x));
        assert(views(before_in) =~= views(input@).push(x@));
        let mut k: usize = 0;
        while k < out.len() && string_le(&out[k], &x)
            invariant
                k <= out.len(),
                forall|m: int| 0 <= m < k ==> lex_le(#[trigger] out@[m]@, x@),
            decreases out.len() - k,
        {
            k = k + 1;
        }
        let ghost before = out@;
        out.insert(k, x);
        proof {
            assert(views(out@) =~= views(before).insert(k as int, x@));
            lemma_insert_sorted_lex(views(before), k as int, x@);
        }
    }
    out
}

/// Sorts string pairs by the first component, then by the second
/// (what `Itertools::sorted` does on a vector of pairs).
pub fn sort_pairs(v: Vec<(String, String)>) -> (r: Vec<(String, String)>)
    ensures
        pair_views(r@).to_multiset() == pair_views(v@).to_multiset(),
        r@.len() == v@.len(),
        sorted_pairs(pair_views(r@)),
{
    broadcast use vstd::seq_lib::group_to_multiset_ensures;

    let mut input = v;
    let mut out: Vec<(String, String)> = Vec::new();
    let ghost orig = input@;
    proof {
        assert(pair_views(out@) =~= Seq::<(Seq<char>, Seq<char>)>::empty());
    }
    while input.len() > 0
        invariant
            pair_views(out@).to_multiset().add(pair_views(input@).to_multiset()) == pair_views(orig).to_multiset(),
            out@.len() + input@.len() == orig.len(),
            sorted_pairs(pair_views(out@)),
        decreases input.len(),
    {
        let ghost before_in = input@;
        let x = input.pop().unwrap();
        assert(before_in == input@.push(x));
        assert(pair_views(before_in) =~= pair_views(input@).push((x.0@, x.1@)));
        let mut k: usize = 0;
        while k < out.len() && pair_le_exec(&out[k], &x)
            invariant
                k <= out.len(),
                forall|m: int| 0 <= m < k ==> pair_le(#[trigger] pair_views(out@)[m], (x.0@, x.1@)),
            decreases out.len() - k,
        {
            k = k + 1;
        }
        let ghost before = out@;
        let ghost xv = (x.0@, x.1@);
        out.insert(k, x);
        proof {
            assert(pair_views(out@) =~= pair_views(before).insert(k as int, xv));
            lemma_insert_sorted_pairs(pair_views(before), k as int, xv);
        }
    }
    out
}

#[verifier::rlimit(40)]
proof fn lemma_insert_sorted_lex(before: Seq<Seq<char>>, k: int, x: Seq<char>)
    requires
        sorted_lex(before),
        0 <= k <= before.len(),
        forall|m: int| 0 <= m < k ==> lex_le(#[trigger] before[m], x),
        k < before.len() ==> !lex_le(before[k], x),
    ensures
        sorted_lex(before.insert(k, x)),
{
    let after = before.insert(k, x);
    assert forall|i: int, j: int| 0 <= i < j < after.len() implies lex_le(
        #[trigger] after[i],
        #[trigger] after[j],
    ) by {
        if j < k {
            assert(after[i] == before[i] && after[j] == before[j]);
        } else if j == k {
            assert(after[j] == x && after[i] == before[i]);
        } else if i == k {
            assert(after[i] == x && after[j] == before[j - 1]);
            lemma_lex_order(before[k], x, x);
            lemma_lex_order(x, before[k], before[j - 1]);
            if k < j - 1 {
                assert(lex_le(before[k], before[j - 1]));
            }
        } else if i < k {
            assert(after[i] == before[i] && after[j] == before[j - 1]);
        } else {
            assert(after[i] == before[i - 1] && after[j] == before[j - 1]);
        }
    }
}

#[verifier::rlimit(40)]
proof fn lemma_insert_sorted_pairs(
    before: Seq<(Seq<char>, Seq<char>)>,
    k: int,
    x: (Seq<char>, Seq<char>),
)
    requires
        sorted_pairs(before),
        0 <= k <= before.len(),
        forall|m: int| 0 <= m < k ==> pair_le(#[trigger] before[m], x),
        k < before.len() ==> !pair_le(before[k], x),
    ensures
        sorted_pairs(before.insert(k, x)),
{
    let after = before.insert(k, x);
    assert forall|i: int, j: int| 0 <= i < j < after.len() implies pair_le(
        #[trigger] after[i],
        #[trigger] after[j],
    ) by {
        if j < k {
            assert(after[i] == before[i] && after[j] == before[j]);
        } else if j == k {
            assert(after[j] == x && after[i] == before[i]);
        } else if i == k {
            assert(after[i] == x && after[j] == before[j - 1]);
            lemma_pair_order(before[k], x, x);
            lemma_pair_order(x, before[k], before[j - 1]);
            if k < j - 1 {
                assert(pair_le(before[k], before[j - 1]));
            }
        } else if i < k {
            assert(after[i] == before[i] && after[j] == before[j - 1]);
        } else {
            assert(after[i] == before[i - 1] && after[j] == before[j - 1]);
        }
    }
}

/// Every element is less than every later one (sorted, without repetitions).
pub open spec fn strictly_sorted_lex(s: Seq<Seq<char>>) -> bool {
    forall|i: int, j: int| 0 <= i < j < s.len() ==> lex_lt(#[trigger] s[i], #[trigger] s[j])
}

/// Sorts strings and removes repetitions (what `sort` then `dedup` do).
pub fn sort_dedup_strings(v: Vec<String>) -> (r: Vec<String>)
    ensures
        strictly_sorted_lex(views(r@)),
        views(r@).to_set() == views(v@).to_set(),
{
    let ghost orig = views(v@);
    let sorted = sort_strings(v);
    let ghost sv = views(sorted@);
    proof {
        assert(sv.to_set() =~= orig.to_set()) by {
            assert forall|x: Seq<char>| sv.to_set().contains(x) <==> orig.to_set().contains(x) by {
                vstd::seq_lib::to_multiset_contains(sv, x);
                vstd::seq_lib::to_multiset_contains(orig, x);
            }
        }
    }
    let mut out: Vec<String> = Vec::new();
    let mut i: usize = 0;
    while i < sorted.len()
        invariant
            i <= sorted.len(),
            sv == views(sorted@),
            sorted_lex(sv),
            strictly_sorted_lex(views(out@)),
            views(out@).to_set() == sv.take(i as int).to_set(),
            i > 0 ==> out@.len() > 0 && views(out@).last() == sv[i - 1],
            i == 0 ==> out@.len() == 0,
        decreases sorted.len() - i,
    {
        let ghost before = views(out@);
        assert(sv.take(i + 1) =~= sv.take(i as int).push(sv[i as int]));
        let fresh = out.len() == 0 || !str_eq(out[out.len() - 1].as_str(), sorted[i].as_str());
        if fresh {
            out.push(sorted[i].clone());
            assert(views(out@) =~= before.push(sv[i as int]));
            proof {
                if i > 0 {
                    lemma_lex_order(sv[i - 1], sv[i as int], sv[i as int]);
                    assert forall|a: int, b: int| 0 <= a < b < views(out@).len() implies lex_lt(
                        #[trigger] views(out@)[a],
                        #[trigger] views(out@)[b],
                    ) by {
                        if b == views(out@).len() - 1 && a < b {
                            if a < before.len() - 1 {
                                assert(lex_lt(before[a], before.last()));
                                lemma_lex_order(before[a], before.last(), sv[i as int]);
                            }
                        }
                    }
                }
            }
            assert forall|y: Seq<char>| views(out@).to_set().contains(y) <==> sv.take(
                i + 1,
            ).to_set().contains(y) by {
                assert(views(out@).contains(y) <==> before.contains(y) || y == sv[i as int]);
                assert(sv.take(i + 1).contains(y) <==> sv.take(i as int).contains(y) || y
                    == sv[i as int]);
                assert(before.contains(y) <==> before.to_set().contains(y));
                assert(sv.take(i as int).contains(y) <==> sv.take(i as int).to_set().contains(y));
            }
            assert(views(out@).to_set() =~= sv.take(i + 1).to_set());
        } else {
            assert(sv.take(i + 1).to_set() =~= sv.take(i as int).to_set());
        }
        i = i + 1;
    }
    assert(sv.take(i as int) =~= sv);
    out
}

/// `<=` on string pairs is a total order.
pub proof fn lemma_pair_order(
    a: (Seq<char>, Seq<char>),
    b: (Seq<char>, Seq<char>),
    c: (Seq<char>, Seq<char>),
)
    ensures
        pair_le(a, b) || pair_le(b, a),
        pair_le(a, b) && pair_le(b, c) ==> pair_le(a, c),
{
    lemma_lex_order(a.0, b.0, c.0);
    lemma_lex_order(a.1, b.1, c.1);
    lemma_lex_order(b.0, a.0, c.0);
    lemma_lex_order(a.0, c.0, b.0);
    lemma_lex_order(b.0, c.0, a.0);
    lemma_lex_order(c.0, a.0, b.0);
}

} // verus!
