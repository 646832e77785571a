//! Characters and strings: the character classes that the grammars use, and
//! conversions between `&str`, `String` and `Vec<char>`.
use vstd::prelude::*;

verus! {

/// `String::push` appends the character at the end of the string.
pub assume_specification[ std::string::String::push ](s: &mut std::string::String, ch: char)
    ensures
        final(s)@ == old(s)@.push(ch),
;

/// Space, tab, carriage return or line feed.
pub open spec fn is_multispace(c: char) -> bool {
    c == ' ' || c == '\t' || c == '\r' || c == '\n'
}

/// Space or tab.
pub open spec fn is_space(c: char) -> bool {
    c == ' ' || c == '\t'
}

/// An ASCII letter.
pub open spec fn is_alpha(c: char) -> bool {
    ('a' <= c && c <= 'z') || ('A' <= c && c <= 'Z')
}

/// An ASCII decimal digit.
pub open spec fn is_digit(c: char) -> bool {
    '0' <= c && c <= '9'
}

pub fn multispace(c: char) -> (b: bool)
    ensures
        b == is_multispace(c),
{
    c == ' ' || c == '\t' || c == '\r' || c == '\n'
}

pub fn space(c: char) -> (b: bool)
    ensures
        b == is_space(c),
{
    c == ' ' || c == '\t'
}

pub fn alpha(c: char) -> (b: bool)
    ensures
        b == is_alpha(c),
{
    ('a' <= c && c <= 'z') || ('A' <= c && c <= 'Z')
}

pub fn digit(c: char) -> (b: bool)
    ensures
        b == is_digit(c),
{
    '0' <= c && c <= '9'
}

/// The characters of `s`, in order.
pub fn chars_of(s: &str) -> (r: Vec<char>)
    ensures
        r@ == s@,
{
    let mut out: Vec<char> = Vec::new();
    for c in it: s.chars()
        invariant
            out@ == it.seq().take(it.index() as int),
    {
        out.push(c);
    }
    out
}

/// The string made of `cs[lo..hi]`.
pub fn string_of(cs: &Vec<char>, lo: usize, hi: usize) -> (r: String)
    requires
        lo <= hi <= cs.len(),
    ensures
        r@ == cs@.subrange(lo as int, hi as int),
{
    let mut out = String::new();
    let mut i = lo;
    while i < hi
        invariant
            lo <= i <= hi <= cs.len(),
            out@ == cs@.subrange(lo as int, i as int),
        decreases hi - i,
    {
        out.push(cs[i]);
        i = i + 1;
        assert(out@ =~= cs@.subrange(lo as int, i as int));
    }
    out
}

/// An owned copy of `s`.
pub fn owned(s: &str) -> (r: String)
    ensures
        r@ == s@,
{
    s.to_owned()
}

/// Whether two strings hold the same characters.
pub fn same_text(a: &String, b: &str) -> (r: bool)
    ensures
        r == (a@ == b@),
{
    let owned: String = b.to_owned();
    *a == owned
}

/// The first position at or after `i` that does not hold white space.
pub open spec fn skip_ws(s: Seq<char>, i: int) -> int
    decreases s.len() - i,
{
    if 0 <= i < s.len() && is_multispace(s[i]) {
        skip_ws(s, i + 1)
    } else {
        i
    }
}

/// The end of the run of letters that starts at `i`.
pub open spec fn alpha_end(s: Seq<char>, i: int) -> int
    decreases s.len() - i,
{
    if 0 <= i < s.len() && is_alpha(s[i]) {
        alpha_end(s, i + 1)
    } else {
        i
    }
}

/// The end of the run of digits that starts at `i`.
pub open spec fn digit_end(s: Seq<char>, i: int) -> int
    decreases s.len() - i,
{
    if 0 <= i < s.len() && is_digit(s[i]) {
        digit_end(s, i + 1)
    } else {
        i
    }
}

/// The number that a string of decimal digits spells.
pub open spec fn digits_value(d: Seq<char>) -> int
    decreases d.len(),
{
    if d.len() == 0 {
        0
    } else {
        10 * digits_value(d.drop_last()) + (d.last() as int - '0' as int)
    }
}


/// Skipping white space stays within the text.
pub proof fn lemma_skip_ws_bounds(s: Seq<char>, i: int)
    requires
        0 <= i <= s.len(),
    ensures
        i <= skip_ws(s, i) <= s.len(),
        forall|m: int| i <= m < skip_ws(s, i) ==> is_multispace(#[trigger] s[m]),
    decreases s.len() - i,
{
    if i < s.len() && is_multispace(s[i]) {
        lemma_skip_ws_bounds(s, i + 1);
    }
}

/// A run of letters stays within the text and holds only letters.
pub proof fn lemma_alpha_end_bounds(s: Seq<char>, i: int)
    requires
        0 <= i <= s.len(),
    ensures
        i <= alpha_end(s, i) <= s.len(),
        forall|m: int| i <= m < alpha_end(s, i) ==> is_alpha(#[trigger] s[m]),
    decreases s.len() - i,
{
    if i < s.len() && is_alpha(s[i]) {
        lemma_alpha_end_bounds(s, i + 1);
    }
}

/// A run of digits stays within the text and holds only digits.
pub proof fn lemma_digit_end_bounds(s: Seq<char>, i: int)
    requires
        0 <= i <= s.len(),
    ensures
        i <= digit_end(s, i) <= s.len(),
        forall|m: int| i <= m < digit_end(s, i) ==> is_digit(#[trigger] s[m]),
    decreases s.len() - i,
{
    if i < s.len() && is_digit(s[i]) {
        lemma_digit_end_bounds(s, i + 1);
    }
}


pub fn skip_spaces(s: &Vec<char>, i: usize) -> (j: usize)
    requires
        i <= s.len(),
    ensures
        j == skip_ws(s@, i as int),
{
    let mut j = i;
    while j < s.len() && multispace(s[j])
        invariant
            i <= j <= s.len(),
            skip_ws(s@, i as int) == skip_ws(s@, j as int),
        decreases s.len() - j,
    {
        j = j + 1;
    }
    j
}

pub fn letters_end(s: &Vec<char>, i: usize) -> (j: usize)
    requires
        i <= s.len(),
    ensures
        j == alpha_end(s@, i as int),
{
    let mut j = i;
    while j < s.len() && alpha(s[j])
        invariant
            i <= j <= s.len(),
            alpha_end(s@, i as int) == alpha_end(s@, j as int),
        decreases s.len() - j,
    {
        j = j + 1;
    }
    j
}


/// A string of digits spells at least what any of its prefixes spells.
pub proof fn lemma_digits_grow(p: Seq<char>, s: Seq<char>)
    requires
        p.len() <= s.len(),
        p == s.subrange(0, p.len() as int),
        forall|m: int| 0 <= m < s.len() ==> is_digit(#[trigger] s[m]),
    ensures
        digits_value(p) <= digits_value(s),
    decreases s.len(),
{
    lemma_digits_nonneg(p);
    if p.len() < s.len() {
        assert(s.drop_last().subrange(0, p.len() as int) =~= p);
        lemma_digits_grow(p, s.drop_last());
        lemma_digits_nonneg(s.drop_last());
    } else {
        assert(p =~= s);
    }
}

/// A run of digits spells a number that is not negative.
pub proof fn lemma_digits_nonneg(s: Seq<char>)
    requires
        forall|m: int| 0 <= m < s.len() ==> is_digit(#[trigger] s[m]),
    ensures
        digits_value(s) >= 0,
    decreases s.len(),
{
    if s.len() > 0 {
        lemma_digits_nonneg(s.drop_last());
    }
}


pub fn digits_run_end(s: &Vec<char>, i: usize) -> (j: usize)
    requires
        i <= s.len(),
    ensures
        j == digit_end(s@, i as int),
{
    let mut j = i;
    while j < s.len() && digit(s[j])
        invariant
            i <= j <= s.len(),
            digit_end(s@, i as int) == digit_end(s@, j as int),
        decreases s.len() - j,
    {
        j = j + 1;
    }
    j
}



/// The first position at or after `i` that holds neither a space nor a tab.
pub open spec fn skip_sp(s: Seq<char>, i: int) -> int
    decreases s.len() - i,
{
    if 0 <= i < s.len() && is_space(s[i]) {
        skip_sp(s, i + 1)
    } else {
        i
    }
}

/// The first position at or after `i` that holds `c`, or the length of `s`.
pub open spec fn find_char(s: Seq<char>, i: int, c: char) -> int
    decreases s.len() - i,
{
    if 0 <= i < s.len() && s[i] != c {
        find_char(s, i + 1, c)
    } else {
        i
    }
}

/// Whether `t` occurs in `s` at position `p`.
pub open spec fn has_at(s: Seq<char>, p: int, t: Seq<char>) -> bool {
    0 <= p && p + t.len() <= s.len() && s.subrange(p, p + t.len()) == t
}

/// Skipping spaces and tabs stays within the text.
pub proof fn lemma_skip_sp_bounds(s: Seq<char>, i: int)
    requires
        0 <= i <= s.len(),
    ensures
        i <= skip_sp(s, i) <= s.len(),
    decreases s.len() - i,
{
    if i < s.len() && is_space(s[i]) {
        lemma_skip_sp_bounds(s, i + 1);
    }
}

/// The position that `find_char` gives lies within the text, and holds
/// the character unless it is the end.
pub proof fn lemma_find_char_bounds(s: Seq<char>, i: int, c: char)
    requires
        0 <= i <= s.len(),
    ensures
        i <= find_char(s, i, c) <= s.len(),
        find_char(s, i, c) < s.len() ==> s[find_char(s, i, c)] == c,
    decreases s.len() - i,
{
    if i < s.len() && s[i] != c {
        lemma_find_char_bounds(s, i + 1, c);
    }
}

pub fn skip_tabs(s: &Vec<char>, i: usize) -> (j: usize)
    requires
        i <= s.len(),
    ensures
        j == skip_sp(s@, i as int),
{
    let mut j = i;
    while j < s.len() && space(s[j])
        invariant
            i <= j <= s.len(),
            skip_sp(s@, i as int) == skip_sp(s@, j as int),
        decreases s.len() - j,
    {
        j = j + 1;
    }
    j
}

pub fn find(s: &Vec<char>, i: usize, c: char) -> (j: usize)
    requires
        i <= s.len(),
    ensures
        j == find_char(s@, i as int, c),
{
    let mut j = i;
    while j < s.len() && s[j] != c
        invariant
            i <= j <= s.len(),
            find_char(s@, i as int, c) == find_char(s@, j as int, c),
        decreases s.len() - j,
    {
        j = j + 1;
    }
    j
}

/// Whether the characters of `t` occur in `s` at position `p`.
pub fn occurs_at(s: &Vec<char>, p: usize, t: &str) -> (b: bool)
    ensures
        b == has_at(s@, p as int, t@),
{
    let tc = chars_of(t);
    if p > s.len() || tc.len() > s.len() - p {
        return false;
    }
    let mut k: usize = 0;
    while k < tc.len()
        invariant
            p + tc.len() <= s.len(),
            k <= tc.len(),
            tc@ == t@,
            forall|m: int| 0 <= m < k ==> s@[p + m] == tc@[m],
        decreases tc.len() - k,
    {
        if s[p + k] != tc[k] {
            assert(s@.subrange(p as int, p + tc.len())[k as int] != t@[k as int]);
            return false;
        }
        k = k + 1;
    }
    assert(s@.subrange(p as int, p + tc.len()) =~= t@);
    true
}

/// Whether two strings hold the same characters.
pub fn text_eq(a: &str, b: &str) -> (r: bool)
    ensures
        r == (a@ == b@),
{
    let ac = chars_of(a);
    let bc = chars_of(b);
    if ac.len() != bc.len() {
        assert(a@.len() != b@.len());
        return false;
    }
    let mut k: usize = 0;
    while k < ac.len()
        invariant
            ac@ == a@,
            bc@ == b@,
            ac.len() == bc.len(),
            k <= ac.len(),
            forall|m: int| 0 <= m < k ==> ac@[m] == bc@[m],
        decreases ac.len() - k,
    {
        if ac[k] != bc[k] {
            assert(a@[k as int] != b@[k as int]);
            return false;
        }
        k = k + 1;
    }
    assert(ac@ =~= bc@);
    true
}

/// The characters of `a` followed by those of `b`.
pub fn join_text(a: &str, b: &str) -> (r: String)
    ensures
        r@ == a@ + b@,
{
    let mut out = String::new();
    let ac = chars_of(a);
    let bc = chars_of(b);
    let mut k: usize = 0;
    while k < ac.len()
        invariant
            k <= ac.len(),
            out@ == ac@.take(k as int),
        decreases ac.len() - k,
    {
        out.push(ac[k]);
        k = k + 1;
        assert(out@ =~= ac@.take(k as int));
    }
    let mut k: usize = 0;
    while k < bc.len()
        invariant
            k <= bc.len(),
            out@ == ac@ + bc@.take(k as int),
            ac@.len() == ac.len(),
        decreases bc.len() - k,
    {
        out.push(bc[k]);
        k = k + 1;
        assert(out@ =~= ac@ + bc@.take(k as int));
    }
    assert(ac@.take(ac.len() as int) =~= ac@);
    assert(bc@.take(bc.len() as int) =~= bc@);
    out
}

} // verus!
