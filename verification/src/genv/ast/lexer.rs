//! Splits a script into tokens: names, unsigned decimal numbers, the four
//! arithmetic operators, `=` and `;`, with white space between them skipped.
use vstd::prelude::*;
use crate::text::{is_alpha, is_digit, is_multispace, alpha, digit, chars_of, string_of, skip_ws, alpha_end, digit_end, digits_value,
    skip_spaces, letters_end, digits_run_end, lemma_skip_ws_bounds, lemma_alpha_end_bounds, lemma_digit_end_bounds,
    lemma_digits_grow};

verus! {

#[derive(Debug, PartialEq)]
pub enum Token {
    Identifier(String),
    Number(i32),
    Plus,
    Minus,
    Multiply,
    Divide,
    Assign,
    Semicolon,
}

/// A token with its name given by its characters.
pub enum SpecToken {
    Identifier(Seq<char>),
    Number(i32),
    Plus,
    Minus,
    Multiply,
    Divide,
    Assign,
    Semicolon,
}

impl View for Token {
    type V = SpecToken;

    open spec fn view(&self) -> SpecToken {
        match self {
            Token::Identifier(s) => SpecToken::Identifier(s@),
            Token::Number(n) => SpecToken::Number(*n),
            Token::Plus => SpecToken::Plus,
            Token::Minus => SpecToken::Minus,
            Token::Multiply => SpecToken::Multiply,
            Token::Divide => SpecToken::Divide,
            Token::Assign => SpecToken::Assign,
            Token::Semicolon => SpecToken::Semicolon,
        }
    }
}

/// The tokens of a sequence, each by its view.
pub open spec fn tokens_view(v: Seq<Token>) -> Seq<SpecToken> {
    v.map_values(|t: Token| t@)
}

/// The one-character token that `c` spells, if any.
pub open spec fn symbol_token(c: char) -> Option<SpecToken> {
    if c == '+' {
        Some(SpecToken::Plus)
    } else if c == '-' {
        Some(SpecToken::Minus)
    } else if c == '*' {
        Some(SpecToken::Multiply)
    } else if c == '/' {
        Some(SpecToken::Divide)
    } else if c == '=' {
        Some(SpecToken::Assign)
    } else if c == ';' {
        Some(SpecToken::Semicolon)
    } else {
        None
    }
}

/// Whether a token starts with `c`.
pub open spec fn starts_token(c: char) -> bool {
    is_alpha(c) || is_digit(c) || symbol_token(c) is Some
}

/// The tokens read from position `i` on, and the position where reading
/// stopped: before the white space in front of the first character that
/// starts no token. `None` when a number does not fit in an `i32`.
pub open spec fn scan(s: Seq<char>, i: int) -> Option<(Seq<SpecToken>, int)>
    decreases s.len() - i,
{
    if i < 0 || i > s.len() {
        None
    } else {
        let j = skip_ws(s, i);
        if j >= s.len() || !starts_token(s[j]) {
            Some((Seq::empty(), i))
        } else {
            let (tok, k) = if is_alpha(s[j]) {
                (Some(SpecToken::Identifier(s.subrange(j, alpha_end(s, j)))), alpha_end(s, j))
            } else if is_digit(s[j]) {
                let v = digits_value(s.subrange(j, digit_end(s, j)));
                (if v <= i32::MAX { Some(SpecToken::Number(v as i32)) } else { None }, digit_end(s, j))
            } else {
                (symbol_token(s[j]), j + 1)
            };
            if k <= i || k > s.len() {
                None
            } else {
                match tok {
                    None => None,
                    Some(t) => match scan(s, k) {
                        Some((rest, r)) => Some((seq![t] + rest, r)),
                        None => None,
                    },
                }
            }
        }
    }
}

/// What `tokenize` gives for `s`: the tokens and the input it left unread.
pub open spec fn spec_tokenize(s: Seq<char>) -> Option<(Seq<SpecToken>, Seq<char>)> {
    match scan(s, 0) {
        Some((t, r)) => Some((t, s.skip(r))),
        None => None,
    }
}

/// The value of the digits `s[lo..hi]`, or `None` when it exceeds `i32::MAX`.
fn digits_number(s: &Vec<char>, lo: usize, hi: usize) -> (r: Option<i32>)
    requires
        lo <= hi <= s.len(),
        forall|m: int| lo <= m < hi ==> is_digit(#[trigger] s@[m]),
    ensures
        r matches Some(v) ==> v == digits_value(s@.subrange(lo as int, hi as int)),
        r is None ==> digits_value(s@.subrange(lo as int, hi as int)) > i32::MAX,
{
    let mut v: i32 = 0;
    let mut i = lo;
    while i < hi
        invariant
            lo <= i <= hi <= s.len(),
            forall|m: int| lo <= m < hi ==> is_digit(#[trigger] s@[m]),
            v == digits_value(s@.subrange(lo as int, i as int)),
            0 <= v,
        decreases hi - i,
    {
        let c = s[i];
        assert(is_digit(s@[i as int]));
        let d: u32 = (c as u32) - ('0' as u32);
        assert(s@.subrange(lo as int, i + 1).drop_last() =~= s@.subrange(lo as int, i as int));
        if v > (i32::MAX - (d as i32)) / 10 {
            proof {
                let p = s@.subrange(lo as int, i + 1);
                let w = s@.subrange(lo as int, hi as int);
                assert(p =~= w.subrange(0, p.len() as int));
                assert(10 * v + d > i32::MAX);
                lemma_digits_grow(p, w);
            }
            return None;
        }
        v = v * 10 + (d as i32);
        i = i + 1;
    }
    Some(v)
}

/// Reads the tokens of `input` until white space runs out or a character
/// that starts no token comes; the rest of the input is handed back unread.
/// A number that does not fit in an `i32` is a panic of the lexer, so
/// `requires` leaves such inputs out.
pub fn tokenize(input: &str) -> (r: Result<(String, Vec<Token>), String>)
    requires
        spec_tokenize(input@) is Some,
    ensures
        r matches Ok((rest, toks)) && spec_tokenize(input@) == Some((tokens_view(toks@), rest@)),
{
    let s = chars_of(input);
    let mut toks: Vec<Token> = Vec::new();
    let mut i: usize = 0;
    let ghost all = scan(s@, 0).unwrap().0;
    loop
        invariant
            0 <= i <= s.len(),
            scan(s@, i as int) is Some,
            all == tokens_view(toks@) + scan(s@, i as int).unwrap().0,
            scan(s@, 0).unwrap().1 == scan(s@, i as int).unwrap().1,
        ensures
            0 <= i <= s.len(),
            scan(s@, i as int) == Some((Seq::<SpecToken>::empty(), i as int)),
            all == tokens_view(toks@) + scan(s@, i as int).unwrap().0,
            scan(s@, 0).unwrap().1 == i,
        decreases s.len() - i,
    {
        let j = skip_spaces(&s, i);
        proof { lemma_skip_ws_bounds(s@, i as int); }
        if j >= s.len() {
            assert(scan(s@, i as int) == Some((Seq::<SpecToken>::empty(), i as int)));
            break;
        }
        let c = s[j];
        let tok: Token;
        let k: usize;
        if alpha(c) {
            k = letters_end(&s, j);
            proof { lemma_alpha_end_bounds(s@, j as int); }
            tok = Token::Identifier(string_of(&s, j, k));
        } else if digit(c) {
            let e = digits_run_end(&s, j);
            proof { lemma_digit_end_bounds(s@, j as int); }
            match digits_number(&s, j, e) {
                Some(v) => { tok = Token::Number(v); }
                None => {
                    assert(false);
                    break;
                }
            }
            k = e;
        } else if c == '+' {
            tok = Token::Plus; k = j + 1;
        } else if c == '-' {
            tok = Token::Minus; k = j + 1;
        } else if c == '*' {
            tok = Token::Multiply; k = j + 1;
        } else if c == '/' {
            tok = Token::Divide; k = j + 1;
        } else if c == '=' {
            tok = Token::Assign; k = j + 1;
        } else if c == ';' {
            tok = Token::Semicolon; k = j + 1;
        } else {
            assert(scan(s@, i as int) == Some((Seq::<SpecToken>::empty(), i as int)));
            break;
        }
        let ghost before = tokens_view(toks@);
        proof {
            assert(tok@ == match scan(s@, i as int) { Some((t, _)) => t[0], None => tok@ });
        }
        toks.push(tok);
        proof {
            assert(tokens_view(toks@) =~= before.push(tok@));
            let rest = scan(s@, k as int).unwrap().0;
            assert(scan(s@, i as int).unwrap().0 == seq![tok@] + rest);
            assert(before + (seq![tok@] + rest) =~= before.push(tok@) + rest);
        }
        i = k;
    }
    assert(all =~= tokens_view(toks@));
    let rest = string_of(&s, i, s.len());
    assert(rest@ =~= s@.skip(i as int));
    Ok((rest, toks))
}

/// Scanning stops within the text, at a position after which only white
/// space is left or the first other character starts no token.
pub proof fn lemma_scan_stops(s: Seq<char>, i: int)
    ensures
        scan(s, i) matches Some((_, r)) ==> i <= r <= s.len()
            && (skip_ws(s, r) >= s.len() || !starts_token(s[skip_ws(s, r)])),
    decreases s.len() - i,
{
    if 0 <= i <= s.len() {
        lemma_skip_ws_bounds(s, i);
        let j = skip_ws(s, i);
        if j < s.len() && starts_token(s[j]) {
            lemma_alpha_end_bounds(s, j);
            lemma_digit_end_bounds(s, j);
            let k = if is_alpha(s[j]) { alpha_end(s, j) } else if is_digit(s[j]) { digit_end(s, j) } else { j + 1 };
            if i < k <= s.len() {
                lemma_scan_stops(s, k);
            }
        }
    }
}

/// What `tokenize` leaves unread is the end of its input; after any white
/// space at its start it is empty or starts with a character that starts
/// no token.
pub proof fn lemma_tokenize_rest(s: Seq<char>)
    ensures
        spec_tokenize(s) matches Some((_, rest)) ==> exists|r: int| 0 <= r <= s.len() && rest == s.skip(r)
            && (skip_ws(s, r) >= s.len() || !starts_token(s[skip_ws(s, r)])),
{
    lemma_scan_stops(s, 0);
    if let Some((_, r)) = scan(s, 0) {
        assert(spec_tokenize(s).unwrap().1 == s.skip(r));
    }
}

/// Every run of digits, from its first digit, spells a number that fits in
/// an `i32`.
pub open spec fn digit_runs_fit(s: Seq<char>) -> bool {
    forall|i: int| 0 <= i < s.len() && is_digit(s[i]) && (i == 0 || !is_digit(s[i - 1]))
        ==> #[trigger] digits_value(s.subrange(i, digit_end(s, i))) <= i32::MAX
}

proof fn lemma_skip_ws_run(s: Seq<char>, i: int)
    requires
        0 <= i <= s.len(),
    ensures
        forall|m: int| i <= m < skip_ws(s, i) ==> is_multispace(#[trigger] s[m]),
    decreases s.len() - i,
{
    if i < s.len() && is_multispace(s[i]) {
        lemma_skip_ws_run(s, i + 1);
    }
}

proof fn lemma_digit_end_stops(s: Seq<char>, j: int)
    requires
        0 <= j <= s.len(),
    ensures
        digit_end(s, j) == s.len() || !is_digit(s[digit_end(s, j)]),
    decreases s.len() - j,
{
    if j < s.len() && is_digit(s[j]) {
        lemma_digit_end_stops(s, j + 1);
    }
}

proof fn lemma_scan_defined(s: Seq<char>, i: int)
    requires
        digit_runs_fit(s),
        0 <= i <= s.len(),
        i == 0 || i == s.len() || !is_digit(s[i - 1]) || !is_digit(s[i]),
    ensures
        scan(s, i) is Some,
    decreases s.len() - i,
{
    lemma_skip_ws_bounds(s, i);
    lemma_skip_ws_run(s, i);
    let j = skip_ws(s, i);
    if j < s.len() && starts_token(s[j]) {
        if j > i {
            assert(is_multispace(s[j - 1]));
        }
        if is_alpha(s[j]) {
            lemma_alpha_end_bounds(s, j);
            lemma_alpha_end_bounds(s, j + 1);
            let k = alpha_end(s, j);
            assert(k == alpha_end(s, j + 1));
            assert(is_alpha(s[k - 1]));
            lemma_scan_defined(s, k);
        } else if is_digit(s[j]) {
            lemma_digit_end_bounds(s, j);
            lemma_digit_end_bounds(s, j + 1);
            lemma_digit_end_stops(s, j);
            let k = digit_end(s, j);
            assert(k == digit_end(s, j + 1));
            assert(digits_value(s.subrange(j, digit_end(s, j))) <= i32::MAX);
            lemma_scan_defined(s, k);
        } else {
            lemma_scan_defined(s, j + 1);
        }
    }
}

/// Where every run of digits fits in an `i32`, `tokenize` reads its input
/// (its `requires` holds), and so never fails.
pub proof fn lemma_tokenize_defined(s: Seq<char>)
    requires
        digit_runs_fit(s),
    ensures
        spec_tokenize(s) is Some,
{
    lemma_scan_defined(s, 0);
}

} // verus!
