//! The lexer of the query language.
//!
//! Blanks (space, tab, form feed) between tokens are skipped. At each other
//! position the longest keyword or symbol that starts there is taken; a quote
//! (`"` or `'`) starts a string that runs to the next unescaped quote of the same
//! kind, a backslash escaping the character after it (but not a line feed).
//! A character where no token starts gives an error item and lexing goes on
//! with the next character.
use vstd::prelude::*;
use vstd::string::*;
use vstd::utf8::{encode_utf8, is_char_boundary};
use crate::text::{chars_of, lemma_ascii_ends_are_boundaries, lemma_inner_bytes, text_of_byte_range};

verus! {

#[derive(Debug, PartialEq)]
pub enum Token {
    // kinds
    Fn,
    Var,
    Comment,
    Call,
    Param,
    Arg,
    String,
    Import,
    Type,
    // symbols
    LeftBrace,
    RightBrace,
    Comma,
    Newline,
    // fields
    Params,
    Args,
    Value,
    Name,
    Body,
    ReturnType,
    Equals,
    Not,
    And,
    Or,
    Matches,
    Contains,
    All,
    Count,
    /// A quoted string, without its quotes.
    Text(String),
}

/// Mathematical model of a [`Token`].
pub enum TokenView {
    Fn,
    Var,
    Comment,
    Call,
    Param,
    Arg,
    String,
    Import,
    Type,
    LeftBrace,
    RightBrace,
    Comma,
    Newline,
    Params,
    Args,
    Value,
    Name,
    Body,
    ReturnType,
    Equals,
    Not,
    And,
    Or,
    Matches,
    Contains,
    All,
    Count,
    Text(Seq<char>),
}

impl View for Token {
    type V = TokenView;

    open spec fn view(&self) -> TokenView {
        match self {
            Token::Fn => TokenView::Fn,
            Token::Var => TokenView::Var,
            Token::Comment => TokenView::Comment,
            Token::Call => TokenView::Call,
            Token::Param => TokenView::Param,
            Token::Arg => TokenView::Arg,
            Token::String => TokenView::String,
            Token::Import => TokenView::Import,
            Token::Type => TokenView::Type,
            Token::LeftBrace => TokenView::LeftBrace,
            Token::RightBrace => TokenView::RightBrace,
            Token::Comma => TokenView::Comma,
            Token::Newline => TokenView::Newline,
            Token::Params => TokenView::Params,
            Token::Args => TokenView::Args,
            Token::Value => TokenView::Value,
            Token::Name => TokenView::Name,
            Token::Body => TokenView::Body,
            Token::ReturnType => TokenView::ReturnType,
            Token::Equals => TokenView::Equals,
            Token::Not => TokenView::Not,
            Token::And => TokenView::And,
            Token::Or => TokenView::Or,
            Token::Matches => TokenView::Matches,
            Token::Contains => TokenView::Contains,
            Token::All => TokenView::All,
            Token::Count => TokenView::Count,
            Token::Text(s) => TokenView::Text(s@),
        }
    }
}

/// What the lexer yields at one position: a token, or an error.
pub type LexItem = Result<Token, ()>;

pub open spec fn item_view(item: LexItem) -> Result<TokenView, ()> {
    match item {
        Ok(t) => Ok(t@),
        Err(()) => Err(()),
    }
}

pub open spec fn items_view(items: Seq<LexItem>) -> Seq<Result<TokenView, ()>> {
    items.map_values(|i: LexItem| item_view(i))
}

/// The number of keywords and symbols with a fixed spelling.
pub const KEYWORD_COUNT: usize = 28;

/// The spelling of the `k`-th keyword or symbol.
pub open spec fn keyword_spelling(k: int) -> Seq<char> {
    if k == 0 { seq!['f', 'n'] }
    else if k == 1 { seq!['v', 'a', 'r'] }
    else if k == 2 { seq!['c', 'o', 'm', 'm', 'e', 'n', 't'] }
    else if k == 3 { seq!['c', 'a', 'l', 'l'] }
    else if k == 4 { seq!['p', 'a', 'r', 'a', 'm'] }
    else if k == 5 { seq!['a', 'r', 'g'] }
    else if k == 6 { seq!['s', 't', 'r', 'i', 'n', 'g'] }
    else if k == 7 { seq!['i', 'm', 'p', 'o', 'r', 't'] }
    else if k == 8 { seq!['t', 'y', 'p', 'e'] }
    else if k == 9 { seq!['{'] }
    else if k == 10 { seq!['}'] }
    else if k == 11 { seq![','] }
    else if k == 12 { seq!['\n'] }
    else if k == 13 { seq!['\r', '\n'] }
    else if k == 14 { seq!['p', 'a', 'r', 'a', 'm', 's'] }
    else if k == 15 { seq!['a', 'r', 'g', 's'] }
    else if k == 16 { seq!['v', 'a', 'l', 'u', 'e'] }
    else if k == 17 { seq!['n', 'a', 'm', 'e'] }
    else if k == 18 { seq!['b', 'o', 'd', 'y'] }
    else if k == 19 { seq!['r', 'e', 't', 'u', 'r', 'n', 's'] }
    else if k == 20 { seq!['='] }
    else if k == 21 { seq!['n', 'o', 't'] }
    else if k == 22 { seq!['a', 'n', 'd'] }
    else if k == 23 { seq!['o', 'r'] }
    else if k == 24 { seq!['m', 'a', 't', 'c', 'h', 'e', 's'] }
    else if k == 25 { seq!['c', 'o', 'n', 't', 'a', 'i', 'n', 's'] }
    else if k == 26 { seq!['a', 'l', 'l'] }
    else { seq!['c', 'o', 'u', 'n', 't'] }
}

/// The token that the `k`-th keyword or symbol stands for.
pub open spec fn keyword_token(k: int) -> TokenView {
    if k == 0 { TokenView::Fn }
    else if k == 1 { TokenView::Var }
    else if k == 2 { TokenView::Comment }
    else if k == 3 { TokenView::Call }
    else if k == 4 { TokenView::Param }
    else if k == 5 { TokenView::Arg }
    else if k == 6 { TokenView::String }
    else if k == 7 { TokenView::Import }
    else if k == 8 { TokenView::Type }
    else if k == 9 { TokenView::LeftBrace }
    else if k == 10 { TokenView::RightBrace }
    else if k == 11 { TokenView::Comma }
    else if k == 12 { TokenView::Newline }
    else if k == 13 { TokenView::Newline }
    else if k == 14 { TokenView::Params }
    else if k == 15 { TokenView::Args }
    else if k == 16 { TokenView::Value }
    else if k == 17 { TokenView::Name }
    else if k == 18 { TokenView::Body }
    else if k == 19 { TokenView::ReturnType }
    else if k == 20 { TokenView::Equals }
    else if k == 21 { TokenView::Not }
    else if k == 22 { TokenView::And }
    else if k == 23 { TokenView::Or }
    else if k == 24 { TokenView::Matches }
    else if k == 25 { TokenView::Contains }
    else if k == 26 { TokenView::All }
    else { TokenView::Count }
}

/// `s` starts with `w`.
pub open spec fn starts_with(s: Seq<char>, w: Seq<char>) -> bool {
    w.len() <= s.len() && s.subrange(0, w.len() as int) == w
}

/// Among the first `k` keywords, the index of the longest one that `s` starts
/// with (the first such one, should two be as long).
pub open spec fn longest_keyword(s: Seq<char>, k: int) -> Option<int>
    decreases k,
{
    if k <= 0 {
        None
    } else {
        let best = longest_keyword(s, k - 1);
        if starts_with(s, keyword_spelling(k - 1)) && (match best {
            Some(b) => keyword_spelling(b).len() < keyword_spelling(k - 1).len(),
            None => true,
        }) {
            Some(k - 1)
        } else {
            best
        }
    }
}

pub open spec fn is_blank(c: char) -> bool {
    c == ' ' || c == '\t' || c == '\x0c'
}

pub open spec fn is_quote(c: char) -> bool {
    c == '"' || c == '\''
}

/// Scanning a string opened by quote `q`, from position `j` of `s`: the
/// position just past the closing quote, if the string is closed.
pub open spec fn string_end(s: Seq<char>, q: char, j: int) -> Option<int>
    decreases s.len() - j,
{
    if j < 0 || j >= s.len() {
        None
    } else if s[j] == q {
        Some(j + 1)
    } else if s[j] == '\\' {
        if j + 1 < s.len() && s[j + 1] != '\n' {
            string_end(s, q, j + 2)
        } else {
            None
        }
    } else {
        string_end(s, q, j + 1)
    }
}

/// The token that starts `s` (which starts with no blank), and its length.
pub open spec fn next_token(s: Seq<char>) -> Option<(TokenView, int)> {
    if s.len() == 0 {
        None
    } else if is_quote(s[0]) {
        match string_end(s, s[0], 1) {
            Some(e) => Some((TokenView::Text(s.subrange(1, e - 1)), e)),
            None => None,
        }
    } else {
        match longest_keyword(s, KEYWORD_COUNT as int) {
            Some(k) => Some((keyword_token(k), keyword_spelling(k).len() as int)),
            None => None,
        }
    }
}

/// The items that lexing `s` yields.
pub open spec fn lex_spec(s: Seq<char>) -> Seq<Result<TokenView, ()>>
    decreases s.len(),
{
    if s.len() == 0 {
        seq![]
    } else if is_blank(s[0]) {
        lex_spec(s.drop_first())
    } else {
        match next_token(s) {
            Some((t, n)) => if 0 < n <= s.len() {
                seq![Ok(t)] + lex_spec(s.skip(n))
            } else {
                seq![Err(())] + lex_spec(s.drop_first())
            },
            None => seq![Err(())] + lex_spec(s.drop_first()),
        }
    }
}


/// The text of a quoted string without its first and last byte, which must
/// each be a whole character (as the quotes of a lexed string are).
pub fn unquote(s: &str) -> (r: String)
    requires
        s.spec_bytes().len() >= 2,
        is_char_boundary(s.spec_bytes(), 1),
        is_char_boundary(s.spec_bytes(), s.spec_bytes().len() - 1),
    ensures
        encode_utf8(r@) == s.spec_bytes().subrange(1, s.spec_bytes().len() - 1),
        r@ == s@.subrange(1, s@.len() - 1),
{
    proof {
        lemma_inner_bytes(s@);
    }
    let n = s.as_bytes().len();
    match text_of_byte_range(s, 1, n - 1) {
        Some(t) => t,
        None => {
            assert(false);
            String::new()
        },
    }
}

/// A text opened and closed by the quote `q`, holding neither that quote nor
/// a backslash (the other kind of quote and line breaks are allowed), lexes to
/// one string token holding that text.
pub proof fn lemma_lex_quoted_text_with(q: char, t: Seq<char>)
    requires
        is_quote(q),
        forall|m: int| 0 <= m < t.len() ==> #[trigger] t[m] != q && t[m] != '\\',
    ensures
        lex_spec(seq![q] + t + seq![q]) == seq![Ok::<TokenView, ()>(TokenView::Text(t))],
{
    let s = seq![q] + t + seq![q];
    assert(s[0] == q);
    lemma_string_end_quoted(q, t, 1);
    assert(s.subrange(1, t.len() as int + 1) =~= t);
    assert(s.skip(t.len() as int + 2) =~= Seq::<char>::empty());
    assert(lex_spec(s.skip(t.len() as int + 2)) =~= Seq::<Result<TokenView, ()>>::empty());
    assert(seq![Ok::<TokenView, ()>(TokenView::Text(t))] + Seq::<Result<TokenView, ()>>::empty()
        =~= seq![Ok::<TokenView, ()>(TokenView::Text(t))]);
}

/// A double-quoted text without double quotes or backslashes lexes to one
/// string token holding that text.
pub proof fn lemma_lex_quoted_text(t: Seq<char>)
    requires
        forall|m: int| 0 <= m < t.len() ==> #[trigger] t[m] != '"' && t[m] != '\\',
    ensures
        lex_spec(seq!['"'] + t + seq!['"']) == seq![Ok::<TokenView, ()>(TokenView::Text(t))],
{
    lemma_lex_quoted_text_with('"', t);
}

/// A single-quoted text without single quotes or backslashes lexes to one
/// string token holding that text; double quotes inside it are plain
/// characters.
pub proof fn lemma_lex_single_quoted_text(t: Seq<char>)
    requires
        forall|m: int| 0 <= m < t.len() ==> #[trigger] t[m] != '\'' && t[m] != '\\',
    ensures
        lex_spec(seq!['\''] + t + seq!['\'']) == seq![Ok::<TokenView, ()>(TokenView::Text(t))],
{
    lemma_lex_quoted_text_with('\'', t);
}

proof fn lemma_string_end_quoted(q: char, t: Seq<char>, j: int)
    requires
        forall|m: int| 0 <= m < t.len() ==> #[trigger] t[m] != q && t[m] != '\\',
        1 <= j <= t.len() + 1,
    ensures
        string_end(seq![q] + t + seq![q], q, j) == Some(t.len() as int + 2),
    decreases t.len() + 1 - j,
{
    let s = seq![q] + t + seq![q];
    if j <= t.len() {
        assert(s[j] == t[j - 1]);
        lemma_string_end_quoted(q, t, j + 1);
    } else {
        assert(s[j] == q);
    }
}

proof fn lemma_keyword_chars(k: int)
    ensures
        forall|m: int| 0 <= m < keyword_spelling(k).len() ==> !is_blank(#[trigger] keyword_spelling(k)[m])
            && !is_quote(keyword_spelling(k)[m]),
{
}

proof fn lemma_starts_with_before_blank(s: Seq<char>, w: Seq<char>, kw: Seq<char>)
    requires
        w.len() > 0,
        is_blank(w[0]),
        forall|m: int| 0 <= m < kw.len() ==> !is_blank(#[trigger] kw[m]),
    ensures
        starts_with(s + w, kw) == starts_with(s, kw),
{
    if kw.len() <= s.len() {
        assert((s + w).subrange(0, kw.len() as int) =~= s.subrange(0, kw.len() as int));
    } else if starts_with(s + w, kw) {
        assert((s + w).subrange(0, kw.len() as int)[s.len() as int] == w[0]);
    }
}

proof fn lemma_longest_keyword_before_blank(s: Seq<char>, w: Seq<char>, k: int)
    requires
        w.len() > 0,
        is_blank(w[0]),
    ensures
        longest_keyword(s + w, k) == longest_keyword(s, k),
    decreases k,
{
    if k > 0 {
        lemma_longest_keyword_before_blank(s, w, k - 1);
        lemma_keyword_chars(k - 1);
        lemma_starts_with_before_blank(s, w, keyword_spelling(k - 1));
    }
}

/// A blank ends every token but a string: a text without quotes followed by a
/// blank lexes on its own.
pub proof fn lemma_lex_blank_separates(s: Seq<char>, t: Seq<char>)
    requires
        forall|m: int| 0 <= m < s.len() ==> !is_quote(#[trigger] s[m]),
    ensures
        lex_spec(s + seq![' '] + t) == lex_spec(s) + lex_spec(t),
    decreases s.len(),
{
    let w = seq![' '] + t;
    assert(s + seq![' '] + t =~= s + w);
    if s.len() == 0 {
        assert(s + w =~= w);
        assert(w.drop_first() =~= t);
        assert(lex_spec(s) =~= Seq::<Result<TokenView, ()>>::empty());
        assert(lex_spec(s) + lex_spec(t) =~= lex_spec(t));
    } else {
        let sw = s + w;
        assert(sw[0] == s[0]);
        if is_blank(s[0]) {
            assert(sw.drop_first() =~= s.drop_first() + w);
            assert(s.drop_first() + seq![' '] + t =~= s.drop_first() + w);
            lemma_lex_blank_separates(s.drop_first(), t);
        } else {
            assert(!is_quote(s[0]));
            lemma_longest_keyword_before_blank(s, w, KEYWORD_COUNT as int);
            lemma_longest_keyword_fits(s, KEYWORD_COUNT as int);
            match longest_keyword(s, KEYWORD_COUNT as int) {
                Some(k) => {
                    lemma_keyword_nonempty(k);
                    let n = keyword_spelling(k).len() as int;
                    assert(sw.skip(n) =~= s.skip(n) + w);
                    assert(s.skip(n) + seq![' '] + t =~= s.skip(n) + w);
                    lemma_lex_blank_separates(s.skip(n), t);
                    assert(lex_spec(sw) == seq![Ok(keyword_token(k))] + lex_spec(sw.skip(n)));
                    assert(lex_spec(s) == seq![Ok(keyword_token(k))] + lex_spec(s.skip(n)));
                    assert(seq![Ok(keyword_token(k))] + (lex_spec(s.skip(n)) + lex_spec(t))
                        =~= (seq![Ok(keyword_token(k))] + lex_spec(s.skip(n))) + lex_spec(t));
                },
                None => {
                    assert(sw.drop_first() =~= s.drop_first() + w);
                    assert(s.drop_first() + seq![' '] + t =~= s.drop_first() + w);
                    lemma_lex_blank_separates(s.drop_first(), t);
                    assert(seq![Err::<TokenView, ()>(())] + (lex_spec(s.drop_first()) + lex_spec(t))
                        =~= (seq![Err::<TokenView, ()>(())] + lex_spec(s.drop_first())) + lex_spec(t));
                },
            }
        }
    }
}

/// The spelling and token of the `k`-th keyword or symbol.
fn keyword(k: usize) -> (r: (Vec<char>, Token))
    requires
        k < KEYWORD_COUNT,
    ensures
        r.0@ == keyword_spelling(k as int),
        r.1@ == keyword_token(k as int),
{
    let r = if k == 0 { (vec!['f', 'n'], Token::Fn) }
    else if k == 1 { (vec!['v', 'a', 'r'], Token::Var) }
    else if k == 2 { (vec!['c', 'o', 'm', 'm', 'e', 'n', 't'], Token::Comment) }
    else if k == 3 { (vec!['c', 'a', 'l', 'l'], Token::Call) }
    else if k == 4 { (vec!['p', 'a', 'r', 'a', 'm'], Token::Param) }
    else if k == 5 { (vec!['a', 'r', 'g'], Token::Arg) }
    else if k == 6 { (vec!['s', 't', 'r', 'i', 'n', 'g'], Token::String) }
    else if k == 7 { (vec!['i', 'm', 'p', 'o', 'r', 't'], Token::Import) }
    else if k == 8 { (vec!['t', 'y', 'p', 'e'], Token::Type) }
    else if k == 9 { (vec!['{'], Token::LeftBrace) }
    else if k == 10 { (vec!['}'], Token::RightBrace) }
    else if k == 11 { (vec![','], Token::Comma) }
    else if k == 12 { (vec!['\n'], Token::Newline) }
    else if k == 13 { (vec!['\r', '\n'], Token::Newline) }
    else if k == 14 { (vec!['p', 'a', 'r', 'a', 'm', 's'], Token::Params) }
    else if k == 15 { (vec!['a', 'r', 'g', 's'], Token::Args) }
    else if k == 16 { (vec!['v', 'a', 'l', 'u', 'e'], Token::Value) }
    else if k == 17 { (vec!['n', 'a', 'm', 'e'], Token::Name) }
    else if k == 18 { (vec!['b', 'o', 'd', 'y'], Token::Body) }
    else if k == 19 { (vec!['r', 'e', 't', 'u', 'r', 'n', 's'], Token::ReturnType) }
    else if k == 20 { (vec!['='], Token::Equals) }
    else if k == 21 { (vec!['n', 'o', 't'], Token::Not) }
    else if k == 22 { (vec!['a', 'n', 'd'], Token::And) }
    else if k == 23 { (vec!['o', 'r'], Token::Or) }
    else if k == 24 { (vec!['m', 'a', 't', 'c', 'h', 'e', 's'], Token::Matches) }
    else if k == 25 { (vec!['c', 'o', 'n', 't', 'a', 'i', 'n', 's'], Token::Contains) }
    else if k == 26 { (vec!['a', 'l', 'l'], Token::All) }
    else { (vec!['c', 'o', 'u', 'n', 't'], Token::Count) };
    r
}

proof fn lemma_keyword_nonempty(k: int)
    ensures
        keyword_spelling(k).len() > 0,
{
}

/// Whether the characters of `s` from `i` on start with `w`.
fn starts_with_at(s: &Vec<char>, i: usize, w: &Vec<char>) -> (r: bool)
    requires
        i <= s@.len(),
    ensures
        r == starts_with(s@.skip(i as int), w@),
{
    let ghost t = s@.skip(i as int);
    if w.len() > s.len() - i {
        return false;
    }
    let mut j: usize = 0;
    while j < w.len()
        invariant
            t == s@.skip(i as int),
            i + w@.len() <= s@.len(),
            s@.len() <= usize::MAX,
            0 <= j <= w@.len(),
            forall|k: int| 0 <= k < j ==> s@[i + k] == w@[k],
        decreases w@.len() - j,
    {
        if s[i + j] != w[j] {
            assert(t.subrange(0, w@.len() as int)[j as int] != w@[j as int]);
            return false;
        }
        j = j + 1;
    }
    assert(t.subrange(0, w@.len() as int) =~= w@);
    true
}

/// The longest keyword or symbol at position `i` of `s`.
fn longest_keyword_at(s: &Vec<char>, i: usize) -> (r: Option<usize>)
    requires
        i <= s@.len(),
    ensures
        r matches Some(k) ==> longest_keyword(s@.skip(i as int), KEYWORD_COUNT as int) == Some(k as int),
        r is None ==> longest_keyword(s@.skip(i as int), KEYWORD_COUNT as int) is None,
{
    let ghost t = s@.skip(i as int);
    let mut best: Option<usize> = None;
    let mut best_len: usize = 0;
    let mut k: usize = 0;
    while k < KEYWORD_COUNT
        invariant
            t == s@.skip(i as int),
            i <= s@.len(),
            0 <= k <= KEYWORD_COUNT,
            best matches Some(b) ==> longest_keyword(t, k as int) == Some(b as int)
                && best_len == keyword_spelling(b as int).len() && b < k,
            best is None ==> longest_keyword(t, k as int) is None,
        decreases KEYWORD_COUNT - k,
    {
        let (w, _tok) = keyword(k);
        if starts_with_at(s, i, &w) && (best.is_none() || best_len < w.len()) {
            best = Some(k);
            best_len = w.len();
        }
        k = k + 1;
    }
    best
}

/// Scanning a string that opens at position `i` of `s`: the position just past
/// its closing quote.
fn string_end_at(s: &Vec<char>, i: usize) -> (r: Option<usize>)
    requires
        i < s@.len(),
        is_quote(s@[i as int]),
    ensures
        r matches Some(e) ==> string_end(s@.skip(i as int), s@[i as int], 1) == Some(e - i),
        r is None ==> string_end(s@.skip(i as int), s@[i as int], 1) is None,
{
    let ghost t = s@.skip(i as int);
    let q = s[i];
    let n = s.len();
    let mut j: usize = i + 1;
    while j < n
        invariant
            t == s@.skip(i as int),
            n == s@.len(),
            q == s@[i as int],
            i < j,
            j <= n + 1,
            string_end(t, q, 1) == string_end(t, q, j - i),
        decreases n + 1 - j,
    {
        let c = s[j];
        assert(t[j - i] == c);
        if c == q {
            return Some(j + 1);
        } else if c == '\\' {
            if j + 1 < n && s[j + 1] != '\n' {
                assert(t[j - i + 1] == s@[j + 1]);
                j = j + 2;
            } else {
                if j + 1 < n {
                    assert(t[j - i + 1] == s@[j + 1]);
                }
                return None;
            }
        } else {
            j = j + 1;
        }
    }
    None
}

proof fn lemma_string_end_bounds(s: Seq<char>, q: char, j: int)
    requires
        j >= 1,
    ensures
        string_end(s, q, j) matches Some(e) ==> j < e <= s.len() && s[e - 1] == q,
    decreases s.len() - j,
{
    if 0 <= j < s.len() && s[j] != q {
        if s[j] == '\\' {
            if j + 1 < s.len() && s[j + 1] != '\n' {
                lemma_string_end_bounds(s, q, j + 2);
            }
        } else {
            lemma_string_end_bounds(s, q, j + 1);
        }
    }
}

proof fn lemma_longest_keyword_fits(s: Seq<char>, k: int)
    ensures
        longest_keyword(s, k) matches Some(b) ==> 0 <= b < k && starts_with(s, keyword_spelling(b)),
    decreases k,
{
    if k > 0 {
        lemma_longest_keyword_fits(s, k - 1);
    }
}

/// Lexes `query`: the tokens of the query language, with an error item for
/// each character where no token starts.
pub fn lex(query: &str) -> (r: Vec<LexItem>)
    ensures
        items_view(r@) == lex_spec(query@),
{
    let s = chars_of(query);
    let n = s.len();
    let mut out: Vec<LexItem> = Vec::new();
    let mut i: usize = 0;
    assert(s@.skip(0) =~= s@);
    while i < n
        invariant
            s@ == query@,
            n == s@.len(),
            0 <= i <= n,
            items_view(out@) + lex_spec(s@.skip(i as int)) == lex_spec(s@),
        decreases n - i,
    {
        let ghost t = s@.skip(i as int);
        let ghost before = out@;
        assert(t.drop_first() =~= s@.skip(i + 1));
        let c = s[i];
        assert(t[0] == c);
        if c == ' ' || c == '\t' || c == '\x0c' {
            i = i + 1;
        } else {
            let next: Option<(Token, usize)> = if c == '"' || c == '\'' {
                match string_end_at(&s, i) {
                    Some(e) => {
                        proof {
                            lemma_string_end_bounds(t, c, 1);
                        }
                        let quoted = query.substring_char(i, e);
                        assert(quoted@[0] == t[0]);
                        assert(quoted@.last() == t[e - i - 1]);
                        proof {
                            lemma_ascii_ends_are_boundaries(quoted@);
                        }
                        let text = unquote(quoted);
                        assert(text@ =~= t.subrange(1, (e - i) - 1));
                        Some((Token::Text(text), e - i))
                    },
                    None => None,
                }
            } else {
                match longest_keyword_at(&s, i) {
                    Some(k) => {
                        proof {
                            lemma_longest_keyword_fits(t, KEYWORD_COUNT as int);
                            lemma_keyword_nonempty(k as int);
                        }
                        let (w, tok) = keyword(k);
                        Some((tok, w.len()))
                    },
                    None => None,
                }
            };
            match next {
                Some((tok, len)) => {
                    assert(t.skip(len as int) =~= s@.skip(i + len));
                    let ghost tv = tok@;
                    out.push(Ok(tok));
                    assert(items_view(out@) =~= items_view(before) + seq![Ok(tv)]);
                    i = i + len;
                },
                None => {
                    out.push(Err(()));
                    assert(items_view(out@) =~= items_view(before) + seq![Err(())]);
                    i = i + 1;
                },
            }
        }
    }
    assert(s@.skip(n as int) =~= Seq::<char>::empty());
    assert(items_view(out@) =~= items_view(out@) + lex_spec(s@.skip(n as int)));
    out
}

} // verus!
