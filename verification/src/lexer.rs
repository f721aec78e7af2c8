//! The lexer: source text to a sequence of tokens.
//!
//! `spec_lex` is the specification-level lexer over `Seq<char>`; the
//! executable `lex` is proven to return exactly its result. At each
//! position, after skipping ASCII whitespace, the longest matching rule
//! applies: single-character punctuation and operators, `--` before `-`,
//! a run of digits optionally followed by letters as a numeric literal
//! (valid iff it is all digits and fits in an `i32`), and a run starting
//! with a letter as a keyword or identifier.
use vstd::prelude::*;
use vstd::string::*;

verus! {

#[derive(Debug, PartialEq, Eq)]
pub enum Token {
    Identifier(String),
    Constant(i32),
    // Keywords
    Int,
    Void,
    Return,
    // Punctuation
    OpenParenthesis,
    CloseParenthesis,
    OpenBrace,
    CloseBrace,
    Semicolon,
    // Operators
    Tilde,
    Minus,
    DoubleMinus,
    Plus,
    Star,
    Slash,
    Percent,
}

#[derive(Debug, PartialEq, Eq)]
pub enum LexError {
    /// A character no rule recognizes.
    InvalidCharacter(char),
    /// A digit-started lexeme that is not a decimal `i32`.
    InvalidNumber(String),
}

impl Clone for Token {
    fn clone(&self) -> (r: Token)
        ensures
            r@ == self@,
    {
        match self {
            Token::Identifier(s) => Token::Identifier(s.clone()),
            Token::Constant(n) => Token::Constant(*n),
            Token::Int => Token::Int,
            Token::Void => Token::Void,
            Token::Return => Token::Return,
            Token::OpenParenthesis => Token::OpenParenthesis,
            Token::CloseParenthesis => Token::CloseParenthesis,
            Token::OpenBrace => Token::OpenBrace,
            Token::CloseBrace => Token::CloseBrace,
            Token::Semicolon => Token::Semicolon,
            Token::Tilde => Token::Tilde,
            Token::Minus => Token::Minus,
            Token::DoubleMinus => Token::DoubleMinus,
            Token::Plus => Token::Plus,
            Token::Star => Token::Star,
            Token::Slash => Token::Slash,
            Token::Percent => Token::Percent,
        }
    }
}

/// The mathematical model of a `Token`: lexemes are char sequences.
pub enum TokenView {
    Identifier(Seq<char>),
    Constant(i32),
    Int,
    Void,
    Return,
    OpenParenthesis,
    CloseParenthesis,
    OpenBrace,
    CloseBrace,
    Semicolon,
    Tilde,
    Minus,
    DoubleMinus,
    Plus,
    Star,
    Slash,
    Percent,
}

/// The mathematical model of a `LexError`.
pub enum LexErrorView {
    InvalidCharacter(char),
    InvalidNumber(Seq<char>),
}

impl View for Token {
    type V = TokenView;

    open spec fn view(&self) -> TokenView {
        match self {
            Token::Identifier(s) => TokenView::Identifier(s@),
            Token::Constant(n) => TokenView::Constant(*n),
            Token::Int => TokenView::Int,
            Token::Void => TokenView::Void,
            Token::Return => TokenView::Return,
            Token::OpenParenthesis => TokenView::OpenParenthesis,
            Token::CloseParenthesis => TokenView::CloseParenthesis,
            Token::OpenBrace => TokenView::OpenBrace,
            Token::CloseBrace => TokenView::CloseBrace,
            Token::Semicolon => TokenView::Semicolon,
            Token::Tilde => TokenView::Tilde,
            Token::Minus => TokenView::Minus,
            Token::DoubleMinus => TokenView::DoubleMinus,
            Token::Plus => TokenView::Plus,
            Token::Star => TokenView::Star,
            Token::Slash => TokenView::Slash,
            Token::Percent => TokenView::Percent,
        }
    }
}

impl View for LexError {
    type V = LexErrorView;

    open spec fn view(&self) -> LexErrorView {
        match self {
            LexError::InvalidCharacter(c) => LexErrorView::InvalidCharacter(*c),
            LexError::InvalidNumber(s) => LexErrorView::InvalidNumber(s@),
        }
    }
}

/// ASCII whitespace.
pub open spec fn is_space(c: char) -> bool {
    c == ' ' || c == '\t' || c == '\n' || c == '\x0c' || c == '\r'
}

/// ASCII decimal digit.
pub open spec fn is_digit(c: char) -> bool {
    48 <= c as u32 && c as u32 <= 57
}

/// ASCII letter.
pub open spec fn is_letter(c: char) -> bool {
    (65 <= c as u32 && c as u32 <= 90) || (97 <= c as u32 && c as u32 <= 122)
}

/// ASCII letter or digit: the characters that continue an identifier
/// or numeric lexeme.
pub open spec fn is_alnum(c: char) -> bool {
    is_digit(c) || is_letter(c)
}

/// Length of the maximal alphanumeric run at the front of `s`.
pub open spec fn run_len(s: Seq<char>) -> nat
    decreases s.len(),
{
    if s.len() == 0 || !is_alnum(s[0]) {
        0
    } else {
        1 + run_len(s.skip(1))
    }
}

pub proof fn lemma_run_len_le(s: Seq<char>)
    ensures
        run_len(s) <= s.len(),
    decreases s.len(),
{
    if s.len() > 0 && is_alnum(s[0]) {
        lemma_run_len_le(s.skip(1));
    }
}

/// The alphanumeric run at the front of `s` ends exactly at the first
/// index whose character is not alphanumeric.
pub proof fn lemma_run_len_exact(s: Seq<char>, k: int)
    requires
        0 <= k <= s.len(),
        forall|i: int| 0 <= i < k ==> is_alnum(#[trigger] s[i]),
        k == s.len() || !is_alnum(s[k]),
    ensures
        run_len(s) == k,
    decreases k,
{
    if k == 0 {
    } else {
        assert(is_alnum(s[0]));
        lemma_run_len_exact(s.skip(1), k - 1);
    }
}

/// Numeric value of a digit character.
pub open spec fn digit_val(c: char) -> nat {
    (c as u32 - 48) as nat
}

pub open spec fn all_digits(s: Seq<char>) -> bool {
    forall|i: int| 0 <= i < s.len() ==> is_digit(#[trigger] s[i])
}

/// Value of a sequence of digit characters, most significant first.
pub open spec fn digits_val(s: Seq<char>) -> nat
    decreases s.len(),
{
    if s.len() == 0 {
        0
    } else {
        digits_val(s.drop_last()) * 10 + digit_val(s.last())
    }
}

/// The token for a letter-started lexeme: a keyword or an identifier.
pub open spec fn ident_token(lexeme: Seq<char>) -> TokenView {
    if lexeme == seq!['i', 'n', 't'] {
        TokenView::Int
    } else if lexeme == seq!['v', 'o', 'i', 'd'] {
        TokenView::Void
    } else if lexeme == seq!['r', 'e', 't', 'u', 'r', 'n'] {
        TokenView::Return
    } else {
        TokenView::Identifier(lexeme)
    }
}

/// The outcome for a digit-started lexeme: a constant if it is all
/// digits and its value fits in an `i32`, otherwise an invalid number.
pub open spec fn number_token(lexeme: Seq<char>) -> Result<TokenView, LexErrorView> {
    if all_digits(lexeme) && digits_val(lexeme) <= 0x7fff_ffff {
        Ok(TokenView::Constant(digits_val(lexeme) as i32))
    } else {
        Err(LexErrorView::InvalidNumber(lexeme))
    }
}

/// The token produced by a single punctuation or operator character,
/// other than `-` (which needs one character of lookahead).
pub open spec fn punct_token(c: char) -> Option<TokenView> {
    if c == '(' {
        Some(TokenView::OpenParenthesis)
    } else if c == ')' {
        Some(TokenView::CloseParenthesis)
    } else if c == '{' {
        Some(TokenView::OpenBrace)
    } else if c == '}' {
        Some(TokenView::CloseBrace)
    } else if c == ';' {
        Some(TokenView::Semicolon)
    } else if c == '~' {
        Some(TokenView::Tilde)
    } else if c == '+' {
        Some(TokenView::Plus)
    } else if c == '*' {
        Some(TokenView::Star)
    } else if c == '/' {
        Some(TokenView::Slash)
    } else if c == '%' {
        Some(TokenView::Percent)
    } else {
        None
    }
}

/// Prepends a token to the result of lexing the rest of the input.
pub open spec fn lex_cons(t: TokenView, rest: Result<Seq<TokenView>, LexErrorView>) -> Result<
    Seq<TokenView>,
    LexErrorView,
> {
    match rest {
        Ok(ts) => Ok(seq![t] + ts),
        Err(e) => Err(e),
    }
}

/// The specification-level lexer: the unique token sequence (or first
/// error) that the lexing rules produce on `s`.
pub open spec fn spec_lex(s: Seq<char>) -> Result<Seq<TokenView>, LexErrorView>
    decreases s.len(),
    via spec_lex_decreases
{
    if s.len() == 0 {
        Ok(Seq::empty())
    } else if is_space(s[0]) {
        spec_lex(s.skip(1))
    } else if punct_token(s[0]) is Some {
        match punct_token(s[0]) {
            Some(t) => lex_cons(t, spec_lex(s.skip(1))),
            None => Ok(Seq::empty()),
        }
    } else if s[0] == '-' {
        if s.len() >= 2 && s[1] == '-' {
            lex_cons(TokenView::DoubleMinus, spec_lex(s.skip(2)))
        } else {
            lex_cons(TokenView::Minus, spec_lex(s.skip(1)))
        }
    } else if is_digit(s[0]) {
        match number_token(s.take(run_len(s) as int)) {
            Ok(t) => lex_cons(t, spec_lex(s.skip(run_len(s) as int))),
            Err(e) => Err(e),
        }
    } else if is_letter(s[0]) {
        lex_cons(ident_token(s.take(run_len(s) as int)), spec_lex(s.skip(run_len(s) as int)))
    } else {
        Err(LexErrorView::InvalidCharacter(s[0]))
    }
}

#[via_fn]
proof fn spec_lex_decreases(s: Seq<char>) {
    lemma_run_len_le(s);
    if s.len() > 0 && is_alnum(s[0]) {
        assert(run_len(s) >= 1);
    }
}

/// Whether a token belongs to the fixed alphabet: a keyword,
/// punctuation, or operator, with a single fixed lexeme.
pub open spec fn fixed_token(t: TokenView) -> bool {
    match t {
        TokenView::Identifier(_) => false,
        TokenView::Constant(_) => false,
        _ => true,
    }
}

/// The lexeme of a fixed-alphabet token.
pub open spec fn token_lexeme(t: TokenView) -> Seq<char> {
    match t {
        TokenView::Int => seq!['i', 'n', 't'],
        TokenView::Void => seq!['v', 'o', 'i', 'd'],
        TokenView::Return => seq!['r', 'e', 't', 'u', 'r', 'n'],
        TokenView::OpenParenthesis => seq!['('],
        TokenView::CloseParenthesis => seq![')'],
        TokenView::OpenBrace => seq!['{'],
        TokenView::CloseBrace => seq!['}'],
        TokenView::Semicolon => seq![';'],
        TokenView::Tilde => seq!['~'],
        TokenView::Minus => seq!['-'],
        TokenView::DoubleMinus => seq!['-', '-'],
        TokenView::Plus => seq!['+'],
        TokenView::Star => seq!['*'],
        TokenView::Slash => seq!['/'],
        TokenView::Percent => seq!['%'],
        _ => Seq::empty(),
    }
}

/// Lexer totality on the fixed alphabet: every keyword, punctuation
/// and operator token round-trips through the lexer, its lexeme lexing
/// to exactly that one token.
pub proof fn lemma_lex_fixed_token_round_trip(t: TokenView)
    requires
        fixed_token(t),
    ensures
        spec_lex(token_lexeme(t)) == Ok::<Seq<TokenView>, LexErrorView>(seq![t]),
{
    match t {
        TokenView::Int => {
            lemma_lex_keyword_int();
        },
        TokenView::Void => {
            lemma_lex_keyword_void();
        },
        TokenView::Return => {
            lemma_lex_keyword_return();
        },
        TokenView::DoubleMinus => {
            lemma_lex_double_minus();
        },
        _ => {
            lemma_lex_single_char(t);
        },
    }
}

proof fn lemma_lex_keyword_int()
    ensures
        spec_lex(seq!['i', 'n', 't']) == Ok::<Seq<TokenView>, LexErrorView>(seq![TokenView::Int]),
{
    let s = seq!['i', 'n', 't'];
    assert(run_len(s) == 3) by {
        reveal_with_fuel(run_len, 5);
        assert(s.skip(1) =~= seq!['n', 't']);
        assert(seq!['n', 't'].skip(1) =~= seq!['t']);
        assert(seq!['t'].skip(1) =~= Seq::<char>::empty());
    }
    reveal_with_fuel(spec_lex, 2);
    assert(s.take(3) =~= s);
    assert(s.skip(3) =~= Seq::<char>::empty());
    assert(seq![TokenView::Int] + Seq::<TokenView>::empty() =~= seq![TokenView::Int]);
}

proof fn lemma_lex_keyword_void()
    ensures
        spec_lex(seq!['v', 'o', 'i', 'd']) == Ok::<Seq<TokenView>, LexErrorView>(
            seq![TokenView::Void],
        ),
{
    let s = seq!['v', 'o', 'i', 'd'];
    assert(run_len(s) == 4) by {
        reveal_with_fuel(run_len, 6);
        assert(s.skip(1) =~= seq!['o', 'i', 'd']);
        assert(seq!['o', 'i', 'd'].skip(1) =~= seq!['i', 'd']);
        assert(seq!['i', 'd'].skip(1) =~= seq!['d']);
        assert(seq!['d'].skip(1) =~= Seq::<char>::empty());
    }
    reveal_with_fuel(spec_lex, 2);
    assert(s.take(4) =~= s);
    assert(!(s =~= seq!['i', 'n', 't']));
    assert(s.skip(4) =~= Seq::<char>::empty());
    assert(seq![TokenView::Void] + Seq::<TokenView>::empty() =~= seq![TokenView::Void]);
}

proof fn lemma_lex_keyword_return()
    ensures
        spec_lex(seq!['r', 'e', 't', 'u', 'r', 'n']) == Ok::<Seq<TokenView>, LexErrorView>(
            seq![TokenView::Return],
        ),
{
    let s = seq!['r', 'e', 't', 'u', 'r', 'n'];
    assert(run_len(s) == 6) by {
        reveal_with_fuel(run_len, 8);
        assert(s.skip(1) =~= seq!['e', 't', 'u', 'r', 'n']);
        assert(seq!['e', 't', 'u', 'r', 'n'].skip(1) =~= seq!['t', 'u', 'r', 'n']);
        assert(seq!['t', 'u', 'r', 'n'].skip(1) =~= seq!['u', 'r', 'n']);
        assert(seq!['u', 'r', 'n'].skip(1) =~= seq!['r', 'n']);
        assert(seq!['r', 'n'].skip(1) =~= seq!['n']);
        assert(seq!['n'].skip(1) =~= Seq::<char>::empty());
    }
    reveal_with_fuel(spec_lex, 2);
    assert(s.take(6) =~= s);
    assert(!(s =~= seq!['i', 'n', 't']));
    assert(!(s =~= seq!['v', 'o', 'i', 'd']));
    assert(s.skip(6) =~= Seq::<char>::empty());
    assert(seq![TokenView::Return] + Seq::<TokenView>::empty() =~= seq![TokenView::Return]);
}

proof fn lemma_lex_double_minus()
    ensures
        spec_lex(seq!['-', '-']) == Ok::<Seq<TokenView>, LexErrorView>(seq![TokenView::DoubleMinus]),
{
    let s = seq!['-', '-'];
    reveal_with_fuel(spec_lex, 2);
    assert(s.skip(2) =~= Seq::<char>::empty());
    assert(seq![TokenView::DoubleMinus] + Seq::<TokenView>::empty() =~= seq![
        TokenView::DoubleMinus,
    ]);
}

proof fn lemma_lex_single_char(t: TokenView)
    requires
        fixed_token(t),
        !(t is Int),
        !(t is Void),
        !(t is Return),
        !(t is DoubleMinus),
    ensures
        spec_lex(token_lexeme(t)) == Ok::<Seq<TokenView>, LexErrorView>(seq![t]),
{
    let s = token_lexeme(t);
    reveal_with_fuel(spec_lex, 2);
    assert(s.len() == 1);
    assert(s.skip(1) =~= Seq::<char>::empty());
    assert(seq![t] + Seq::<TokenView>::empty() =~= seq![t]);
}

/// Lexing never produces more tokens than input characters.
pub proof fn lemma_lex_token_count(s: Seq<char>)
    ensures
        spec_lex(s) is Ok ==> spec_lex(s)->Ok_0.len() <= s.len(),
    decreases s.len(),
{
    if s.len() == 0 {
    } else if is_space(s[0]) {
        lemma_lex_token_count(s.skip(1));
    } else if punct_token(s[0]) is Some {
        lemma_lex_token_count(s.skip(1));
    } else if s[0] == '-' {
        if s.len() >= 2 && s[1] == '-' {
            lemma_lex_token_count(s.skip(2));
        } else {
            lemma_lex_token_count(s.skip(1));
        }
    } else if is_digit(s[0]) {
        lemma_run_len_le(s);
        assert(run_len(s) >= 1);
        lemma_lex_token_count(s.skip(run_len(s) as int));
    } else if is_letter(s[0]) {
        lemma_run_len_le(s);
        assert(run_len(s) >= 1);
        lemma_lex_token_count(s.skip(run_len(s) as int));
    }
}

/// The view of an executable token vector.
pub open spec fn tokens_view(v: Seq<Token>) -> Seq<TokenView> {
    v.map_values(|t: Token| t@)
}

/// The view of an executable lexing result.
pub open spec fn lex_view(r: Result<Vec<Token>, LexError>) -> Result<Seq<TokenView>, LexErrorView> {
    match r {
        Ok(v) => Ok(tokens_view(v@)),
        Err(e) => Err(e@),
    }
}

/// Tokens already produced, followed by whatever lexing the remaining
/// input yields.
pub open spec fn lex_concat(
    pre: Seq<TokenView>,
    rest: Result<Seq<TokenView>, LexErrorView>,
) -> Result<Seq<TokenView>, LexErrorView> {
    match rest {
        Ok(ts) => Ok(pre + ts),
        Err(e) => Err(e),
    }
}

/// Lexes a whole source string.
pub fn lex(source: &str) -> (r: Result<Vec<Token>, LexError>)
    ensures
        lex_view(r) == spec_lex(source@),
{
    let mut cursor = Cursor::new(source);
    let mut tokens: Vec<Token> = Vec::new();
    loop
        invariant
            cursor.wf(),
            cursor.source@ == source@,
            spec_lex(source@) == lex_concat(tokens_view(tokens@), spec_lex(cursor.rest())),
        decreases cursor.length - cursor.position,
    {
        let ghost prev_rest = cursor.rest();
        match cursor.lex() {
            Ok(Some(t)) => {
                let ghost tv = t@;
                let ghost old_tokens = tokens@;
                tokens.push(t);
                proof {
                    assert(tokens_view(tokens@) =~= tokens_view(old_tokens) + seq![tv]);
                    if spec_lex(cursor.rest()) is Ok {
                        let ts = spec_lex(cursor.rest())->Ok_0;
                        assert((tokens_view(old_tokens) + seq![tv]) + ts =~= tokens_view(old_tokens)
                            + (seq![tv] + ts));
                        assert(spec_lex(prev_rest) == Ok::<Seq<TokenView>, LexErrorView>(
                            seq![tv] + ts,
                        ));
                    }
                }
            },
            Ok(None) => {
                proof {
                    assert(tokens_view(tokens@) + Seq::<TokenView>::empty() =~= tokens_view(
                        tokens@,
                    ));
                }
                return Ok(tokens);
            },
            Err(e) => {
                return Err(e);
            },
        }
    }
}

struct Cursor<'a> {
    source: &'a str,
    position: usize,
    length: usize,
}

impl<'a> Cursor<'a> {
    spec fn wf(&self) -> bool {
        self.length == self.source@.len() && self.position <= self.length
    }

    /// The input not yet consumed.
    spec fn rest(&self) -> Seq<char> {
        self.source@.skip(self.position as int)
    }

    fn new(source: &'a str) -> (c: Cursor<'a>)
        ensures
            c.wf(),
            c.source@ == source@,
            c.rest() == source@,
    {
        let length = source.unicode_len();
        let c = Cursor { source, position: 0, length };
        proof {
            assert(c.rest() =~= source@);
        }
        c
    }

    /// Advances past one character.
    fn bump(&mut self)
        requires
            old(self).wf(),
            old(self).position < old(self).length,
        ensures
            final(self).wf(),
            final(self).source == old(self).source,
            final(self).position == old(self).position + 1,
            final(self).rest() == old(self).rest().skip(1),
    {
        self.position = self.position + 1;
        proof {
            assert(self.rest() =~= old(self).rest().skip(1));
        }
    }

    /// Skips whitespace, which no token minds.
    fn skip_whitespace(&mut self)
        requires
            old(self).wf(),
        ensures
            final(self).wf(),
            final(self).source == old(self).source,
            final(self).position >= old(self).position,
            spec_lex(final(self).rest()) == spec_lex(old(self).rest()),
            final(self).position == final(self).length || !is_space(final(self).rest()[0]),
    {
        while self.position < self.length
            invariant
                self.wf(),
                self.source == old(self).source,
                self.position >= old(self).position,
                spec_lex(self.rest()) == spec_lex(old(self).rest()),
            decreases self.length - self.position,
        {
            let c = self.source.get_char(self.position);
            if !(c == ' ' || c == '\t' || c == '\n' || c == '\x0c' || c == '\r') {
                return ;
            }
            proof {
                assert(self.rest()[0] == c);
                assert(self.rest().skip(1) =~= self.source@.skip(self.position + 1));
            }
            self.bump();
        }
    }

    /// Produces the next token, `None` at the end of the input, or the
    /// first lexing error.
    fn lex(&mut self) -> (r: Result<Option<Token>, LexError>)
        requires
            old(self).wf(),
        ensures
            final(self).wf(),
            final(self).source == old(self).source,
            match r {
                Ok(Some(t)) => spec_lex(old(self).rest()) == lex_cons(
                    t@,
                    spec_lex(final(self).rest()),
                ) && final(self).position > old(self).position,
                Ok(None) => spec_lex(old(self).rest()) == Ok::<Seq<TokenView>, LexErrorView>(
                    Seq::empty(),
                ),
                Err(e) => spec_lex(old(self).rest()) == Err::<Seq<TokenView>, LexErrorView>(e@),
            },
    {
        self.skip_whitespace();
        if self.position == self.length {
            proof {
                assert(self.rest().len() == 0);
            }
            return Ok(None);
        }
        let ghost pre = self.rest();
        let c = self.source.get_char(self.position);
        proof {
            assert(pre[0] == c);
            assert(pre.skip(1) =~= self.source@.skip(self.position + 1));
        }
        if c == '(' {
            self.bump();
            Ok(Some(Token::OpenParenthesis))
        } else if c == ')' {
            self.bump();
            Ok(Some(Token::CloseParenthesis))
        } else if c == '{' {
            self.bump();
            Ok(Some(Token::OpenBrace))
        } else if c == '}' {
            self.bump();
            Ok(Some(Token::CloseBrace))
        } else if c == ';' {
            self.bump();
            Ok(Some(Token::Semicolon))
        } else if c == '~' {
            self.bump();
            Ok(Some(Token::Tilde))
        } else if c == '+' {
            self.bump();
            Ok(Some(Token::Plus))
        } else if c == '*' {
            self.bump();
            Ok(Some(Token::Star))
        } else if c == '/' {
            self.bump();
            Ok(Some(Token::Slash))
        } else if c == '%' {
            self.bump();
            Ok(Some(Token::Percent))
        } else if c == '-' {
            self.bump();
            if self.position < self.length {
                let c2 = self.source.get_char(self.position);
                if c2 == '-' {
                    proof {
                        assert(pre[1] == c2);
                        assert(self.rest().skip(1) =~= pre.skip(2));
                    }
                    self.bump();
                    return Ok(Some(Token::DoubleMinus));
                }
            }
            Ok(Some(Token::Minus))
        } else if 48 <= c as u32 && c as u32 <= 57 {
            match self.constant() {
                Ok(t) => Ok(Some(t)),
                Err(e) => Err(e),
            }
        } else if (97 <= c as u32 && c as u32 <= 122) || (65 <= c as u32 && c as u32 <= 90) {
            Ok(Some(self.identifier()))
        } else {
            Err(LexError::InvalidCharacter(c))
        }
    }

    /// Scans to the end of the alphanumeric run at the current position.
    fn scan_run(&self) -> (end: usize)
        requires
            self.wf(),
            self.position < self.length,
            is_alnum(self.rest()[0]),
        ensures
            self.position < end <= self.length,
            run_len(self.rest()) == end - self.position,
            forall|i: int|
                self.position <= i < end ==> is_alnum(#[trigger] self.source@[i]),
    {
        let mut end = self.position;
        while end < self.length
            invariant
                self.wf(),
                self.position < self.length,
                is_alnum(self.rest()[0]),
                self.position <= end <= self.length,
                forall|i: int| self.position <= i < end ==> is_alnum(#[trigger] self.source@[i]),
            decreases self.length - end,
        {
            let c = self.source.get_char(end);
            let u = c as u32;
            let alnum = (48 <= u && u <= 57) || (97 <= u && u <= 122) || (65 <= u && u <= 90);
            if !alnum {
                proof {
                    self.prove_run(end);
                }
                return end;
            }
            end = end + 1;
        }
        proof {
            self.prove_run(end);
        }
        end
    }

    proof fn prove_run(&self, end: usize)
        requires
            self.wf(),
            self.position < self.length,
            is_alnum(self.rest()[0]),
            self.position <= end <= self.length,
            forall|i: int| self.position <= i < end ==> is_alnum(#[trigger] self.source@[i]),
            end == self.length || !is_alnum(self.source@[end as int]),
        ensures
            self.position < end,
            run_len(self.rest()) == end - self.position,
    {
        assert(self.rest()[0] == self.source@[self.position as int]);
        assert forall|i: int| 0 <= i < end - self.position implies is_alnum(
            #[trigger] self.rest()[i],
        ) by {
            assert(self.rest()[i] == self.source@[self.position + i]);
        }
        if end < self.length {
            assert(self.rest()[end - self.position] == self.source@[end as int]);
        }
        lemma_run_len_exact(self.rest(), end - self.position);
    }

    /// Lexes the identifier or keyword starting at the current position.
    fn identifier(&mut self) -> (t: Token)
        requires
            old(self).wf(),
            old(self).position < old(self).length,
            is_letter(old(self).rest()[0]),
        ensures
            final(self).wf(),
            final(self).source == old(self).source,
            final(self).position > old(self).position,
            final(self).rest() == old(self).rest().skip(run_len(old(self).rest()) as int),
            t@ == ident_token(old(self).rest().take(run_len(old(self).rest()) as int)),
    {
        let end = self.scan_run();
        let lexeme = self.source.substring_char(self.position, end);
        proof {
            assert(lexeme@ =~= old(self).rest().take(run_len(old(self).rest()) as int));
        }
        self.position = end;
        proof {
            assert(self.rest() =~= old(self).rest().skip(run_len(old(self).rest()) as int));
        }
        identifier_to_token(String::from_str(lexeme))
    }

    /// Lexes the numeric literal starting at the current position.
    fn constant(&mut self) -> (r: Result<Token, LexError>)
        requires
            old(self).wf(),
            old(self).position < old(self).length,
            is_digit(old(self).rest()[0]),
        ensures
            final(self).wf(),
            final(self).source == old(self).source,
            final(self).position > old(self).position,
            final(self).rest() == old(self).rest().skip(run_len(old(self).rest()) as int),
            match r {
                Ok(t) => number_token(old(self).rest().take(run_len(old(self).rest()) as int))
                    == Ok::<TokenView, LexErrorView>(t@),
                Err(e) => number_token(old(self).rest().take(run_len(old(self).rest()) as int))
                    == Err::<TokenView, LexErrorView>(e@),
            },
    {
        let end = self.scan_run();
        let ghost lexeme = old(self).rest().take(run_len(old(self).rest()) as int);
        proof {
            assert(lexeme =~= self.source@.subrange(self.position as int, end as int));
        }
        // First pass: is the whole run made of digits?
        let mut i = self.position;
        let mut digits_only = true;
        while i < end
            invariant
                self.wf(),
                self.position <= i <= end <= self.length,
                lexeme == self.source@.subrange(self.position as int, end as int),
                digits_only <==> all_digits(self.source@.subrange(self.position as int, i as int)),
            decreases end - i,
        {
            let c = self.source.get_char(i);
            let ghost prev = self.source@.subrange(self.position as int, i as int);
            if !(48 <= c as u32 && c as u32 <= 57) {
                digits_only = false;
            }
            i = i + 1;
            proof {
                let cur = self.source@.subrange(self.position as int, i as int);
                assert(cur.drop_last() =~= prev);
                assert(cur.last() == c);
                if digits_only {
                    assert forall|j: int| 0 <= j < cur.len() implies is_digit(
                        #[trigger] cur[j],
                    ) by {
                        if j < cur.len() - 1 {
                            assert(cur[j] == prev[j]);
                        }
                    }
                } else {
                    if all_digits(cur) {
                        assert(is_digit(cur.last()));
                        assert(forall|j: int| 0 <= j < prev.len() ==> prev[j] == #[trigger] cur[j]);
                        assert(all_digits(prev));
                    }
                }
            }
        }
        let result = if !digits_only {
            Err(LexError::InvalidNumber(String::from_str(
                self.source.substring_char(self.position, end),
            )))
        } else {
            // Second pass: accumulate the value, watching for overflow.
            let mut val: u64 = 0;
            let mut over = false;
            let mut j = self.position;
            while j < end
                invariant
                    self.wf(),
                    self.position <= j <= end <= self.length,
                    lexeme == self.source@.subrange(self.position as int, end as int),
                    all_digits(lexeme),
                    !over ==> val == digits_val(
                        self.source@.subrange(self.position as int, j as int),
                    ) && val <= 0x7fff_ffff,
                    over ==> digits_val(self.source@.subrange(self.position as int, j as int))
                        > 0x7fff_ffff,
                decreases end - j,
            {
                let c = self.source.get_char(j);
                proof {
                    assert(lexeme[j - self.position] == self.source@[j as int]);
                }
                let d: u64 = (c as u32 - 48) as u64;
                let ghost prev = self.source@.subrange(self.position as int, j as int);
                j = j + 1;
                proof {
                    let cur = self.source@.subrange(self.position as int, j as int);
                    assert(cur.drop_last() =~= prev);
                    assert(cur.last() == c);
                }
                if !over {
                    let nv = val * 10 + d;
                    if nv > 0x7fff_ffff {
                        over = true;
                        proof {
                            let cur = self.source@.subrange(self.position as int, j as int);
                            assert(digits_val(cur) == digits_val(prev) * 10 + digit_val(c));
                        }
                    } else {
                        val = nv;
                    }
                }
            }
            if over {
                Err(LexError::InvalidNumber(String::from_str(
                    self.source.substring_char(self.position, end),
                )))
            } else {
                Ok(Token::Constant(val as i32))
            }
        };
        self.position = end;
        proof {
            assert(self.rest() =~= old(self).rest().skip(run_len(old(self).rest()) as int));
        }
        result
    }
}

/// The token for a complete identifier lexeme: a keyword where it is
/// one, otherwise an `Identifier`.
pub fn identifier_to_token(identifier: String) -> (t: Token)
    ensures
        t@ == ident_token(identifier@),
{
    proof {
        reveal_strlit("int");
        reveal_strlit("void");
        reveal_strlit("return");
        assert("int"@ =~= seq!['i', 'n', 't']);
        assert("void"@ =~= seq!['v', 'o', 'i', 'd']);
        assert("return"@ =~= seq!['r', 'e', 't', 'u', 'r', 'n']);
    }
    if identifier.eq(&String::from_str("int")) {
        Token::Int
    } else if identifier.eq(&String::from_str("void")) {
        Token::Void
    } else if identifier.eq(&String::from_str("return")) {
        Token::Return
    } else {
        Token::Identifier(identifier)
    }
}

/// An identifier token for the given name.
pub fn identifier(s: &str) -> (t: Token)
    ensures
        t@ == TokenView::Identifier(s@),
{
    Token::Identifier(String::from_str(s))
}

/// A constant token for the given value.
pub fn constant(i: i32) -> (t: Token)
    ensures
        t@ == TokenView::Constant(i),
{
    Token::Constant(i)
}

} // verus!
