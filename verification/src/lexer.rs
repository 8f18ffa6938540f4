//! The words of the expression language.
use crate::number::{ask_parse, NumberQuestion, NumberTable, NumbersView, QuestionView, SkillNumber};
use crate::text::{chars_of, digit, is_digit, is_letter, is_whitespace, letter, white_space};
use vstd::prelude::*;

verus! {

/// An operator.
#[derive(Clone, Copy, Debug, PartialEq, Eq, Structural)]
pub enum Op {
    /// `??`
    Nullish,
    /// `||`
    Or,
    /// `&&`
    And,
    /// `==`
    Eq,
    /// `!=`
    Ne,
    /// `<`
    Lt,
    /// `<=`
    Le,
    /// `>`
    Gt,
    /// `>=`
    Ge,
    /// `+`
    Plus,
    /// `-`
    Minus,
    /// `*`
    Times,
    /// `/`
    Over,
    /// `!`
    Not,
}

/// A word of an expression.
#[derive(Debug)]
pub enum Token {
    Number(SkillNumber),
    Str(String),
    Ident(String),
    Op(Op),
    LParen,
    RParen,
}

pub enum TokenView {
    Number(SkillNumber),
    Str(Seq<char>),
    Ident(Seq<char>),
    Op(Op),
    LParen,
    RParen,
}

impl Token {
    pub open spec fn view(&self) -> TokenView {
        match self {
            Token::Number(n) => TokenView::Number(*n),
            Token::Str(s) => TokenView::Str(s@),
            Token::Ident(s) => TokenView::Ident(s@),
            Token::Op(o) => TokenView::Op(*o),
            Token::LParen => TokenView::LParen,
            Token::RParen => TokenView::RParen,
        }
    }
}

impl Clone for Token {
    fn clone(&self) -> (r: Token)
        ensures
            r == *self,
    {
        match self {
            Token::Number(n) => Token::Number(*n),
            Token::Str(s) => Token::Str(s.clone()),
            Token::Ident(s) => Token::Ident(s.clone()),
            Token::Op(o) => Token::Op(*o),
            Token::LParen => Token::LParen,
            Token::RParen => Token::RParen,
        }
    }
}

/// Why a text could not be divided into words.
#[derive(Debug)]
pub enum LexFault {
    InvalidNumber(String),
    UnterminatedString,
    UnexpectedCharacter(char),
    Ask(NumberQuestion),
}

pub enum LexFaultView {
    InvalidNumber(Seq<char>),
    UnterminatedString,
    UnexpectedCharacter(char),
    Ask(QuestionView),
}

impl LexFault {
    pub open spec fn view(&self) -> LexFaultView {
        match self {
            LexFault::InvalidNumber(t) => LexFaultView::InvalidNumber(t@),
            LexFault::UnterminatedString => LexFaultView::UnterminatedString,
            LexFault::UnexpectedCharacter(c) => LexFaultView::UnexpectedCharacter(*c),
            LexFault::Ask(q) => LexFaultView::Ask(q@),
        }
    }
}

/// A kind of character that a word runs over.
pub enum Run {
    /// Digits and dots.
    Number,
    /// Letters, digits, `_`, `.` and `$`.
    Ident,
    /// Everything but a quote.
    Quoted,
}

/// A word of this kind runs over the character.
pub open spec fn runs_over(run: Run, c: char) -> bool {
    match run {
        Run::Number => is_digit(c) || c == '.',
        Run::Ident => is_letter(c) || is_digit(c) || c == '_' || c == '.' || c == '$',
        Run::Quoted => c != '"',
    }
}

/// The first place from `i` on that a word of this kind does not run over.
pub open spec fn run_end(run: Run, t: Seq<char>, i: int) -> int
    decreases t.len() - i,
{
    if 0 <= i < t.len() && runs_over(run, t[i]) {
        run_end(run, t, i + 1)
    } else {
        i
    }
}

proof fn lemma_run_end(run: Run, t: Seq<char>, i: int)
    requires
        0 <= i <= t.len(),
    ensures
        i <= run_end(run, t, i) <= t.len(),
    decreases t.len() - i,
{
    if i < t.len() && runs_over(run, t[i]) {
        lemma_run_end(run, t, i + 1);
    }
}

/// The operator of two characters.
pub open spec fn long_op(a: char, b: char) -> Option<Op> {
    if a == '?' && b == '?' {
        Some(Op::Nullish)
    } else if a == '&' && b == '&' {
        Some(Op::And)
    } else if a == '|' && b == '|' {
        Some(Op::Or)
    } else if a == '=' && b == '=' {
        Some(Op::Eq)
    } else if a == '!' && b == '=' {
        Some(Op::Ne)
    } else if a == '<' && b == '=' {
        Some(Op::Le)
    } else if a == '>' && b == '=' {
        Some(Op::Ge)
    } else {
        None
    }
}

/// The operator of one character.
pub open spec fn short_op(a: char) -> Option<Op> {
    if a == '+' {
        Some(Op::Plus)
    } else if a == '-' {
        Some(Op::Minus)
    } else if a == '*' {
        Some(Op::Times)
    } else if a == '/' {
        Some(Op::Over)
    } else if a == '<' {
        Some(Op::Lt)
    } else if a == '>' {
        Some(Op::Gt)
    } else if a == '!' {
        Some(Op::Not)
    } else {
        None
    }
}

/// What begins at a place of a text, and the place behind it.
pub enum Lexeme {
    Blank,
    Number(int),
    Str(int),
    Unterminated,
    Ident(int),
    LParen,
    RParen,
    Op(Op, int),
    Unknown,
}

/// What begins at place `i` of the text. Each word is as long as it can be.
pub open spec fn lexeme(t: Seq<char>, i: int) -> Lexeme {
    let c = t[i];
    if white_space(c) {
        Lexeme::Blank
    } else if is_digit(c) || (c == '.' && i + 1 < t.len() && is_digit(t[i + 1])) {
        Lexeme::Number(run_end(Run::Number, t, i + 1))
    } else if c == '"' {
        let end = run_end(Run::Quoted, t, i + 1);
        if end < t.len() {
            Lexeme::Str(end)
        } else {
            Lexeme::Unterminated
        }
    } else if is_letter(c) || c == '_' || c == '$' {
        Lexeme::Ident(run_end(Run::Ident, t, i + 1))
    } else if c == '(' {
        Lexeme::LParen
    } else if c == ')' {
        Lexeme::RParen
    } else if i + 1 < t.len() && long_op(c, t[i + 1]) is Some {
        Lexeme::Op(long_op(c, t[i + 1])->0, i + 2)
    } else if short_op(c) is Some {
        Lexeme::Op(short_op(c)->0, i + 1)
    } else {
        Lexeme::Unknown
    }
}

/// A word in front of those that follow it.
pub open spec fn word_then(w: TokenView, rest: Result<Seq<TokenView>, LexFaultView>) -> Result<
    Seq<TokenView>,
    LexFaultView,
> {
    match rest {
        Ok(s) => Ok(seq![w] + s),
        Err(e) => Err(e),
    }
}

/// The words of the text from place `i` on, or the first fault.
pub open spec fn words_from(t: Seq<char>, i: int, n: NumbersView) -> Result<
    Seq<TokenView>,
    LexFaultView,
>
    decreases t.len() - i,
{
    if 0 <= i < t.len() {
        match lexeme(t, i) {
            Lexeme::Blank => words_from(t, i + 1, n),
            Lexeme::Number(end) => match ask_parse(n, t.subrange(i, end)) {
                Ok(Some(v)) => if i < end <= t.len() {
                    word_then(TokenView::Number(v), words_from(t, end, n))
                } else {
                    arbitrary()
                },
                Ok(None) => Err(LexFaultView::InvalidNumber(t.subrange(i, end))),
                Err(q) => Err(LexFaultView::Ask(q)),
            },
            Lexeme::Str(end) => if i < end <= t.len() {
                word_then(TokenView::Str(t.subrange(i + 1, end)), words_from(t, end + 1, n))
            } else {
                arbitrary()
            },
            Lexeme::Unterminated => Err(LexFaultView::UnterminatedString),
            Lexeme::Ident(end) => if i < end <= t.len() {
                word_then(TokenView::Ident(t.subrange(i, end)), words_from(t, end, n))
            } else {
                arbitrary()
            },
            Lexeme::LParen => word_then(TokenView::LParen, words_from(t, i + 1, n)),
            Lexeme::RParen => word_then(TokenView::RParen, words_from(t, i + 1, n)),
            Lexeme::Op(op, end) => if i < end <= t.len() {
                word_then(TokenView::Op(op), words_from(t, end, n))
            } else {
                arbitrary()
            },
            Lexeme::Unknown => Err(LexFaultView::UnexpectedCharacter(t[i])),
        }
    } else {
        Ok(Seq::empty())
    }
}

/// The contents of a list of words.
pub open spec fn tokens_view(s: Seq<Token>) -> Seq<TokenView> {
    Seq::new(s.len(), |i: int| s[i]@)
}

pub open spec fn lexed(r: Result<Vec<Token>, LexFault>) -> Result<Seq<TokenView>, LexFaultView> {
    match r {
        Ok(v) => Ok(tokens_view(v@)),
        Err(e) => Err(e@),
    }
}

/// Words that were read, in front of those that follow them.
spec fn words_then(done: Seq<TokenView>, rest: Result<Seq<TokenView>, LexFaultView>) -> Result<
    Seq<TokenView>,
    LexFaultView,
> {
    match rest {
        Ok(s) => Ok(done + s),
        Err(e) => Err(e),
    }
}

proof fn lemma_word_read(
    done: Seq<Token>,
    w: Token,
    rest: Result<Seq<TokenView>, LexFaultView>,
)
    ensures
        words_then(tokens_view(done), word_then(w@, rest)) == words_then(
            tokens_view(done.push(w)),
            rest,
        ),
{
    match rest {
        Ok(s) => {
            assert(tokens_view(done) + (seq![w@] + s) =~= tokens_view(done.push(w)) + s);
        },
        Err(_) => {},
    }
}

fn end_of_run(run: Run, t: &Vec<char>, from: usize) -> (r: usize)
    requires
        from <= t@.len(),
    ensures
        r == run_end(run, t@, from as int),
        from <= r <= t@.len(),
{
    let mut i: usize = from;
    proof {
        lemma_run_end(run, t@, from as int);
    }
    loop
        invariant
            from <= i <= t@.len(),
            run_end(run, t@, i as int) == run_end(run, t@, from as int),
        ensures
            i == run_end(run, t@, from as int),
            i <= t@.len(),
        decreases t@.len() - i,
    {
        if i >= t.len() {
            break;
        }
        let c = t[i];
        let over: bool = match run {
            Run::Number => digit(c) || c == '.',
            Run::Ident => letter(c) || digit(c) || c == '_' || c == '.' || c == '$',
            Run::Quoted => c != '"',
        };
        if !over {
            break;
        }
        i = i + 1;
    }
    i
}

fn two_char_op(a: char, b: char) -> (r: Option<Op>)
    ensures
        r == long_op(a, b),
{
    if a == '?' && b == '?' {
        Some(Op::Nullish)
    } else if a == '&' && b == '&' {
        Some(Op::And)
    } else if a == '|' && b == '|' {
        Some(Op::Or)
    } else if a == '=' && b == '=' {
        Some(Op::Eq)
    } else if a == '!' && b == '=' {
        Some(Op::Ne)
    } else if a == '<' && b == '=' {
        Some(Op::Le)
    } else if a == '>' && b == '=' {
        Some(Op::Ge)
    } else {
        None
    }
}

fn one_char_op(a: char) -> (r: Option<Op>)
    ensures
        r == short_op(a),
{
    if a == '+' {
        Some(Op::Plus)
    } else if a == '-' {
        Some(Op::Minus)
    } else if a == '*' {
        Some(Op::Times)
    } else if a == '/' {
        Some(Op::Over)
    } else if a == '<' {
        Some(Op::Lt)
    } else if a == '>' {
        Some(Op::Gt)
    } else if a == '!' {
        Some(Op::Not)
    } else {
        None
    }
}

fn slice_text(input: &str, from: usize, to: usize) -> (r: String)
    requires
        from <= to <= input@.len(),
    ensures
        r@ == input@.subrange(from as int, to as int),
{
    input.substring_char(from, to).to_owned()
}

/// Divides a text into words.
pub fn tokenize(input: &str, numbers: &NumberTable) -> (r: Result<Vec<Token>, LexFault>)
    ensures
        lexed(r) == words_from(input@, 0, numbers@),
{
    let chars: Vec<char> = chars_of(input);
    let mut tokens: Vec<Token> = Vec::new();
    let mut i: usize = 0;
    assert(tokens_view(tokens@) =~= Seq::<TokenView>::empty());
    proof {
        match words_from(input@, 0, numbers@) {
            Ok(s) => {
                assert(Seq::<TokenView>::empty() + s =~= s);
            },
            Err(_) => {},
        }
    }
    while i < chars.len()
        invariant
            i <= chars@.len(),
            chars@ == input@,
            words_from(input@, 0, numbers@) == words_then(
                tokens_view(tokens@),
                words_from(input@, i as int, numbers@),
            ),
        decreases chars@.len() - i,
    {
        let c = chars[i];
        let ghost done = tokens@;
        if is_whitespace(c) {
            i = i + 1;
            continue;
        }
        if digit(c) || (c == '.' && i + 1 < chars.len() && digit(chars[i + 1])) {
            let end: usize = end_of_run(Run::Number, &chars, i + 1);
            let word: String = slice_text(input, i, end);
            match numbers.parse(&word) {
                Ok(Some(v)) => {
                    let w = Token::Number(v);
                    proof {
                        lemma_word_read(done, w, words_from(input@, end as int, numbers@));
                    }
                    tokens.push(w);
                },
                Ok(None) => {
                    return Err(LexFault::InvalidNumber(word));
                },
                Err(q) => {
                    return Err(LexFault::Ask(q));
                },
            }
            i = end;
            continue;
        }
        if c == '"' {
            let end: usize = end_of_run(Run::Quoted, &chars, i + 1);
            if end >= chars.len() {
                return Err(LexFault::UnterminatedString);
            }
            let w = Token::Str(slice_text(input, i + 1, end));
            proof {
                lemma_word_read(done, w, words_from(input@, end + 1, numbers@));
            }
            tokens.push(w);
            i = end + 1;
            continue;
        }
        if letter(c) || c == '_' || c == '$' {
            let end: usize = end_of_run(Run::Ident, &chars, i + 1);
            let w = Token::Ident(slice_text(input, i, end));
            proof {
                lemma_word_read(done, w, words_from(input@, end as int, numbers@));
            }
            tokens.push(w);
            i = end;
            continue;
        }
        if c == '(' || c == ')' {
            let w = if c == '(' {
                Token::LParen
            } else {
                Token::RParen
            };
            proof {
                lemma_word_read(done, w, words_from(input@, i + 1, numbers@));
            }
            tokens.push(w);
            i = i + 1;
            continue;
        }
        if i + 1 < chars.len() {
            if let Some(op) = two_char_op(c, chars[i + 1]) {
                let w = Token::Op(op);
                proof {
                    lemma_word_read(done, w, words_from(input@, i + 2, numbers@));
                }
                tokens.push(w);
                i = i + 2;
                continue;
            }
        }
        if let Some(op) = one_char_op(c) {
            let w = Token::Op(op);
            proof {
                lemma_word_read(done, w, words_from(input@, i + 1, numbers@));
            }
            tokens.push(w);
            i = i + 1;
            continue;
        }
        return Err(LexFault::UnexpectedCharacter(c));
    }
    proof {
        assert(tokens_view(tokens@) + Seq::<TokenView>::empty() =~= tokens_view(tokens@));
    }
    Ok(tokens)
}

} // verus!
