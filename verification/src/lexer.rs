//! Lexical analysis: turning source text into a flat sequence of tokens.
//!
//! Scanning runs left to right with one character of lookahead. Runs of
//! digits and points become numeric literals, runs of letters become
//! keywords or identifiers, runs of punctuation become operators, and the
//! pair `//` opens a comment that reaches to the end of the line. A run of
//! exactly two spaces is itself a token; a single space is skipped.

use vstd::prelude::*;

verus! {

/// The operators of the language, from assignment up to the logical
/// connectives. Each has a fixed priority; see [`Operator::priority`].
#[derive(Debug, PartialEq, Eq, Hash, Copy, Clone)]
pub enum Op {
    Assign,
    Plus,
    Minus,
    Mult,
    Div,
    Eq,
    Ne,
    Lt,
    Gt,
    Le,
    Ge,
    Not,
    And,
    Or,
    Xor,
}

/// The priority of an operator: a higher number binds tighter.
///
/// Assignment sits lowest, then the comparisons, then the additive group
/// (with logical or and xor), then the multiplicative group (with logical
/// and), and logical not highest.
pub open spec fn spec_priority(op: Op) -> u8 {
    match op {
        Op::Assign => 0,
        Op::Plus => 2,
        Op::Minus => 2,
        Op::Mult => 3,
        Op::Div => 3,
        Op::Eq => 1,
        Op::Ne => 1,
        Op::Lt => 1,
        Op::Gt => 1,
        Op::Le => 1,
        Op::Ge => 1,
        Op::Not => 4,
        Op::And => 3,
        Op::Or => 2,
        Op::Xor => 2,
    }
}

/// Something that ranks itself against its peers by a numeric priority.
pub trait Operator {
    /// The priority this value claims in specifications.
    spec fn spec_priority(&self) -> u8;

    /// Returns the priority; a higher number binds tighter.
    fn priority(&self) -> (p: u8)
        ensures
            p == self.spec_priority(),
    ;
}

impl Operator for Op {
    open spec fn spec_priority(&self) -> u8 {
        spec_priority(*self)
    }

    fn priority(&self) -> (p: u8) {
        match self {
            Op::Assign => 0,
            Op::Plus => 2,
            Op::Minus => 2,
            Op::Mult => 3,
            Op::Div => 3,
            Op::Eq => 1,
            Op::Ne => 1,
            Op::Lt => 1,
            Op::Gt => 1,
            Op::Le => 1,
            Op::Ge => 1,
            Op::Not => 4,
            Op::And => 3,
            Op::Or => 2,
            Op::Xor => 2,
        }
    }
}

/// The reserved words of the language. A run of letters that spells one of
/// these becomes a keyword token rather than an identifier.
#[derive(Debug, PartialEq, Eq, Copy, Clone)]
pub enum KeyWord {
    Var,
    Def,
    Extern,
    If,
    Then,
    Else,
}

/// One lexical unit of source text.
///
/// `Id`, `Lit` and `Comm` carry the text they were scanned from: an
/// identifier its name, a literal its digits and point exactly as written,
/// and a comment everything after `//` up to and including the line end
/// (a line feed is supplied when the input ends first). `Tab` marks a run
/// of exactly two spaces, which this scanner keeps as a token of its own.
#[derive(Debug, PartialEq)]
pub enum Token {
    KeyWord(KeyWord),
    Id(String),
    Lit(String),
    Op(Op),
    Comm(String),
    LeftBracket,
    RightBracket,
    Tab,
}

/// The mathematical shadow of a [`Token`]: the same variants with the
/// carried text as a sequence of characters.
pub enum SpecToken {
    KeyWord(KeyWord),
    Id(Seq<char>),
    Lit(Seq<char>),
    Op(Op),
    Comm(Seq<char>),
    LeftBracket,
    RightBracket,
    Tab,
}

impl View for Token {
    type V = SpecToken;

    open spec fn view(&self) -> SpecToken {
        match self {
            Token::KeyWord(k) => SpecToken::KeyWord(*k),
            Token::Id(s) => SpecToken::Id(s@),
            Token::Lit(s) => SpecToken::Lit(s@),
            Token::Op(op) => SpecToken::Op(*op),
            Token::Comm(s) => SpecToken::Comm(s@),
            Token::LeftBracket => SpecToken::LeftBracket,
            Token::RightBracket => SpecToken::RightBracket,
            Token::Tab => SpecToken::Tab,
        }
    }
}

impl Clone for Token {
    /// A copy that parses and prints exactly as the token it was made from.
    fn clone(&self) -> (r: Self)
        ensures
            r@ == self@,
    {
        match self {
            Token::KeyWord(k) => Token::KeyWord(*k),
            Token::Id(s) => Token::Id(s.clone()),
            Token::Lit(s) => Token::Lit(s.clone()),
            Token::Op(op) => Token::Op(*op),
            Token::Comm(s) => Token::Comm(s.clone()),
            Token::LeftBracket => Token::LeftBracket,
            Token::RightBracket => Token::RightBracket,
            Token::Tab => Token::Tab,
        }
    }
}

/// Why scanning failed.
///
/// `Lexical` reports a run of punctuation that spells no operator, or a
/// character outside every class the scanner knows. `NumericFormat` reports
/// a digit-and-point run that does not denote a number.
#[derive(Debug, PartialEq, Eq, Copy, Clone)]
pub enum LexError {
    Lexical,
    NumericFormat,
}

/// A separator character: one of these between tokens is skipped.
pub open spec fn is_space_char(c: char) -> bool {
    c == ' ' || c == '\t' || c == '\n' || c == '\r'
}

/// A decimal digit.
pub open spec fn is_digit_char(c: char) -> bool {
    '0' <= c && c <= '9'
}

/// A character that continues a numeric run: a digit or the decimal point.
pub open spec fn is_num_char(c: char) -> bool {
    is_digit_char(c) || c == '.'
}

/// A letter: identifiers and keywords are unbroken runs of these.
pub open spec fn is_letter_char(c: char) -> bool {
    ('a' <= c && c <= 'z') || ('A' <= c && c <= 'Z')
}

/// A punctuation character: operators are unbroken runs of these.
pub open spec fn is_punct_char(c: char) -> bool {
    ('!' <= c && c <= '/') || (':' <= c && c <= '@') || ('[' <= c && c <= '`') || ('{' <= c && c
        <= '~')
}

/// A character that ends a comment line.
pub open spec fn is_line_end_char(c: char) -> bool {
    c == '\n' || c == '\r'
}

/// The first position at or after `i` that does not hold a numeric-run
/// character, or the end of the text.
pub open spec fn num_run_end(s: Seq<char>, i: int) -> int
    decreases s.len() - i,
{
    if i < 0 || i >= s.len() || !is_num_char(s[i]) {
        i
    } else {
        num_run_end(s, i + 1)
    }
}

/// The first position at or after `i` that does not hold a letter.
pub open spec fn letter_run_end(s: Seq<char>, i: int) -> int
    decreases s.len() - i,
{
    if i < 0 || i >= s.len() || !is_letter_char(s[i]) {
        i
    } else {
        letter_run_end(s, i + 1)
    }
}

/// The first position at or after `i` that does not hold punctuation.
pub open spec fn punct_run_end(s: Seq<char>, i: int) -> int
    decreases s.len() - i,
{
    if i < 0 || i >= s.len() || !is_punct_char(s[i]) {
        i
    } else {
        punct_run_end(s, i + 1)
    }
}

/// The first line end at or after `i`, or the end of the text.
pub open spec fn comment_run_end(s: Seq<char>, i: int) -> int
    decreases s.len() - i,
{
    if i < 0 || i >= s.len() || is_line_end_char(s[i]) {
        i
    } else {
        comment_run_end(s, i + 1)
    }
}

pub proof fn lemma_num_run_end(s: Seq<char>, i: int)
    requires
        0 <= i <= s.len(),
    ensures
        i <= num_run_end(s, i) <= s.len(),
        forall|k: int| i <= k < num_run_end(s, i) ==> is_num_char(s[k]),
        num_run_end(s, i) < s.len() ==> !is_num_char(s[num_run_end(s, i)]),
        i < s.len() && is_num_char(s[i]) ==> i + 1 <= num_run_end(s, i),
    decreases s.len() - i,
{
    if i < s.len() && is_num_char(s[i]) {
        lemma_num_run_end(s, i + 1);
    }
}

pub proof fn lemma_letter_run_end(s: Seq<char>, i: int)
    requires
        0 <= i <= s.len(),
    ensures
        i <= letter_run_end(s, i) <= s.len(),
        forall|k: int| i <= k < letter_run_end(s, i) ==> is_letter_char(s[k]),
        letter_run_end(s, i) < s.len() ==> !is_letter_char(s[letter_run_end(s, i)]),
        i < s.len() && is_letter_char(s[i]) ==> i + 1 <= letter_run_end(s, i),
    decreases s.len() - i,
{
    if i < s.len() && is_letter_char(s[i]) {
        lemma_letter_run_end(s, i + 1);
    }
}

pub proof fn lemma_punct_run_end(s: Seq<char>, i: int)
    requires
        0 <= i <= s.len(),
    ensures
        i <= punct_run_end(s, i) <= s.len(),
        forall|k: int| i <= k < punct_run_end(s, i) ==> is_punct_char(s[k]),
        punct_run_end(s, i) < s.len() ==> !is_punct_char(s[punct_run_end(s, i)]),
        i < s.len() && is_punct_char(s[i]) ==> i + 1 <= punct_run_end(s, i),
    decreases s.len() - i,
{
    if i < s.len() && is_punct_char(s[i]) {
        lemma_punct_run_end(s, i + 1);
    }
}

pub proof fn lemma_comment_run_end(s: Seq<char>, i: int)
    requires
        0 <= i <= s.len(),
    ensures
        i <= comment_run_end(s, i) <= s.len(),
        forall|k: int| i <= k < comment_run_end(s, i) ==> !is_line_end_char(s[k]),
        comment_run_end(s, i) < s.len() ==> is_line_end_char(s[comment_run_end(s, i)]),
    decreases s.len() - i,
{
    if i < s.len() && !is_line_end_char(s[i]) {
        lemma_comment_run_end(s, i + 1);
    }
}

/// How many decimal points stand in `s` between `i` (inclusive) and `j`
/// (exclusive).
pub open spec fn dots_between(s: Seq<char>, i: int, j: int) -> int
    decreases j - i,
{
    if 0 <= i && i < j && j <= s.len() {
        (if s[i] == '.' {
            1int
        } else {
            0int
        }) + dots_between(s, i + 1, j)
    } else {
        0
    }
}

/// Whether some position of `s` between `i` (inclusive) and `j` (exclusive)
/// holds a digit.
pub open spec fn has_digit_between(s: Seq<char>, i: int, j: int) -> bool {
    exists|k: int| i <= k < j && is_digit_char(s[k])
}

/// Whether the numeric run of `s` from `i` to `j` denotes a number: at most
/// one decimal point and at least one digit.
pub open spec fn is_valid_number_run(s: Seq<char>, i: int, j: int) -> bool {
    dots_between(s, i, j) <= 1 && has_digit_between(s, i, j)
}

/// The keyword a run of letters spells, if any.
pub open spec fn keyword_of(w: Seq<char>) -> Option<KeyWord> {
    if w == seq!['v', 'a', 'r'] {
        Some(KeyWord::Var)
    } else if w == seq!['d', 'e', 'f'] {
        Some(KeyWord::Def)
    } else if w == seq!['e', 'x', 't', 'e', 'r', 'n'] {
        Some(KeyWord::Extern)
    } else if w == seq!['i', 'f'] {
        Some(KeyWord::If)
    } else if w == seq!['t', 'h', 'e', 'n'] {
        Some(KeyWord::Then)
    } else if w == seq!['e', 'l', 's', 'e'] {
        Some(KeyWord::Else)
    } else {
        None
    }
}

/// The token a run of letters becomes: the keyword it spells, or an
/// identifier holding it.
pub open spec fn word_token(w: Seq<char>) -> SpecToken {
    match keyword_of(w) {
        Some(k) => SpecToken::KeyWord(k),
        None => SpecToken::Id(w),
    }
}

/// The operator a run of punctuation spells, if any.
pub open spec fn op_of_run(r: Seq<char>) -> Option<Op> {
    if r == seq!['='] {
        Some(Op::Assign)
    } else if r == seq!['+'] {
        Some(Op::Plus)
    } else if r == seq!['-'] {
        Some(Op::Minus)
    } else if r == seq!['*'] {
        Some(Op::Mult)
    } else if r == seq!['/'] {
        Some(Op::Div)
    } else if r == seq!['=', '='] {
        Some(Op::Eq)
    } else if r == seq!['!', '='] {
        Some(Op::Ne)
    } else if r == seq!['<'] {
        Some(Op::Lt)
    } else if r == seq!['>'] {
        Some(Op::Gt)
    } else if r == seq!['<', '='] {
        Some(Op::Le)
    } else if r == seq!['>', '='] {
        Some(Op::Ge)
    } else if r == seq!['!'] {
        Some(Op::Not)
    } else if r == seq!['&', '&'] {
        Some(Op::And)
    } else if r == seq!['|', '|'] {
        Some(Op::Or)
    } else if r == seq!['^'] {
        Some(Op::Xor)
    } else {
        None
    }
}

/// Puts `t` in front of the tokens of `r`, or passes `r`'s failure through.
pub open spec fn prepend_token(t: SpecToken, r: Result<Seq<SpecToken>, LexError>) -> Result<
    Seq<SpecToken>,
    LexError,
> {
    match r {
        Ok(ts) => Ok(seq![t] + ts),
        Err(e) => Err(e),
    }
}

/// The tokens of `s` from position `i` on: the meaning of scanning.
///
/// One step reads the character at `i`. A lone separator is skipped and a
/// pair of spaces becomes a `Tab` token; a numeric run becomes a literal
/// when it denotes a number and fails the scan otherwise; a letter run
/// becomes a keyword or an identifier; the brackets stand for themselves; a
/// punctuation run spelling exactly `//` opens a comment that carries
/// everything up to and including the line end (a line feed is supplied
/// when the text ends first), any other punctuation run must spell an
/// operator; and every remaining character fails the scan.
pub open spec fn spec_tokenize_from(s: Seq<char>, i: int) -> Result<Seq<SpecToken>, LexError>
    decreases s.len() - i
        when 0 <= i
        via spec_tokenize_from_dec
{
    if i >= s.len() {
        Ok(Seq::empty())
    } else {
        let c = s[i];
        if is_space_char(c) {
            if c == ' ' && i + 1 < s.len() && s[i + 1] == ' ' {
                prepend_token(SpecToken::Tab, spec_tokenize_from(s, i + 2))
            } else {
                spec_tokenize_from(s, i + 1)
            }
        } else if is_num_char(c) {
            let j = num_run_end(s, i);
            if is_valid_number_run(s, i, j) {
                prepend_token(SpecToken::Lit(s.subrange(i, j)), spec_tokenize_from(s, j))
            } else {
                Err(LexError::NumericFormat)
            }
        } else if is_letter_char(c) {
            let j = letter_run_end(s, i);
            prepend_token(word_token(s.subrange(i, j)), spec_tokenize_from(s, j))
        } else if c == '(' {
            prepend_token(SpecToken::LeftBracket, spec_tokenize_from(s, i + 1))
        } else if c == ')' {
            prepend_token(SpecToken::RightBracket, spec_tokenize_from(s, i + 1))
        } else if is_punct_char(c) {
            let j = punct_run_end(s, i);
            if s.subrange(i, j) == seq!['/', '/'] {
                let ce = comment_run_end(s, j);
                if ce < s.len() {
                    prepend_token(
                        SpecToken::Comm(s.subrange(j, ce + 1)),
                        spec_tokenize_from(s, ce + 1),
                    )
                } else {
                    prepend_token(
                        SpecToken::Comm(s.subrange(j, ce).push('\n')),
                        spec_tokenize_from(s, ce),
                    )
                }
            } else {
                match op_of_run(s.subrange(i, j)) {
                    Some(op) => prepend_token(SpecToken::Op(op), spec_tokenize_from(s, j)),
                    None => Err(LexError::Lexical),
                }
            }
        } else {
            Err(LexError::Lexical)
        }
    }
}

#[via_fn]
proof fn spec_tokenize_from_dec(s: Seq<char>, i: int) {
    if 0 <= i < s.len() {
        lemma_num_run_end(s, i);
        lemma_letter_run_end(s, i);
        lemma_punct_run_end(s, i);
        lemma_comment_run_end(s, punct_run_end(s, i));
    }
}

/// The tokens of the whole of `s`, or the failure that scanning it meets.
pub open spec fn spec_tokenize(s: Seq<char>) -> Result<Seq<SpecToken>, LexError> {
    spec_tokenize_from(s, 0)
}

/// A run of two spaces is exactly one separator token: scanning from a
/// position holding a space followed by a space emits one `Tab` and
/// continues right after the pair.
pub proof fn lemma_double_space_tab(s: Seq<char>, i: int)
    requires
        0 <= i,
        i + 1 < s.len(),
        s[i] == ' ',
        s[i + 1] == ' ',
    ensures
        spec_tokenize_from(s, i) == prepend_token(SpecToken::Tab, spec_tokenize_from(s, i + 2)),
{
}

/// A single space is no token at all: scanning from a space that no space
/// follows continues at the next character and emits nothing.
pub proof fn lemma_single_space_skipped(s: Seq<char>, i: int)
    requires
        0 <= i < s.len(),
        s[i] == ' ',
        i + 1 < s.len() ==> s[i + 1] != ' ',
    ensures
        spec_tokenize_from(s, i) == spec_tokenize_from(s, i + 1),
{
}

/// The views of a token sequence, element by element.
pub open spec fn tokens_view(v: Seq<Token>) -> Seq<SpecToken> {
    v.map_values(|t: Token| t@)
}

/// The view of what [`tokenize`] returns.
pub open spec fn lex_result_view(r: Result<Vec<Token>, LexError>) -> Result<
    Seq<SpecToken>,
    LexError,
> {
    match r {
        Ok(toks) => Ok(tokens_view(toks@)),
        Err(e) => Err(e),
    }
}

/// Joins an already-scanned prefix with the outcome of scanning the rest.
pub open spec fn prepend_all(pre: Seq<SpecToken>, r: Result<Seq<SpecToken>, LexError>) -> Result<
    Seq<SpecToken>,
    LexError,
> {
    match r {
        Ok(ts) => Ok(pre + ts),
        Err(e) => Err(e),
    }
}

proof fn lemma_prepend_all_empty(r: Result<Seq<SpecToken>, LexError>)
    ensures
        prepend_all(Seq::empty(), r) == r,
{
    if let Ok(ts) = r {
        assert(Seq::empty() + ts =~= ts);
    }
}

proof fn lemma_prepend_all_step(pre: Seq<SpecToken>, t: SpecToken, r: Result<Seq<SpecToken>, LexError>)
    ensures
        prepend_all(pre, prepend_token(t, r)) == prepend_all(pre.push(t), r),
{
    if let Ok(ts) = r {
        assert(pre + (seq![t] + ts) =~= pre.push(t) + ts);
    }
}

proof fn lemma_prepend_all_done(pre: Seq<SpecToken>)
    ensures
        prepend_all(pre, Ok(Seq::empty())) == Ok::<Seq<SpecToken>, LexError>(pre),
{
    assert(pre + Seq::<SpecToken>::empty() =~= pre);
}

proof fn lemma_tokens_view_push(v: Seq<Token>, t: Token)
    ensures
        tokens_view(v.push(t)) == tokens_view(v).push(t@),
{
    assert(tokens_view(v.push(t)) =~= tokens_view(v).push(t@));
}

/// One step of counting points: the count over a run grows by the last
/// character's contribution.
proof fn lemma_dots_snoc(s: Seq<char>, i: int, j: int)
    requires
        0 <= i <= j < s.len(),
    ensures
        dots_between(s, i, j + 1) == dots_between(s, i, j) + (if s[j] == '.' {
            1int
        } else {
            0int
        }),
    decreases j - i,
{
    if i < j {
        lemma_dots_snoc(s, i + 1, j);
    } else {
        assert(dots_between(s, j + 1, j + 1) == 0);
        assert(dots_between(s, j, j) == 0);
    }
}

fn space_char(c: char) -> (b: bool)
    ensures
        b == is_space_char(c),
{
    c == ' ' || c == '\t' || c == '\n' || c == '\r'
}

fn num_char(c: char) -> (b: bool)
    ensures
        b == is_num_char(c),
{
    ('0' <= c && c <= '9') || c == '.'
}

fn digit_char(c: char) -> (b: bool)
    ensures
        b == is_digit_char(c),
{
    '0' <= c && c <= '9'
}

fn letter_char(c: char) -> (b: bool)
    ensures
        b == is_letter_char(c),
{
    ('a' <= c && c <= 'z') || ('A' <= c && c <= 'Z')
}

fn punct_char(c: char) -> (b: bool)
    ensures
        b == is_punct_char(c),
{
    ('!' <= c && c <= '/') || (':' <= c && c <= '@') || ('[' <= c && c <= '`') || ('{' <= c && c
        <= '~')
}

fn line_end_char(c: char) -> (b: bool)
    ensures
        b == is_line_end_char(c),
{
    c == '\n' || c == '\r'
}

/// Turns a scanned run of letters into the keyword it spells, or an
/// identifier token holding it.
fn make_word_token(w: &str) -> (t: Token)
    ensures
        t@ == word_token(w@),
{
    let n = w.unicode_len();
    if n == 3 && w.get_char(0) == 'v' && w.get_char(1) == 'a' && w.get_char(2) == 'r' {
        proof {
            assert(w@ =~= seq!['v', 'a', 'r']);
        }
        Token::KeyWord(KeyWord::Var)
    } else if n == 3 && w.get_char(0) == 'd' && w.get_char(1) == 'e' && w.get_char(2) == 'f' {
        proof {
            assert(w@ =~= seq!['d', 'e', 'f']);
        }
        Token::KeyWord(KeyWord::Def)
    } else if n == 6 && w.get_char(0) == 'e' && w.get_char(1) == 'x' && w.get_char(2) == 't'
        && w.get_char(3) == 'e' && w.get_char(4) == 'r' && w.get_char(5) == 'n' {
        proof {
            assert(w@ =~= seq!['e', 'x', 't', 'e', 'r', 'n']);
        }
        Token::KeyWord(KeyWord::Extern)
    } else if n == 2 && w.get_char(0) == 'i' && w.get_char(1) == 'f' {
        proof {
            assert(w@ =~= seq!['i', 'f']);
        }
        Token::KeyWord(KeyWord::If)
    } else if n == 4 && w.get_char(0) == 't' && w.get_char(1) == 'h' && w.get_char(2) == 'e'
        && w.get_char(3) == 'n' {
        proof {
            assert(w@ =~= seq!['t', 'h', 'e', 'n']);
        }
        Token::KeyWord(KeyWord::Then)
    } else if n == 4 && w.get_char(0) == 'e' && w.get_char(1) == 'l' && w.get_char(2) == 's'
        && w.get_char(3) == 'e' {
        proof {
            assert(w@ =~= seq!['e', 'l', 's', 'e']);
        }
        Token::KeyWord(KeyWord::Else)
    } else {
        Token::Id(w.to_owned())
    }
}

/// Turns a scanned run of punctuation into the operator it spells, if any.
fn op_of_slice(r: &str) -> (op: Option<Op>)
    ensures
        op == op_of_run(r@),
{
    let n = r.unicode_len();
    if n == 1 {
        let c = r.get_char(0);
        proof {
            assert(r@ =~= seq![r@[0]]);
        }
        if c == '=' {
            Some(Op::Assign)
        } else if c == '+' {
            Some(Op::Plus)
        } else if c == '-' {
            Some(Op::Minus)
        } else if c == '*' {
            Some(Op::Mult)
        } else if c == '/' {
            Some(Op::Div)
        } else if c == '<' {
            Some(Op::Lt)
        } else if c == '>' {
            Some(Op::Gt)
        } else if c == '!' {
            Some(Op::Not)
        } else if c == '^' {
            Some(Op::Xor)
        } else {
            None
        }
    } else if n == 2 {
        let c0 = r.get_char(0);
        let c1 = r.get_char(1);
        proof {
            assert(r@ =~= seq![r@[0], r@[1]]);
        }
        if c0 == '=' && c1 == '=' {
            Some(Op::Eq)
        } else if c0 == '!' && c1 == '=' {
            Some(Op::Ne)
        } else if c0 == '<' && c1 == '=' {
            Some(Op::Le)
        } else if c0 == '>' && c1 == '=' {
            Some(Op::Ge)
        } else if c0 == '&' && c1 == '&' {
            Some(Op::And)
        } else if c0 == '|' && c1 == '|' {
            Some(Op::Or)
        } else {
            None
        }
    } else {
        None
    }
}

/// Scans `input` left to right into its tokens, or reports the first
/// failure.
///
/// The result is exactly what [`spec_tokenize`] says of the text: every
/// token in order with the text it carries, `Err` precisely on a numeric
/// run that denotes no number, a punctuation run that spells no operator,
/// and a character outside every class the scanner knows.
pub fn tokenize(input: &str) -> (r: Result<Vec<Token>, LexError>)
    ensures
        lex_result_view(r) == spec_tokenize(input@),
{
    let n = input.unicode_len();
    let mut out: Vec<Token> = Vec::new();
    let mut i: usize = 0;
    proof {
        lemma_prepend_all_empty(spec_tokenize_from(input@, 0));
        assert(tokens_view(out@) =~= Seq::<SpecToken>::empty());
    }
    while i < n
        invariant
            n == input@.len(),
            i <= n,
            spec_tokenize(input@) == prepend_all(
                tokens_view(out@),
                spec_tokenize_from(input@, i as int),
            ),
        decreases n - i,
    {
        let c = input.get_char(i);
        let ghost pre = tokens_view(out@);
        if space_char(c) {
            if c == ' ' && i + 1 < n && input.get_char(i + 1) == ' ' {
                proof {
                    lemma_prepend_all_step(
                        pre,
                        SpecToken::Tab,
                        spec_tokenize_from(input@, i + 2),
                    );
                    lemma_tokens_view_push(out@, Token::Tab);
                }
                out.push(Token::Tab);
                i = i + 2;
            } else {
                i = i + 1;
            }
        } else if num_char(c) {
            let mut j: usize = i;
            let mut dots: usize = 0;
            let mut saw_digit: bool = false;
            while j < n && num_char(input.get_char(j))
                invariant
                    n == input@.len(),
                    i <= j <= n,
                    num_run_end(input@, i as int) == num_run_end(input@, j as int),
                    dots == dots_between(input@, i as int, j as int),
                    saw_digit == has_digit_between(input@, i as int, j as int),
                    dots <= j,
                decreases n - j,
            {
                let c2 = input.get_char(j);
                if c2 == '.' {
                    dots = dots + 1;
                }
                if digit_char(c2) {
                    saw_digit = true;
                }
                proof {
                    lemma_dots_snoc(input@, i as int, j as int);
                    if has_digit_between(input@, i as int, j + 1) {
                        let k = choose|k: int|
                            i <= k < j + 1 && is_digit_char(input@[k]);
                        if k < j {
                            assert(has_digit_between(input@, i as int, j as int));
                        }
                    }
                    if has_digit_between(input@, i as int, j as int) {
                        let k = choose|k: int| i <= k < j && is_digit_char(input@[k]);
                        assert(i <= k < j + 1 && is_digit_char(input@[k]));
                    }
                    if is_digit_char(input@[j as int]) {
                        assert(i <= j < j + 1 && is_digit_char(input@[j as int]));
                    }
                }
                j = j + 1;
            }
            proof {
                lemma_num_run_end(input@, i as int);
            }
            if dots <= 1 && saw_digit {
                let lex = input.substring_char(i, j);
                let tok = Token::Lit(lex.to_owned());
                proof {
                    lemma_prepend_all_step(
                        pre,
                        SpecToken::Lit(input@.subrange(i as int, j as int)),
                        spec_tokenize_from(input@, j as int),
                    );
                    lemma_tokens_view_push(out@, tok);
                }
                out.push(tok);
                i = j;
            } else {
                return Err(LexError::NumericFormat);
            }
        } else if letter_char(c) {
            let mut j: usize = i;
            while j < n && letter_char(input.get_char(j))
                invariant
                    n == input@.len(),
                    i <= j <= n,
                    letter_run_end(input@, i as int) == letter_run_end(input@, j as int),
                decreases n - j,
            {
                j = j + 1;
            }
            proof {
                lemma_letter_run_end(input@, i as int);
            }
            let word = input.substring_char(i, j);
            let tok = make_word_token(word);
            proof {
                lemma_prepend_all_step(
                    pre,
                    word_token(input@.subrange(i as int, j as int)),
                    spec_tokenize_from(input@, j as int),
                );
                lemma_tokens_view_push(out@, tok);
            }
            out.push(tok);
            i = j;
        } else if c == '(' {
            proof {
                lemma_prepend_all_step(
                    pre,
                    SpecToken::LeftBracket,
                    spec_tokenize_from(input@, i + 1),
                );
                lemma_tokens_view_push(out@, Token::LeftBracket);
            }
            out.push(Token::LeftBracket);
            i = i + 1;
        } else if c == ')' {
            proof {
                lemma_prepend_all_step(
                    pre,
                    SpecToken::RightBracket,
                    spec_tokenize_from(input@, i + 1),
                );
                lemma_tokens_view_push(out@, Token::RightBracket);
            }
            out.push(Token::RightBracket);
            i = i + 1;
        } else if punct_char(c) {
            let mut j: usize = i;
            while j < n && punct_char(input.get_char(j))
                invariant
                    n == input@.len(),
                    i <= j <= n,
                    punct_run_end(input@, i as int) == punct_run_end(input@, j as int),
                decreases n - j,
            {
                j = j + 1;
            }
            proof {
                lemma_punct_run_end(input@, i as int);
            }
            if j - i == 2 && input.get_char(i) == '/' && input.get_char(i + 1) == '/' {
                proof {
                    assert(input@.subrange(i as int, j as int) =~= seq!['/', '/']);
                }
                let mut m: usize = j;
                while m < n && !line_end_char(input.get_char(m))
                    invariant
                        n == input@.len(),
                        j <= m <= n,
                        comment_run_end(input@, j as int) == comment_run_end(input@, m as int),
                    decreases n - m,
                {
                    m = m + 1;
                }
                if m < n {
                    let text = input.substring_char(j, m + 1);
                    let tok = Token::Comm(text.to_owned());
                    proof {
                        lemma_prepend_all_step(
                            pre,
                            SpecToken::Comm(input@.subrange(j as int, m + 1)),
                            spec_tokenize_from(input@, m + 1),
                        );
                        lemma_tokens_view_push(out@, tok);
                    }
                    out.push(tok);
                    i = m + 1;
                } else {
                    let base = input.substring_char(j, m);
                    let mut text = base.to_owned();
                    text.append("\n");
                    proof {
                        reveal_strlit("\n");
                        assert(input@.subrange(j as int, m as int) + "\n"@ =~= input@.subrange(
                            j as int,
                            m as int,
                        ).push('\n'));
                    }
                    let tok = Token::Comm(text);
                    proof {
                        lemma_prepend_all_step(
                            pre,
                            SpecToken::Comm(input@.subrange(j as int, m as int).push('\n')),
                            spec_tokenize_from(input@, m as int),
                        );
                        lemma_tokens_view_push(out@, tok);
                    }
                    out.push(tok);
                    i = m;
                }
            } else {
                proof {
                    let sub = input@.subrange(i as int, j as int);
                    assert(sub != seq!['/', '/']) by {
                        if sub == seq!['/', '/'] {
                            assert(sub.len() == 2);
                            assert(sub[0] == '/' && sub[1] == '/');
                            assert(sub[0] == input@[i as int] && sub[1] == input@[i + 1]);
                        }
                    }
                }
                let run = input.substring_char(i, j);
                match op_of_slice(run) {
                    Some(op) => {
                        let tok = Token::Op(op);
                        proof {
                            lemma_prepend_all_step(
                                pre,
                                SpecToken::Op(op),
                                spec_tokenize_from(input@, j as int),
                            );
                            lemma_tokens_view_push(out@, tok);
                        }
                        out.push(tok);
                        i = j;
                    },
                    None => {
                        return Err(LexError::Lexical);
                    },
                }
            }
        } else {
            return Err(LexError::Lexical);
        }
    }
    proof {
        lemma_prepend_all_done(tokens_view(out@));
    }
    Ok(out)
}

} // verus!
