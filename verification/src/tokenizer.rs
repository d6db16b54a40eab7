//! Splitting source text into tokens.

use crate::common::{Error, ErrorView};
use crate::text::{decimal_text, signed_to_string, str_eq};
use vstd::prelude::*;
use vstd::string::*;

verus! {

/// What a token is.
#[derive(PartialEq, Eq, Debug)]
pub enum TokenType {
    Num(i32),
    Pop,
    Add,
    Sub,
    Mul,
    Div,
    Print,
    While,
    End,
    If,
    Else,
    Function,
    /// The return from a function. No word of source text is of this kind:
    /// the tokenizer never gives it, the resolver takes it.
    Ret,
    // Stack operations
    Dup,
    Swap,
    Rot,
    Over,
    Nip,
    Identifier(String),
}

/// A token with the column and line, both counted from 1, of its first
/// character.
#[derive(PartialEq, Eq, Debug)]
pub struct Token {
    pub token_type: TokenType,
    pub pos: usize,
    pub line: usize,
}

/// The mathematical content of a [`TokenType`].
pub enum TokenKind {
    Num(i32),
    Pop,
    Add,
    Sub,
    Mul,
    Div,
    Print,
    While,
    End,
    If,
    Else,
    Function,
    Ret,
    Dup,
    Swap,
    Rot,
    Over,
    Nip,
    Identifier(Seq<char>),
}

/// The mathematical content of a [`Token`].
pub struct TokenView {
    pub kind: TokenKind,
    pub pos: usize,
    pub line: usize,
}

impl TokenKind {
    /// The word that stands for this kind of token in source text.
    pub open spec fn text(self) -> Seq<char> {
        match self {
            TokenKind::While => "while"@,
            TokenKind::End => "end"@,
            TokenKind::Num(n) => decimal_text(n as int),
            TokenKind::Pop => "pop"@,
            TokenKind::Add => "+"@,
            TokenKind::Sub => "-"@,
            TokenKind::Mul => "*"@,
            TokenKind::Div => "/"@,
            TokenKind::Print => "print"@,
            TokenKind::Dup => "dup"@,
            TokenKind::Swap => "swap"@,
            TokenKind::Rot => "rot"@,
            TokenKind::Over => "over"@,
            TokenKind::Nip => "nip"@,
            TokenKind::If => "if"@,
            TokenKind::Else => "else"@,
            TokenKind::Identifier(name) => name,
            TokenKind::Function => "function"@,
            TokenKind::Ret => "ret"@,
        }
    }
}

impl View for TokenType {
    type V = TokenKind;

    open spec fn view(&self) -> TokenKind {
        match *self {
            TokenType::Num(n) => TokenKind::Num(n),
            TokenType::Pop => TokenKind::Pop,
            TokenType::Add => TokenKind::Add,
            TokenType::Sub => TokenKind::Sub,
            TokenType::Mul => TokenKind::Mul,
            TokenType::Div => TokenKind::Div,
            TokenType::Print => TokenKind::Print,
            TokenType::While => TokenKind::While,
            TokenType::End => TokenKind::End,
            TokenType::If => TokenKind::If,
            TokenType::Else => TokenKind::Else,
            TokenType::Function => TokenKind::Function,
            TokenType::Ret => TokenKind::Ret,
            TokenType::Dup => TokenKind::Dup,
            TokenType::Swap => TokenKind::Swap,
            TokenType::Rot => TokenKind::Rot,
            TokenType::Over => TokenKind::Over,
            TokenType::Nip => TokenKind::Nip,
            TokenType::Identifier(name) => TokenKind::Identifier(name@),
        }
    }
}

impl View for Token {
    type V = TokenView;

    open spec fn view(&self) -> TokenView {
        TokenView { kind: self.token_type@, pos: self.pos, line: self.line }
    }
}

/// The mathematical content of a list of tokens.
pub open spec fn token_views(tokens: Seq<Token>) -> Seq<TokenView> {
    tokens.map_values(|t: Token| t@)
}

impl TokenType {
    /// The word that stands for this token in source text.
    pub fn text(&self) -> (word: String)
        ensures
            word@ == self@.text(),
    {
        match self {
            TokenType::While => "while".to_string(),
            TokenType::End => "end".to_string(),
            TokenType::Num(n) => signed_to_string(*n as i64),
            TokenType::Pop => "pop".to_string(),
            TokenType::Add => "+".to_string(),
            TokenType::Sub => "-".to_string(),
            TokenType::Mul => "*".to_string(),
            TokenType::Div => "/".to_string(),
            TokenType::Print => "print".to_string(),
            TokenType::Dup => "dup".to_string(),
            TokenType::Swap => "swap".to_string(),
            TokenType::Rot => "rot".to_string(),
            TokenType::Over => "over".to_string(),
            TokenType::Nip => "nip".to_string(),
            TokenType::If => "if".to_string(),
            TokenType::Else => "else".to_string(),
            TokenType::Identifier(name) => name.clone(),
            TokenType::Function => "function".to_string(),
            TokenType::Ret => "ret".to_string(),
        }
    }
}

/// The kind of token that a word of letters, digits and underscores is: one
/// of the reserved words, or else an identifier.
pub open spec fn word_kind(word: Seq<char>) -> TokenKind {
    if word == "print"@ {
        TokenKind::Print
    } else if word == "pop"@ {
        TokenKind::Pop
    } else if word == "while"@ {
        TokenKind::While
    } else if word == "end"@ {
        TokenKind::End
    } else if word == "dup"@ {
        TokenKind::Dup
    } else if word == "swap"@ {
        TokenKind::Swap
    } else if word == "rot"@ {
        TokenKind::Rot
    } else if word == "over"@ {
        TokenKind::Over
    } else if word == "nip"@ {
        TokenKind::Nip
    } else if word == "if"@ {
        TokenKind::If
    } else if word == "else"@ {
        TokenKind::Else
    } else if word == "function"@ {
        TokenKind::Function
    } else {
        TokenKind::Identifier(word)
    }
}

/// Classifies a word as a reserved word or an identifier.
pub fn identifier(input: &str) -> (token_type: TokenType)
    ensures
        token_type@ == word_kind(input@),
{
    if str_eq(input, "print") {
        TokenType::Print
    } else if str_eq(input, "pop") {
        TokenType::Pop
    } else if str_eq(input, "while") {
        TokenType::While
    } else if str_eq(input, "end") {
        TokenType::End
    } else if str_eq(input, "dup") {
        TokenType::Dup
    } else if str_eq(input, "swap") {
        TokenType::Swap
    } else if str_eq(input, "rot") {
        TokenType::Rot
    } else if str_eq(input, "over") {
        TokenType::Over
    } else if str_eq(input, "nip") {
        TokenType::Nip
    } else if str_eq(input, "if") {
        TokenType::If
    } else if str_eq(input, "else") {
        TokenType::Else
    } else if str_eq(input, "function") {
        TokenType::Function
    } else {
        TokenType::Identifier(input.to_string())
    }
}

/// A class of characters that a run is made of.
#[derive(Clone, Copy)]
pub enum CharClass {
    /// The decimal digits.
    Numeric,
    /// The letters `a` to `z` and `A` to `Z`, the decimal digits and the
    /// underscore.
    Identifier,
    /// Every character but the line feed.
    NotNewline,
}

/// Whether `c` is a decimal digit.
pub open spec fn is_digit(c: char) -> bool {
    '0' <= c <= '9'
}

impl CharClass {
    /// Whether `c` belongs to the class.
    pub open spec fn holds(self, c: char) -> bool {
        match self {
            CharClass::Numeric => is_digit(c),
            CharClass::Identifier => ('a' <= c <= 'z') || ('A' <= c <= 'Z') || is_digit(c) || c
                == '_',
            CharClass::NotNewline => c != '\n',
        }
    }

    /// Whether `c` belongs to the class.
    fn test(self, c: &char) -> (r: bool)
        ensures
            r == self.holds(*c),
    {
        match self {
            CharClass::Numeric => is_numeric_char(c),
            CharClass::Identifier => is_identifier_char(c),
            CharClass::NotNewline => is_not_newline(c),
        }
    }
}

/// Whether `c` may stand in an identifier.
pub fn is_identifier_char(c: &char) -> (r: bool)
    ensures
        r == CharClass::Identifier.holds(*c),
{
    let c = *c;
    (c >= 'a' && c <= 'z') || (c >= 'A' && c <= 'Z') || (c >= '0' && c <= '9') || c == '_'
}

/// Whether `c` is a decimal digit.
pub fn is_numeric_char(c: &char) -> (r: bool)
    ensures
        r == CharClass::Numeric.holds(*c),
{
    *c >= '0' && *c <= '9'
}

/// Whether `c` is anything but a line feed.
pub fn is_not_newline(c: &char) -> (r: bool)
    ensures
        r == CharClass::NotNewline.holds(*c),
{
    *c != '\n'
}

/// How many characters of `class` follow one another from index `from` on.
pub open spec fn run_length(chars: Seq<char>, from: int, class: CharClass) -> nat
    decreases chars.len() - from,
{
    if 0 <= from < chars.len() && class.holds(chars[from]) {
        1 + run_length(chars, from + 1, class)
    } else {
        0
    }
}

/// The number that a digit stands for.
pub open spec fn digit_value(c: char) -> nat {
    (c as nat - '0' as nat) as nat
}

/// The number that a sequence of digits writes in decimal.
pub open spec fn decimal_value(digits: Seq<char>) -> nat
    decreases digits.len(),
{
    if digits.len() == 0 {
        0
    } else {
        10 * decimal_value(digits.drop_last()) + digit_value(digits.last())
    }
}

/// The token kind of one of the four operator characters.
pub open spec fn operator_kind(c: char) -> Option<TokenKind> {
    if c == '+' {
        Some(TokenKind::Add)
    } else if c == '-' {
        Some(TokenKind::Sub)
    } else if c == '*' {
        Some(TokenKind::Mul)
    } else if c == '/' {
        Some(TokenKind::Div)
    } else {
        None
    }
}

/// The error for text that is no token.
pub open spec fn unknown_token(word: Seq<char>, pos: int, line: int) -> ErrorView {
    ErrorView::UnknownToken { word, pos: pos as usize, line: line as usize }
}

/// How many characters stand at index `i` or behind it.
pub open spec fn remaining(chars: Seq<char>, i: int) -> nat {
    if i < chars.len() {
        (chars.len() - i) as nat
    } else {
        0
    }
}

/// The tokens of `chars` from index `i` on, appended to `tokens`.
///
/// `column` is the column of the character before `i`, 0 at the start of a
/// line, and `line` the line of the character at `i`.
///
/// - A space, a tab or a carriage return is skipped and takes one column.
///   A line feed starts a new line.
/// - `#` starts a comment that runs up to and including the next line feed.
/// - `+`, `-`, `*` and `/` are tokens of their own.
/// - A run of digits is a number, and an error where the number does not
///   fit in 32 bits.
/// - A run of identifier characters is a reserved word or an identifier.
/// - Any other character is an error.
/// A token stands at the column of its first character.
pub open spec fn lex_from(
    chars: Seq<char>,
    i: int,
    column: int,
    line: int,
    tokens: Seq<TokenView>,
) -> Result<Seq<TokenView>, ErrorView>
    decreases remaining(chars, i),
{
    if i < 0 || i >= chars.len() {
        Ok(tokens)
    } else {
        let c = chars[i];
        let pos = column + 1;
        let at = |kind: TokenKind| TokenView { kind, pos: pos as usize, line: line as usize };
        if c == ' ' || c == '\t' || c == '\r' {
            lex_from(chars, i + 1, pos, line, tokens)
        } else if c == '\n' {
            lex_from(chars, i + 1, 0, line + 1, tokens)
        } else if c == '#' {
            let end = i + 1 + run_length(chars, i + 1, CharClass::NotNewline);
            lex_from(chars, end + 1, 0, line + 1, tokens)
        } else if operator_kind(c) is Some {
            lex_from(chars, i + 1, pos, line, tokens.push(at(operator_kind(c).unwrap())))
        } else if CharClass::Numeric.holds(c) {
            let end = i + 1 + run_length(chars, i + 1, CharClass::Numeric);
            let digits = chars.subrange(i, end);
            if decimal_value(digits) <= i32::MAX {
                lex_from(
                    chars,
                    end,
                    column + (end - i),
                    line,
                    tokens.push(at(TokenKind::Num(decimal_value(digits) as i32))),
                )
            } else {
                Err(unknown_token(digits, pos, line))
            }
        } else if CharClass::Identifier.holds(c) {
            let end = i + 1 + run_length(chars, i + 1, CharClass::Identifier);
            let word = chars.subrange(i, end);
            lex_from(chars, end, column + (end - i), line, tokens.push(at(word_kind(word))))
        } else {
            Err(unknown_token(seq![c], pos, line))
        }
    }
}

/// The tokens of a source text, or the first error in it. Columns and lines
/// count from 1.
pub open spec fn lex(chars: Seq<char>) -> Result<Seq<TokenView>, ErrorView> {
    lex_from(chars, 0, 0, 1, Seq::empty())
}

/// A run ends inside the text, and all its characters are of its class.
proof fn lemma_run_length(chars: Seq<char>, from: int, class: CharClass)
    requires
        0 <= from <= chars.len(),
    ensures
        from + run_length(chars, from, class) <= chars.len(),
        forall|k: int|
            from <= k < from + run_length(chars, from, class) ==> class.holds(#[trigger] chars[k]),
        from + run_length(chars, from, class) < chars.len() ==> !class.holds(
            chars[from + run_length(chars, from, class)],
        ),
    decreases chars.len() - from,
{
    if from < chars.len() && class.holds(chars[from]) {
        lemma_run_length(chars, from + 1, class);
    }
}

/// A number is at least the number that a prefix of its digits writes.
proof fn lemma_decimal_value_prefix(digits: Seq<char>, n: int)
    requires
        0 <= n <= digits.len(),
    ensures
        decimal_value(digits.take(n)) <= decimal_value(digits),
    decreases digits.len() - n,
{
    if n < digits.len() {
        lemma_decimal_value_prefix(digits, n + 1);
        assert(digits.take(n + 1).drop_last() =~= digits.take(n));
    } else {
        assert(digits.take(n) =~= digits);
    }
}

/// The characters of `input`, one by one.
fn chars_of(input: &str) -> (chars: Vec<char>)
    ensures
        chars@ == input@,
{
    let mut chars: Vec<char> = Vec::new();
    for c in it: input.chars()
        invariant
            chars@ == it.seq().take(it.index() as int),
            it.seq() == input@,
    {
        chars.push(c);
    }
    chars
}

/// The part of `input` from character `from` up to character `to`.
fn slice<'a>(input: &'a str, ascii: bool, from: usize, to: usize) -> (part: &'a str)
    requires
        ascii ==> is_ascii(input),
        from <= to <= input@.len(),
    ensures
        part@ == input@.subrange(from as int, to as int),
{
    if ascii {
        input.substring_ascii(from, to)
    } else {
        input.substring_char(from, to)
    }
}

/// The index behind the run of characters of `class` that starts at `from`.
fn scan(chars: &Vec<char>, from: usize, class: CharClass) -> (end: usize)
    requires
        from <= chars@.len(),
    ensures
        end == from + run_length(chars@, from as int, class),
        from <= end <= chars@.len(),
{
    let mut end: usize = from;
    loop
        invariant
            from <= end <= chars@.len(),
            run_length(chars@, from as int, class) == (end - from) + run_length(
                chars@,
                end as int,
                class,
            ),
        ensures
            from <= end <= chars@.len(),
            run_length(chars@, from as int, class) == end - from,
        decreases chars@.len() - end,
    {
        if end >= chars.len() {
            break ;
        }
        if !class.test(&chars[end]) {
            break ;
        }
        end += 1;
    }
    end
}

/// The number that the digits from `from` up to `to` write, if it fits in
/// 32 bits.
fn number(chars: &Vec<char>, from: usize, to: usize) -> (value: Option<i32>)
    requires
        from <= to <= chars@.len(),
        forall|k: int| from <= k < to ==> is_digit(#[trigger] chars@[k]),
    ensures
        value == if decimal_value(chars@.subrange(from as int, to as int)) <= i32::MAX {
            Some(decimal_value(chars@.subrange(from as int, to as int)) as i32)
        } else {
            None
        },
{
    let ghost digits = chars@.subrange(from as int, to as int);
    let mut value: i32 = 0;
    let mut i: usize = from;
    assert(digits.take(0) =~= Seq::<char>::empty());
    while i < to
        invariant
            from <= i <= to <= chars@.len(),
            digits == chars@.subrange(from as int, to as int),
            forall|k: int| from <= k < to ==> is_digit(#[trigger] chars@[k]),
            value == decimal_value(digits.take(i - from)),
        decreases to - i,
    {
        let c = chars[i];
        let digit: i32 = (c as u32 - '0' as u32) as i32;
        proof {
            let longer = digits.take(i + 1 - from);
            assert(longer.drop_last() =~= digits.take(i - from));
            assert(longer.last() == c);
            assert(digit == digit_value(c));
            lemma_decimal_value_prefix(digits, i + 1 - from);
        }
        if value > (i32::MAX - digit) / 10 {
            return None;
        }
        value = value * 10 + digit;
        i += 1;
    }
    assert(digits.take(i - from) =~= digits);
    Some(value)
}

/// Splits a source text into tokens.
///
/// The result is what [`lex`] says of the characters of `input`: the
/// tokens, or the first error. The tokens come in source order, each at the
/// line and column of its first character, and an error stands at the line
/// and column of the text that is no token.
pub fn tokenize(input: &str) -> (r: Result<Vec<Token>, Error>)
    ensures
        match r {
            Ok(tokens) => lex(input@) == Ok::<Seq<TokenView>, ErrorView>(token_views(tokens@)),
            Err(e) => lex(input@) == Err::<Seq<TokenView>, ErrorView>(e@),
        },
        stands_in(input@, lex(input@)),
{
    let chars = chars_of(input);
    proof {
        law_tokens_stand_at_their_first_character(chars@);
    }
    let ascii = input.is_ascii();
    let mut tokens: Vec<Token> = Vec::new();
    let mut line: usize = 1;
    let mut pos: usize = 0;
    let mut idx: usize = 0;
    assert(token_views(tokens@) =~= Seq::<TokenView>::empty());
    while idx < chars.len()
        invariant
            chars@ == input@,
            stands_in(chars@, lex(chars@)),
            ascii ==> is_ascii(input),
            idx <= chars@.len(),
            pos <= idx,
            line <= idx + 1,
            lex_from(chars@, idx as int, pos as int, line as int, token_views(tokens@)) == lex(
                chars@,
            ),
        decreases chars@.len() - idx,
    {
        let c = chars[idx];
        let ghost before = token_views(tokens@);
        pos += 1;
        if c == ' ' || c == '\t' || c == '\r' {
            idx += 1;
        } else if c == '\n' {
            pos = 0;
            line = match line.checked_add(1) {
                Some(next) => next,
                // The count leaves the machine's range only behind the
                // last character.
                None => {
                    assert(lex_from(chars@, idx + 1, 0, line + 1, before) == Ok::<
                        Seq<TokenView>,
                        ErrorView,
                    >(before));
                    return Ok(tokens);
                },
            };
            idx += 1;
        } else if c == '#' {
            let end = scan(&chars, idx + 1, CharClass::NotNewline);
            if end >= chars.len() {
                assert(lex_from(chars@, end + 1, 0, line + 1, before) == Ok::<
                    Seq<TokenView>,
                    ErrorView,
                >(before));
                return Ok(tokens);
            }
            pos = 0;
            line = match line.checked_add(1) {
                Some(next) => next,
                None => {
                    return Ok(tokens);
                },
            };
            idx = end + 1;
        } else if c == '+' || c == '-' || c == '*' || c == '/' {
            let token_type = if c == '+' {
                TokenType::Add
            } else if c == '-' {
                TokenType::Sub
            } else if c == '*' {
                TokenType::Mul
            } else {
                TokenType::Div
            };
            tokens.push(Token { token_type, pos, line });
            assert(token_views(tokens@) =~= before.push(tokens@.last()@));
            idx += 1;
        } else if is_numeric_char(&c) {
            let end = scan(&chars, idx + 1, CharClass::Numeric);
            proof {
                lemma_run_length(chars@, idx + 1, CharClass::Numeric);
            }
            match number(&chars, idx, end) {
                Some(n) => {
                    tokens.push(Token { token_type: TokenType::Num(n), pos, line });
                    assert(token_views(tokens@) =~= before.push(tokens@.last()@));
                },
                None => {
                    return Err(
                        Error::UnknownToken {
                            word: slice(input, ascii, idx, end).to_string(),
                            pos,
                            line,
                        },
                    );
                },
            }
            pos = pos + (end - idx - 1);
            idx = end;
        } else if is_identifier_char(&c) {
            let end = scan(&chars, idx + 1, CharClass::Identifier);
            let token_type = identifier(slice(input, ascii, idx, end));
            tokens.push(Token { token_type, pos, line });
            assert(token_views(tokens@) =~= before.push(tokens@.last()@));
            pos = pos + (end - idx - 1);
            idx = end;
        } else {
            assert(chars@.subrange(idx as int, idx + 1) =~= seq![c]);
            return Err(
                Error::UnknownToken {
                    word: slice(input, ascii, idx, idx + 1).to_string(),
                    pos,
                    line,
                },
            );
        }
    }
    Ok(tokens)
}

/// The line of the character at index `j`: 1 and the number of line feeds
/// before it.
pub open spec fn line_at(chars: Seq<char>, j: int) -> int
    decreases j,
{
    if j <= 0 {
        1
    } else if chars[j - 1] == '\n' {
        line_at(chars, j - 1) + 1
    } else {
        line_at(chars, j - 1)
    }
}

/// The column of the character at index `j`: 1 and the number of
/// characters between the last line feed before it, or the start of the
/// text, and it.
pub open spec fn column_at(chars: Seq<char>, j: int) -> int
    decreases j,
{
    if j <= 0 || chars[j - 1] == '\n' {
        1
    } else {
        column_at(chars, j - 1) + 1
    }
}

/// Whether the tokens stand in source order at the places of their first
/// characters, which are the characters at the indices `starts`.
pub open spec fn placed(chars: Seq<char>, tokens: Seq<TokenView>, starts: Seq<int>) -> bool {
    &&& starts.len() == tokens.len()
    &&& forall|t: int|
        0 <= t < tokens.len() ==> {
            &&& 0 <= (#[trigger] starts[t]) < chars.len()
            &&& tokens[t].pos == column_at(chars, starts[t])
            &&& tokens[t].line == line_at(chars, starts[t])
        }
    &&& forall|s: int, t: int|
        0 <= s < t < tokens.len() ==> (#[trigger] starts[s]) < (#[trigger] starts[t])
}

/// Whether the error is that of the text that starts at index `j`: an
/// unknown token with that text as its word, at the place of the character
/// at `j`.
pub open spec fn refused_at(chars: Seq<char>, e: ErrorView, j: int) -> bool {
    &&& 0 <= j < chars.len()
    &&& e matches ErrorView::UnknownToken { word, pos, line }
    &&& word.len() > 0
    &&& j + word.len() <= chars.len()
    &&& word == chars.subrange(j, j + word.len())
    &&& pos == column_at(chars, j)
    &&& line == line_at(chars, j)
}

/// Whether a result of the tokenizer stands where the text says: the
/// tokens at their first characters and in source order, an error at the
/// first character of the text that is no token.
pub open spec fn stands_in(chars: Seq<char>, r: Result<Seq<TokenView>, ErrorView>) -> bool {
    &&& r is Ok ==> exists|starts: Seq<int>| #[trigger] placed(chars, r->Ok_0, starts)
    &&& r is Err ==> exists|j: int| #[trigger] refused_at(chars, r->Err_0, j)
}

/// Lines and columns start at 1 and do not outrun the index.
proof fn lemma_place_bounds(chars: Seq<char>, j: int)
    requires
        0 <= j,
    ensures
        1 <= line_at(chars, j) <= j + 1,
        1 <= column_at(chars, j) <= j + 1,
    decreases j,
{
    if j > 0 {
        lemma_place_bounds(chars, j - 1);
    }
}

/// Across characters that are no line feeds the line stays and the column
/// grows by one for each.
proof fn lemma_place_advance(chars: Seq<char>, i: int, end: int)
    requires
        0 <= i <= end,
        forall|k: int| i <= k < end ==> #[trigger] chars[k] != '\n',
    ensures
        line_at(chars, end) == line_at(chars, i),
        column_at(chars, end) == column_at(chars, i) + (end - i),
    decreases end - i,
{
    if i < end {
        lemma_place_advance(chars, i, end - 1);
        assert(chars[end - 1] != '\n');
    }
}

/// Where the running column and line are those of index `i` and the tokens
/// so far stand at their first characters before `i`, the tokens that come
/// out stand at their first characters, and an error that comes out is
/// that of the text at its index.
proof fn lemma_lex_places(
    chars: Seq<char>,
    i: int,
    column: int,
    line: int,
    tokens: Seq<TokenView>,
    starts: Seq<int>,
)
    requires
        chars.len() <= usize::MAX,
        0 <= i,
        i <= chars.len() ==> column + 1 == column_at(chars, i) && line == line_at(chars, i),
        placed(chars, tokens, starts),
        forall|t: int| 0 <= t < starts.len() ==> (#[trigger] starts[t]) < i,
    ensures
        stands_in(chars, lex_from(chars, i, column, line, tokens)),
    decreases remaining(chars, i),
{
    let result = lex_from(chars, i, column, line, tokens);
    if i >= chars.len() {
        assert(placed(chars, result->Ok_0, starts));
    } else {
        let c = chars[i];
        let pos = column + 1;
        lemma_place_bounds(chars, i);
        let here = TokenView { kind: TokenKind::Add, pos: pos as usize, line: line as usize };
        if c == ' ' || c == '\t' || c == '\r' {
            lemma_lex_places(chars, i + 1, pos, line, tokens, starts);
        } else if c == '\n' {
            lemma_lex_places(chars, i + 1, 0, line + 1, tokens, starts);
        } else if c == '#' {
            let end = i + 1 + run_length(chars, i + 1, CharClass::NotNewline);
            lemma_run_length(chars, i + 1, CharClass::NotNewline);
            lemma_place_advance(chars, i, end);
            lemma_lex_places(chars, end + 1, 0, line + 1, tokens, starts);
        } else if operator_kind(c) is Some {
            let token = TokenView { kind: operator_kind(c).unwrap(), ..here };
            lemma_placed_push(chars, tokens, starts, token, i);
            lemma_lex_places(chars, i + 1, pos, line, tokens.push(token), starts.push(i));
        } else if CharClass::Numeric.holds(c) {
            let end = i + 1 + run_length(chars, i + 1, CharClass::Numeric);
            lemma_run_length(chars, i + 1, CharClass::Numeric);
            lemma_place_advance(chars, i, end);
            let digits = chars.subrange(i, end);
            if decimal_value(digits) <= i32::MAX {
                let token = TokenView {
                    kind: TokenKind::Num(decimal_value(digits) as i32),
                    ..here
                };
                lemma_placed_push(chars, tokens, starts, token, i);
                lemma_lex_places(
                    chars,
                    end,
                    column + (end - i),
                    line,
                    tokens.push(token),
                    starts.push(i),
                );
            } else {
                assert(refused_at(chars, result->Err_0, i));
            }
        } else if CharClass::Identifier.holds(c) {
            let end = i + 1 + run_length(chars, i + 1, CharClass::Identifier);
            lemma_run_length(chars, i + 1, CharClass::Identifier);
            lemma_place_advance(chars, i, end);
            let token = TokenView { kind: word_kind(chars.subrange(i, end)), ..here };
            lemma_placed_push(chars, tokens, starts, token, i);
            lemma_lex_places(
                chars,
                end,
                column + (end - i),
                line,
                tokens.push(token),
                starts.push(i),
            );
        } else {
            assert(seq![c] =~= chars.subrange(i, i + 1));
            assert(refused_at(chars, result->Err_0, i));
        }
    }
}

/// A token at the place of the character at `i`, behind every token so
/// far, keeps the tokens at their first characters.
proof fn lemma_placed_push(
    chars: Seq<char>,
    tokens: Seq<TokenView>,
    starts: Seq<int>,
    token: TokenView,
    i: int,
)
    requires
        placed(chars, tokens, starts),
        forall|t: int| 0 <= t < starts.len() ==> (#[trigger] starts[t]) < i,
        0 <= i < chars.len(),
        token.pos == column_at(chars, i),
        token.line == line_at(chars, i),
    ensures
        placed(chars, tokens.push(token), starts.push(i)),
        forall|t: int| 0 <= t < starts.push(i).len() ==> (#[trigger] starts.push(i)[t]) <= i,
{
    let longer = starts.push(i);
    assert forall|s: int, t: int| 0 <= s < t < tokens.push(token).len() implies (
    #[trigger] longer[s]) < (#[trigger] longer[t]) by {
        if t < tokens.len() {
            assert(starts[s] < starts[t]);
        } else {
            assert(starts[s] < i);
        }
    }
}

/// Every token stands at the place of its first character, and the tokens
/// come in source order: the line of a token is 1 and the number of line
/// feeds before its first character, its column is 1 and the number of
/// characters between the last of these line feeds, or the start of the
/// text, and that character. An error stands at the place of the first
/// character of the text that is no token.
pub proof fn law_tokens_stand_at_their_first_character(chars: Seq<char>)
    requires
        chars.len() <= usize::MAX,
    ensures
        stands_in(chars, lex(chars)),
{
    assert(placed(chars, Seq::<TokenView>::empty(), Seq::<int>::empty()));
    lemma_lex_places(chars, 0, 0, 1, Seq::empty(), Seq::empty());
}

} // verus!
