use vstd::prelude::*;

use crate::decimal::Decimal;
use vstd::string::{StrSliceExecFns, StringExecFns};

verus! {

/// The smallest meaningful units of the SQL text.
#[derive(Debug, Clone, PartialEq)]
pub enum Token {
    // Keywords.
    Create,
    Table,
    Insert,
    Into,
    Values,
    Select,
    From,
    Where,
    And,
    Or,
    Limit,
    Order,
    By,
    Asc,
    Desc,
    Update,
    SetKw,
    Delete,
    // Type names.
    Int,
    Text,
    Float,
    Bool,
    // Identifiers and literals.
    /// A table or column name.
    Ident(String),
    /// An integer literal.
    Number(i64),
    /// A string literal, written between single quotes.
    String(String),
    /// A decimal literal, written with one dot.
    FloatNumber(Decimal),
    /// The literal `TRUE`.
    True,
    /// The literal `FALSE`.
    False,
    // Symbols.
    LeftParen,
    RightParen,
    Comma,
    Semicolon,
    Star,
    Greater,
    Lower,
    Equal,
    /// End of the input.
    Eof,
}

/// The model of a [`Token`].
pub enum TokenV {
    Create,
    Table,
    Insert,
    Into,
    Values,
    Select,
    From,
    Where,
    And,
    Or,
    Limit,
    Order,
    By,
    Asc,
    Desc,
    Update,
    SetKw,
    Delete,
    Int,
    Text,
    Float,
    Bool,
    Ident(Seq<char>),
    Number(i64),
    StrLit(Seq<char>),
    FloatNumber(Decimal),
    True,
    False,
    LeftParen,
    RightParen,
    Comma,
    Semicolon,
    Star,
    Greater,
    Lower,
    Equal,
    Eof,
}

impl View for Token {
    type V = TokenV;

    open spec fn view(&self) -> TokenV {
        match self {
            Token::Create => TokenV::Create,
            Token::Table => TokenV::Table,
            Token::Insert => TokenV::Insert,
            Token::Into => TokenV::Into,
            Token::Values => TokenV::Values,
            Token::Select => TokenV::Select,
            Token::From => TokenV::From,
            Token::Where => TokenV::Where,
            Token::And => TokenV::And,
            Token::Or => TokenV::Or,
            Token::Limit => TokenV::Limit,
            Token::Order => TokenV::Order,
            Token::By => TokenV::By,
            Token::Asc => TokenV::Asc,
            Token::Desc => TokenV::Desc,
            Token::Update => TokenV::Update,
            Token::SetKw => TokenV::SetKw,
            Token::Delete => TokenV::Delete,
            Token::Int => TokenV::Int,
            Token::Text => TokenV::Text,
            Token::Float => TokenV::Float,
            Token::Bool => TokenV::Bool,
            Token::Ident(s) => TokenV::Ident(s@),
            Token::Number(n) => TokenV::Number(*n),
            Token::String(s) => TokenV::StrLit(s@),
            Token::FloatNumber(d) => TokenV::FloatNumber(*d),
            Token::True => TokenV::True,
            Token::False => TokenV::False,
            Token::LeftParen => TokenV::LeftParen,
            Token::RightParen => TokenV::RightParen,
            Token::Comma => TokenV::Comma,
            Token::Semicolon => TokenV::Semicolon,
            Token::Star => TokenV::Star,
            Token::Greater => TokenV::Greater,
            Token::Lower => TokenV::Lower,
            Token::Equal => TokenV::Equal,
            Token::Eof => TokenV::Eof,
        }
    }
}

/// The views of a sequence of tokens.
pub open spec fn token_views(s: Seq<Token>) -> Seq<TokenV> {
    s.map_values(|t: Token| t@)
}

/// A token stream the parser can run on: nonempty, ending in a single
/// end-of-input marker, and every decimal literal comparable.
pub open spec fn token_stream_wf(ts: Seq<TokenV>) -> bool {
    &&& ts.len() > 0
    &&& ts[ts.len() - 1] is Eof
    &&& forall|i: int| 0 <= i < ts.len() - 1 ==> !((#[trigger] ts[i]) is Eof)
    &&& forall|i: int|
        0 <= i < ts.len() ==> ((#[trigger] ts[i]) matches TokenV::FloatNumber(d) ==> d.wf())
}

// ---------------------------------------------------------------------
// Character classes (ASCII, per the SQL surface's grammar).
// ---------------------------------------------------------------------

/// Whitespace skipped between tokens.
pub open spec fn is_space(c: char) -> bool {
    c == ' ' || c == '\t' || c == '\n' || c == '\r'
}

/// A decimal digit.
pub open spec fn is_digit(c: char) -> bool {
    48 <= c as u32 && c as u32 <= 57
}

/// The numeric value of a digit.
pub open spec fn digit_val(c: char) -> int {
    c as u32 - 48
}

/// A letter.
pub open spec fn is_alpha(c: char) -> bool {
    (65 <= c as u32 && c as u32 <= 90) || (97 <= c as u32 && c as u32 <= 122)
}

/// A character that may continue an identifier.
pub open spec fn is_ident_char(c: char) -> bool {
    is_alpha(c) || is_digit(c) || c == '_'
}

/// A letter's upper-case code point; any other character's own.
pub open spec fn fold_upper(c: char) -> int {
    if 97 <= c as u32 && c as u32 <= 122 {
        c as u32 - 32
    } else {
        c as u32 as int
    }
}

/// Case-insensitive equality of character sequences.
pub open spec fn ieq(a: Seq<char>, b: Seq<char>) -> bool {
    &&& a.len() == b.len()
    &&& forall|i: int| 0 <= i < a.len() ==> fold_upper(a[i]) == fold_upper(b[i])
}

fn is_space_exec(c: char) -> (r: bool)
    ensures
        r == is_space(c),
{
    c == ' ' || c == '\t' || c == '\n' || c == '\r'
}

fn is_digit_exec(c: char) -> (r: bool)
    ensures
        r == is_digit(c),
{
    let u = c as u32;
    48 <= u && u <= 57
}

fn is_alpha_exec(c: char) -> (r: bool)
    ensures
        r == is_alpha(c),
{
    let u = c as u32;
    (65 <= u && u <= 90) || (97 <= u && u <= 122)
}

fn is_ident_char_exec(c: char) -> (r: bool)
    ensures
        r == is_ident_char(c),
{
    is_alpha_exec(c) || is_digit_exec(c) || c == '_'
}

fn fold_upper_exec(c: char) -> (r: u32)
    ensures
        r == fold_upper(c),
{
    let u = c as u32;
    if 97 <= u && u <= 122 {
        u - 32
    } else {
        u
    }
}

/// Case-insensitive comparison of a scanned word against a keyword.
fn kw_eq(a: &str, b: &str) -> (r: bool)
    ensures
        r == ieq(a@, b@),
{
    let la: usize = a.unicode_len();
    let lb: usize = b.unicode_len();
    if la != lb {
        return false;
    }
    let mut i: usize = 0;
    while i < la
        invariant
            i <= la,
            la == a@.len(),
            la == b@.len(),
            forall|j: int| 0 <= j < i as int ==> fold_upper(a@[j]) == fold_upper(b@[j]),
        decreases la - i,
    {
        let ca = fold_upper_exec(a.get_char(i));
        let cb = fold_upper_exec(b.get_char(i));
        if ca != cb {
            return false;
        }
        i = i + 1;
    }
    true
}

// ---------------------------------------------------------------------
// The scanner, as a mathematical function of the input text.
// ---------------------------------------------------------------------

/// Position of the first non-whitespace character at or after `pos`.
pub open spec fn spec_skip_ws(s: Seq<char>, pos: nat) -> nat
    decreases s.len() - pos,
{
    if pos >= s.len() {
        pos
    } else if is_space(s[pos as int]) {
        spec_skip_ws(s, pos + 1)
    } else {
        pos
    }
}

/// End of the identifier that starts at `pos`.
pub open spec fn spec_scan_ident_end(s: Seq<char>, pos: nat) -> nat
    decreases s.len() - pos,
{
    if pos >= s.len() || !is_ident_char(s[pos as int]) {
        pos
    } else {
        spec_scan_ident_end(s, pos + 1)
    }
}

/// The token a scanned word stands for: a keyword, matched without case,
/// or an identifier.
pub open spec fn keyword_or_ident(t: Seq<char>) -> TokenV {
    if ieq(t, "CREATE"@) {
        TokenV::Create
    } else if ieq(t, "TABLE"@) {
        TokenV::Table
    } else if ieq(t, "INSERT"@) {
        TokenV::Insert
    } else if ieq(t, "INTO"@) {
        TokenV::Into
    } else if ieq(t, "VALUES"@) {
        TokenV::Values
    } else if ieq(t, "SELECT"@) {
        TokenV::Select
    } else if ieq(t, "FROM"@) {
        TokenV::From
    } else if ieq(t, "WHERE"@) {
        TokenV::Where
    } else if ieq(t, "INT"@) {
        TokenV::Int
    } else if ieq(t, "TEXT"@) {
        TokenV::Text
    } else if ieq(t, "FLOAT"@) {
        TokenV::Float
    } else if ieq(t, "BOOL"@) {
        TokenV::Bool
    } else if ieq(t, "TRUE"@) {
        TokenV::True
    } else if ieq(t, "FALSE"@) {
        TokenV::False
    } else if ieq(t, "AND"@) {
        TokenV::And
    } else if ieq(t, "OR"@) {
        TokenV::Or
    } else if ieq(t, "LIMIT"@) {
        TokenV::Limit
    } else if ieq(t, "ORDER"@) {
        TokenV::Order
    } else if ieq(t, "BY"@) {
        TokenV::By
    } else if ieq(t, "ASC"@) {
        TokenV::Asc
    } else if ieq(t, "DESC"@) {
        TokenV::Desc
    } else if ieq(t, "UPDATE"@) {
        TokenV::Update
    } else if ieq(t, "SET"@) {
        TokenV::SetKw
    } else if ieq(t, "DELETE"@) {
        TokenV::Delete
    } else {
        TokenV::Ident(t)
    }
}

/// Scans the digits (and at most one dot) of a numeric literal, carrying
/// the digits read so far as an unbounded mantissa, the count of
/// fractional digits, and whether the dot was seen.
pub open spec fn spec_scan_num(s: Seq<char>, pos: nat, m: int, frac: nat, dot: bool) -> (
    int,
    nat,
    bool,
    nat,
)
    decreases s.len() - pos,
{
    if pos >= s.len() {
        (m, frac, dot, pos)
    } else if is_digit(s[pos as int]) {
        spec_scan_num(
            s,
            pos + 1,
            m * 10 + digit_val(s[pos as int]),
            if dot {
                frac + 1
            } else {
                frac
            },
            dot,
        )
    } else if s[pos as int] == '.' && !dot {
        spec_scan_num(s, pos + 1, m, frac, true)
    } else {
        (m, frac, dot, pos)
    }
}

/// Reads the numeric literal that starts at `pos`: an integer without a
/// dot, a decimal with one; a second dot, a mantissa beyond `i64`, or
/// more fractional digits than a decimal can carry are errors.
pub open spec fn spec_read_number(s: Seq<char>, pos: nat) -> Result<(TokenV, nat), ()> {
    let (m, frac, dot, end) = spec_scan_num(s, pos, 0, 0, false);
    if end < s.len() && s[end as int] == '.' {
        Err(())
    } else if m > i64::MAX {
        Err(())
    } else if !dot {
        Ok((TokenV::Number(m as i64), end))
    } else if frac > 18 {
        Err(())
    } else {
        Ok((TokenV::FloatNumber(Decimal { mantissa: m as i64, scale: frac as u32 }), end))
    }
}

/// Position of the closing quote at or after `pos`, or the end of input.
pub open spec fn spec_scan_str_end(s: Seq<char>, pos: nat) -> nat
    decreases s.len() - pos,
{
    if pos >= s.len() {
        pos
    } else if s[pos as int] == '\'' {
        pos
    } else {
        spec_scan_str_end(s, pos + 1)
    }
}

/// Reads the string literal whose opening quote stands at `pos`; an
/// unterminated literal is an error.
pub open spec fn spec_read_string(s: Seq<char>, pos: nat) -> Result<(TokenV, nat), ()> {
    let e = spec_scan_str_end(s, pos + 1);
    if e >= s.len() {
        Err(())
    } else {
        Ok((TokenV::StrLit(s.subrange(pos as int + 1, e as int)), e + 1))
    }
}

/// Reads the token that starts at `pos` (a non-whitespace position inside
/// the input); an unsupported character is an error.
pub open spec fn spec_next_token(s: Seq<char>, pos: nat) -> Result<(TokenV, nat), ()> {
    if pos >= s.len() {
        Err(())
    } else {
        let c = s[pos as int];
        if c == '(' {
            Ok((TokenV::LeftParen, pos + 1))
        } else if c == ')' {
            Ok((TokenV::RightParen, pos + 1))
        } else if c == ',' {
            Ok((TokenV::Comma, pos + 1))
        } else if c == ';' {
            Ok((TokenV::Semicolon, pos + 1))
        } else if c == '*' {
            Ok((TokenV::Star, pos + 1))
        } else if c == '>' {
            Ok((TokenV::Greater, pos + 1))
        } else if c == '<' {
            Ok((TokenV::Lower, pos + 1))
        } else if c == '=' {
            Ok((TokenV::Equal, pos + 1))
        } else if is_alpha(c) {
            let end = spec_scan_ident_end(s, pos);
            Ok((keyword_or_ident(s.subrange(pos as int, end as int)), end))
        } else if is_digit(c) {
            spec_read_number(s, pos)
        } else if c == '\'' {
            spec_read_string(s, pos)
        } else {
            Err(())
        }
    }
}

/// The whole scan: skips whitespace, reads one token at a time, and closes
/// the stream with the end-of-input marker.
pub open spec fn spec_tokenize_loop(s: Seq<char>, pos: nat, acc: Seq<TokenV>) -> Result<
    Seq<TokenV>,
    (),
>
    decreases s.len() - pos,
{
    let p = spec_skip_ws(s, pos);
    if p >= s.len() {
        Ok(acc.push(TokenV::Eof))
    } else {
        match spec_next_token(s, p) {
            Err(_) => Err(()),
            Ok((t, p2)) => if pos < p2 <= s.len() {
                spec_tokenize_loop(s, p2, acc.push(t))
            } else {
                Err(())
            },
        }
    }
}

/// The token stream of an SQL text.
pub open spec fn spec_tokenize(s: Seq<char>) -> Result<Seq<TokenV>, ()> {
    spec_tokenize_loop(s, 0, Seq::empty())
}

// ---------------------------------------------------------------------
// Facts about the scanner.
// ---------------------------------------------------------------------

pub proof fn lemma_skip_ws_bounds(s: Seq<char>, pos: nat)
    requires
        pos <= s.len(),
    ensures
        pos <= spec_skip_ws(s, pos) <= s.len(),
    decreases s.len() - pos,
{
    if pos < s.len() && is_space(s[pos as int]) {
        lemma_skip_ws_bounds(s, pos + 1);
    }
}

pub proof fn lemma_scan_ident_bounds(s: Seq<char>, pos: nat)
    requires
        pos <= s.len(),
    ensures
        pos <= spec_scan_ident_end(s, pos) <= s.len(),
    decreases s.len() - pos,
{
    if pos < s.len() && is_ident_char(s[pos as int]) {
        lemma_scan_ident_bounds(s, pos + 1);
    }
}

pub proof fn lemma_scan_num_bounds(s: Seq<char>, pos: nat, m: int, frac: nat, dot: bool)
    requires
        pos <= s.len(),
        m >= 0,
    ensures
        pos <= spec_scan_num(s, pos, m, frac, dot).3 <= s.len(),
        spec_scan_num(s, pos, m, frac, dot).0 >= m,
    decreases s.len() - pos,
{
    if pos < s.len() {
        if is_digit(s[pos as int]) {
            lemma_scan_num_bounds(
                s,
                pos + 1,
                m * 10 + digit_val(s[pos as int]),
                if dot {
                    frac + 1
                } else {
                    frac
                },
                dot,
            );
        } else if s[pos as int] == '.' && !dot {
            lemma_scan_num_bounds(s, pos + 1, m, frac, true);
        }
    }
}

pub proof fn lemma_scan_str_bounds(s: Seq<char>, pos: nat)
    requires
        pos <= s.len(),
    ensures
        pos <= spec_scan_str_end(s, pos) <= s.len(),
    decreases s.len() - pos,
{
    if pos < s.len() && s[pos as int] != '\'' {
        lemma_scan_str_bounds(s, pos + 1);
    }
}

/// A successfully read token starts strictly after `pos`, ends inside the
/// input, is never the end-of-input marker, and carries a comparable
/// decimal if it is a float literal.
pub proof fn lemma_next_token_advances(s: Seq<char>, pos: nat)
    requires
        pos < s.len(),
    ensures
        spec_next_token(s, pos) matches Ok((t, p2)) ==> pos < p2 <= s.len() && !(t is Eof) && (
        t matches TokenV::FloatNumber(d) ==> d.wf()),
{
    if spec_next_token(s, pos) is Ok {
        let c = s[pos as int];
        if is_alpha(c) {
            lemma_scan_ident_bounds(s, pos + 1);
            assert(spec_scan_ident_end(s, pos) == spec_scan_ident_end(s, pos + 1));
        } else if is_digit(c) {
            lemma_scan_num_bounds(s, pos + 1, digit_val(c), 0, false);
            assert(spec_scan_num(s, pos, 0, 0, false) == spec_scan_num(
                s,
                pos + 1,
                digit_val(c),
                0,
                false,
            ));
        } else if c == '\'' {
            lemma_scan_str_bounds(s, pos + 1);
        }
    }
}

/// A successful scan yields a well-formed token stream extending `acc`.
pub proof fn lemma_tokenize_loop_wf(s: Seq<char>, pos: nat, acc: Seq<TokenV>)
    requires
        forall|i: int| 0 <= i < acc.len() ==> !((#[trigger] acc[i]) is Eof),
        forall|i: int|
            0 <= i < acc.len() ==> ((#[trigger] acc[i]) matches TokenV::FloatNumber(d)
                ==> d.wf()),
    ensures
        spec_tokenize_loop(s, pos, acc) matches Ok(ts) ==> token_stream_wf(ts) && ts.len()
            > acc.len(),
    decreases s.len() - pos,
{
    let p = spec_skip_ws(s, pos);
    if p >= s.len() {
    } else {
        match spec_next_token(s, p) {
            Err(_) => {},
            Ok((t, p2)) => {
                if pos < p2 <= s.len() {
                    lemma_next_token_advances(s, p);
                    lemma_tokenize_loop_wf(s, p2, acc.push(t));
                }
            },
        }
    }
}

// ---------------------------------------------------------------------
// The scanner itself.
// ---------------------------------------------------------------------

/// A lexical scanner that turns a raw SQL string into a sequence of
/// [`Token`]s.
pub struct Tokenizer {
    /// The input text.
    input: String,
    /// The current position, counted in characters.
    position: usize,
}

impl Tokenizer {
    /// The input text's characters.
    pub closed spec fn text(self) -> Seq<char> {
        self.input@
    }

    /// The cursor, inside the text or just past it.
    pub closed spec fn pos(self) -> nat {
        self.position as nat
    }

    pub open spec fn wf(self) -> bool {
        self.pos() <= self.text().len() <= usize::MAX
    }

    /// Creates a scanner over the given input.
    pub fn new(input: &str) -> (r: Tokenizer)
        ensures
            r.text() == input@,
            r.pos() == 0,
            r.wf(),
    {
        // Counting the characters witnesses that the text's length fits a
        // machine word.
        let length = input.unicode_len();
        proof {
            assert(input@.len() == length);
        }
        Tokenizer { input: input.to_owned(), position: 0 }
    }

    /// The character under the cursor.
    pub fn current_char(&self) -> (r: char)
        requires
            self.pos() < self.text().len(),
        ensures
            r == self.text()[self.pos() as int],
    {
        self.input.as_str().get_char(self.position)
    }

    /// Moves the cursor one character forward.
    pub fn advance(&mut self)
        requires
            old(self).wf(),
            old(self).pos() < old(self).text().len(),
        ensures
            final(self).text() == old(self).text(),
            final(self).pos() == old(self).pos() + 1,
            final(self).wf(),
    {
        self.position = self.position + 1;
    }

    /// True once the cursor has passed the last character.
    pub fn is_at_end(&self) -> (r: bool)
        ensures
            r == (self.pos() >= self.text().len()),
    {
        self.position >= self.input.as_str().unicode_len()
    }

    /// Skips whitespace under the cursor.
    #[verifier::loop_isolation(false)]
    pub fn skip_whitespace(&mut self)
        requires
            old(self).wf(),
        ensures
            final(self).text() == old(self).text(),
            final(self).pos() == spec_skip_ws(old(self).text(), old(self).pos()),
            final(self).wf(),
    {
        while !self.is_at_end() && is_space_exec(self.current_char())
            invariant
                self.wf(),
                self.text() == old(self).text(),
                spec_skip_ws(self.text(), self.pos()) == spec_skip_ws(
                    old(self).text(),
                    old(self).pos(),
                ),
            decreases self.text().len() - self.pos(),
        {
            self.advance();
        }
    }

    /// Scans the whole input into tokens, ending with [`Token::Eof`].
    #[verifier::loop_isolation(false)]
    pub fn tokenize(&mut self) -> (r: Result<Vec<Token>, String>)
        requires
            old(self).wf(),
        ensures
            match r {
                Ok(tokens) => {
                    &&& spec_tokenize_loop(old(self).text(), old(self).pos(), Seq::empty())
                        == Ok::<_, ()>(token_views(tokens@))
                    &&& token_stream_wf(token_views(tokens@))
                },
                Err(_) => spec_tokenize_loop(old(self).text(), old(self).pos(), Seq::empty())
                    is Err,
            },
    {
        let mut tokens: Vec<Token> = Vec::new();
        proof {
            assert(token_views(tokens@) =~= Seq::<TokenV>::empty());
        }
        while !self.is_at_end()
            invariant
                self.wf(),
                self.text() == old(self).text(),
                old(self).pos() <= self.pos(),
                spec_tokenize_loop(old(self).text(), old(self).pos(), Seq::empty())
                    == spec_tokenize_loop(self.text(), self.pos(), token_views(tokens@)),
                forall|i: int|
                    0 <= i < token_views(tokens@).len() ==> !((#[trigger] token_views(tokens@)[i])
                        is Eof),
                forall|i: int|
                    0 <= i < token_views(tokens@).len() ==> ((#[trigger] token_views(tokens@)[i])
                        matches TokenV::FloatNumber(d) ==> d.wf()),
            decreases self.text().len() - self.pos(),
        {
            let ghost p_entry = self.pos();
            self.skip_whitespace();
            proof {
                lemma_skip_ws_bounds(self.text(), p_entry);
            }
            if self.is_at_end() {
                break ;
            }
            let token = match self.next_token() {
                Ok(t) => t,
                Err(e) => {
                    return Err(e);
                },
            };
            let ghost prev = tokens@;
            tokens.push(token);
            proof {
                assert(token_views(tokens@) =~= token_views(prev).push(token@));
            }
        }
        proof {
            lemma_tokenize_loop_wf(self.text(), self.pos(), token_views(tokens@));
        }
        let ghost prev = tokens@;
        tokens.push(Token::Eof);
        proof {
            assert(token_views(tokens@) =~= token_views(prev).push(TokenV::Eof));
        }
        Ok(tokens)
    }

    /// Reads the token that starts under the cursor.
    fn next_token(&mut self) -> (r: Result<Token, String>)
        requires
            old(self).wf(),
            old(self).pos() < old(self).text().len(),
        ensures
            final(self).text() == old(self).text(),
            final(self).wf(),
            match r {
                Ok(t) => spec_next_token(old(self).text(), old(self).pos()) == Ok::<_, ()>(
                    (t@, final(self).pos()),
                ) && old(self).pos() < final(self).pos(),
                Err(_) => spec_next_token(old(self).text(), old(self).pos()) is Err,
            },
    {
        let ch = self.current_char();
        if ch == '(' {
            self.advance();
            Ok(Token::LeftParen)
        } else if ch == ')' {
            self.advance();
            Ok(Token::RightParen)
        } else if ch == ',' {
            self.advance();
            Ok(Token::Comma)
        } else if ch == ';' {
            self.advance();
            Ok(Token::Semicolon)
        } else if ch == '*' {
            self.advance();
            Ok(Token::Star)
        } else if ch == '>' {
            self.advance();
            Ok(Token::Greater)
        } else if ch == '<' {
            self.advance();
            Ok(Token::Lower)
        } else if ch == '=' {
            self.advance();
            Ok(Token::Equal)
        } else if is_alpha_exec(ch) {
            self.read_identifier()
        } else if is_digit_exec(ch) {
            self.read_number()
        } else if ch == '\'' {
            self.read_string()
        } else {
            Err(String::from_str("this character is not supported"))
        }
    }

    /// Reads a word and decides whether it is a keyword or an identifier.
    #[verifier::loop_isolation(false)]
    fn read_identifier(&mut self) -> (r: Result<Token, String>)
        requires
            old(self).wf(),
            old(self).pos() < old(self).text().len(),
            is_alpha(old(self).text()[old(self).pos() as int]),
        ensures
            final(self).text() == old(self).text(),
            final(self).wf(),
            match r {
                Ok(t) => {
                    &&& final(self).pos() == spec_scan_ident_end(
                        old(self).text(),
                        old(self).pos(),
                    )
                    &&& t@ == keyword_or_ident(
                        old(self).text().subrange(
                            old(self).pos() as int,
                            final(self).pos() as int,
                        ),
                    )
                    &&& old(self).pos() < final(self).pos()
                },
                Err(_) => false,
            },
    {
        let start: usize = self.position;
        while !self.is_at_end() && is_ident_char_exec(self.current_char())
            invariant
                self.wf(),
                self.text() == old(self).text(),
                start as nat <= self.pos(),
                spec_scan_ident_end(self.text(), start as nat) == spec_scan_ident_end(
                    self.text(),
                    self.pos(),
                ),
            decreases self.text().len() - self.pos(),
        {
            self.advance();
        }
        let text: &str = self.input.as_str().substring_char(start, self.position);
        let token = if kw_eq(text, "CREATE") {
            Token::Create
        } else if kw_eq(text, "TABLE") {
            Token::Table
        } else if kw_eq(text, "INSERT") {
            Token::Insert
        } else if kw_eq(text, "INTO") {
            Token::Into
        } else if kw_eq(text, "VALUES") {
            Token::Values
        } else if kw_eq(text, "SELECT") {
            Token::Select
        } else if kw_eq(text, "FROM") {
            Token::From
        } else if kw_eq(text, "WHERE") {
            Token::Where
        } else if kw_eq(text, "INT") {
            Token::Int
        } else if kw_eq(text, "TEXT") {
            Token::Text
        } else if kw_eq(text, "FLOAT") {
            Token::Float
        } else if kw_eq(text, "BOOL") {
            Token::Bool
        } else if kw_eq(text, "TRUE") {
            Token::True
        } else if kw_eq(text, "FALSE") {
            Token::False
        } else if kw_eq(text, "AND") {
            Token::And
        } else if kw_eq(text, "OR") {
            Token::Or
        } else if kw_eq(text, "LIMIT") {
            Token::Limit
        } else if kw_eq(text, "ORDER") {
            Token::Order
        } else if kw_eq(text, "BY") {
            Token::By
        } else if kw_eq(text, "ASC") {
            Token::Asc
        } else if kw_eq(text, "DESC") {
            Token::Desc
        } else if kw_eq(text, "UPDATE") {
            Token::Update
        } else if kw_eq(text, "SET") {
            Token::SetKw
        } else if kw_eq(text, "DELETE") {
            Token::Delete
        } else {
            Token::Ident(text.to_owned())
        };
        Ok(token)
    }

    /// Reads a numeric literal: an integer, or a decimal with one dot.
    #[verifier::loop_isolation(false)]
    fn read_number(&mut self) -> (r: Result<Token, String>)
        requires
            old(self).wf(),
            old(self).pos() < old(self).text().len(),
            is_digit(old(self).text()[old(self).pos() as int]),
        ensures
            final(self).text() == old(self).text(),
            final(self).wf(),
            match r {
                Ok(t) => spec_read_number(old(self).text(), old(self).pos()) == Ok::<_, ()>(
                    (t@, final(self).pos()),
                ) && old(self).pos() < final(self).pos(),
                Err(_) => spec_read_number(old(self).text(), old(self).pos()) is Err,
            },
    {
        let ghost s = self.text();
        let ghost p0 = self.pos();
        let mut m: i64 = 0;
        let mut frac: usize = 0;
        let mut dot: bool = false;
        let mut overflow: bool = false;
        let ghost mut bigm: int = 0int;
        while !self.is_at_end() && (is_digit_exec(self.current_char()) || (self.current_char()
            == '.' && !dot))
            invariant
                self.wf(),
                self.text() == s,
                p0 <= self.pos(),
                frac <= self.pos(),
                bigm >= 0,
                spec_scan_num(s, p0, 0, 0, false) == spec_scan_num(
                    s,
                    self.pos(),
                    bigm,
                    frac as nat,
                    dot,
                ),
                if overflow {
                    bigm > i64::MAX
                } else {
                    bigm == m as int
                },
                m >= 0,
            decreases s.len() - self.pos(),
        {
            let c = self.current_char();
            if c == '.' {
                dot = true;
            } else {
                let d: u32 = (c as u32) - 48;
                if !overflow {
                    if m > 922337203685477580 || (m == 922337203685477580 && d > 7) {
                        overflow = true;
                    } else {
                        m = m * 10 + (d as i64);
                    }
                }
                if dot {
                    frac = frac + 1;
                }
                proof {
                    bigm = bigm * 10 + digit_val(c);
                }
            }
            self.advance();
        }

        if !self.is_at_end() && self.current_char() == '.' {
            return Err(String::from_str("multiple dots are not allowed for a float"));
        }
        if overflow {
            return Err(String::from_str("the numeric literal is too large"));
        }
        if !dot {
            return Ok(Token::Number(m));
        }
        if frac > 18 {
            return Err(String::from_str("the float literal carries too many fractional digits"));
        }
        Ok(Token::FloatNumber(Decimal::new(m, frac as u32)))
    }

    /// Reads a string literal enclosed in single quotes.
    #[verifier::loop_isolation(false)]
    fn read_string(&mut self) -> (r: Result<Token, String>)
        requires
            old(self).wf(),
            old(self).pos() < old(self).text().len(),
            old(self).text()[old(self).pos() as int] == '\'',
        ensures
            final(self).text() == old(self).text(),
            final(self).wf(),
            match r {
                Ok(t) => spec_read_string(old(self).text(), old(self).pos()) == Ok::<_, ()>(
                    (t@, final(self).pos()),
                ) && old(self).pos() < final(self).pos(),
                Err(_) => spec_read_string(old(self).text(), old(self).pos()) is Err,
            },
    {
        self.advance();
        let start: usize = self.position;
        while !self.is_at_end() && self.current_char() != '\''
            invariant
                self.wf(),
                self.text() == old(self).text(),
                start as nat <= self.pos(),
                spec_scan_str_end(self.text(), start as nat) == spec_scan_str_end(
                    self.text(),
                    self.pos(),
                ),
            decreases self.text().len() - self.pos(),
        {
            self.advance();
        }
        if self.is_at_end() {
            return Err(String::from_str("Unterminated string"));
        }
        let text: &str = self.input.as_str().substring_char(start, self.position);
        let token = Token::String(text.to_owned());
        self.advance();
        Ok(token)
    }
}

} // verus!
