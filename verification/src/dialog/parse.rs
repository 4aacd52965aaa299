use vstd::prelude::*;

verus! {

// ---------------------------------------------------------------------------
// Tokens
// ---------------------------------------------------------------------------

/// The kind of a token of the dialog script language.
#[derive(Debug)]
pub enum TokenType {
    Identifier(String),
    LeftBrace,
    RightBrace,
    String(String),
    Colon,
    Tag,
    Character,
    Show,
    Hide,
    Expr,
    Wait,
    Enter,
    Left,
    Right,
    Top,
    Bottom,
    Goto,
    Choice,
    End,
    Number(i32),
    Minus,
    Error(String),
}

/// A token together with the (one based) line it was read on.
#[derive(Debug)]
pub struct Token {
    pub kind: TokenType,
    pub line: usize,
}

/// Mathematical model of a `TokenType`: every string becomes its sequence of chars.
pub enum TokenKind {
    Identifier(Seq<char>),
    LeftBrace,
    RightBrace,
    Text(Seq<char>),
    Colon,
    Tag,
    Character,
    Show,
    Hide,
    Expr,
    Wait,
    Enter,
    Left,
    Right,
    Top,
    Bottom,
    Goto,
    Choice,
    End,
    Number(i32),
    Minus,
    Error(Seq<char>),
}

/// Mathematical model of a `Token`.
pub struct TokenModel {
    pub kind: TokenKind,
    pub line: nat,
}

impl View for TokenType {
    type V = TokenKind;

    open spec fn view(&self) -> TokenKind {
        match self {
            TokenType::Identifier(s) => TokenKind::Identifier(s@),
            TokenType::LeftBrace => TokenKind::LeftBrace,
            TokenType::RightBrace => TokenKind::RightBrace,
            TokenType::String(s) => TokenKind::Text(s@),
            TokenType::Colon => TokenKind::Colon,
            TokenType::Tag => TokenKind::Tag,
            TokenType::Character => TokenKind::Character,
            TokenType::Show => TokenKind::Show,
            TokenType::Hide => TokenKind::Hide,
            TokenType::Expr => TokenKind::Expr,
            TokenType::Wait => TokenKind::Wait,
            TokenType::Enter => TokenKind::Enter,
            TokenType::Left => TokenKind::Left,
            TokenType::Right => TokenKind::Right,
            TokenType::Top => TokenKind::Top,
            TokenType::Bottom => TokenKind::Bottom,
            TokenType::Goto => TokenKind::Goto,
            TokenType::Choice => TokenKind::Choice,
            TokenType::End => TokenKind::End,
            TokenType::Number(n) => TokenKind::Number(*n),
            TokenType::Minus => TokenKind::Minus,
            TokenType::Error(s) => TokenKind::Error(s@),
        }
    }
}

impl View for Token {
    type V = TokenModel;

    open spec fn view(&self) -> TokenModel {
        TokenModel { kind: self.kind@, line: self.line as nat }
    }
}

impl Token {
    fn at(kind: TokenType, line: usize) -> (t: Self)
        ensures
            t@ == (TokenModel { kind: kind@, line: line as nat }),
    {
        Self { kind, line }
    }
}

// ---------------------------------------------------------------------------
// Character classes
// ---------------------------------------------------------------------------

pub open spec fn spec_is_whitespace(c: char) -> bool {
    c == ' ' || c == '\t' || c == '\n' || c == '\r'
}

pub open spec fn spec_is_digit(c: char) -> bool {
    '0' <= c <= '9'
}

pub open spec fn spec_is_alpha(c: char) -> bool {
    ('A' <= c <= 'Z') || ('a' <= c <= 'z')
}

pub open spec fn spec_valid_for_ident(c: char) -> bool {
    spec_is_alpha(c) || c == '_'
}

fn is_whitespace(c: char) -> (b: bool)
    ensures
        b == spec_is_whitespace(c),
{
    c == ' ' || c == '\t' || c == '\n' || c == '\r'
}

fn is_digit(c: char) -> (b: bool)
    ensures
        b == spec_is_digit(c),
{
    c >= '0' && c <= '9'
}

fn is_alpha(c: char) -> (b: bool)
    ensures
        b == spec_is_alpha(c),
{
    (c >= 'A' && c <= 'Z') || (c >= 'a' && c <= 'z')
}

fn valid_for_ident(c: char) -> (b: bool)
    ensures
        b == spec_valid_for_ident(c),
{
    is_alpha(c) || c == '_'
}

// ---------------------------------------------------------------------------
// Model of the tokenizer: a list of lines and a cursor into it
// ---------------------------------------------------------------------------

/// A position in the list of lines.
pub struct Cursor {
    pub line: nat,
    pub ch: nat,
}

/// Mathematical model of a `DialogTokenizer`.
pub struct TokenizerModel {
    pub lines: Seq<Seq<char>>,
    pub at: Cursor,
}

/// The character under the cursor, if the cursor stands on one.
pub open spec fn char_at(lines: Seq<Seq<char>>, c: Cursor) -> Option<char> {
    if c.line < lines.len() && c.ch < lines[c.line as int].len() {
        Some(lines[c.line as int][c.ch as int])
    } else {
        None
    }
}

/// The character `n` places to the right of the cursor on the same line.
pub open spec fn char_ahead(lines: Seq<Seq<char>>, c: Cursor, n: nat) -> Option<char> {
    if c.line < lines.len() && c.ch + n < lines[c.line as int].len() {
        Some(lines[c.line as int][(c.ch + n) as int])
    } else {
        None
    }
}

/// The first line at or after `i` that is not empty (or the line count, if there is none).
pub open spec fn next_filled_line(lines: Seq<Seq<char>>, i: nat) -> nat
    decreases lines.len() - i,
{
    if i < lines.len() && lines[i as int].len() == 0 {
        next_filled_line(lines, i + 1)
    } else {
        i
    }
}

/// The cursor at the start of the next non empty line.
pub open spec fn line_skipped(lines: Seq<Seq<char>>, c: Cursor) -> Cursor {
    Cursor { line: next_filled_line(lines, c.line + 1), ch: 0 }
}

/// The cursor moved past the character it stands on.
pub open spec fn stepped(lines: Seq<Seq<char>>, c: Cursor) -> Cursor {
    if c.line < lines.len() && c.ch + 1 < lines[c.line as int].len() {
        Cursor { line: c.line, ch: c.ch + 1 }
    } else {
        line_skipped(lines, c)
    }
}

/// The cursor moved `n` times.
pub open spec fn stepped_n(lines: Seq<Seq<char>>, c: Cursor, n: nat) -> Cursor
    decreases n,
{
    if n == 0 {
        c
    } else {
        stepped_n(lines, stepped(lines, c), (n - 1) as nat)
    }
}

/// `word` stands on the cursor's line, starting at the cursor.
pub open spec fn matches_at(lines: Seq<Seq<char>>, c: Cursor, word: Seq<char>) -> bool {
    forall|i: int| 0 <= i < word.len() ==> char_ahead(lines, c, i as nat) == Some(word[i])
}

pub proof fn lemma_next_filled_line(lines: Seq<Seq<char>>, i: nat)
    ensures
        i <= next_filled_line(lines, i),
        i <= lines.len() ==> next_filled_line(lines, i) <= lines.len(),
        next_filled_line(lines, i) < lines.len() ==> lines[next_filled_line(lines, i) as int].len() > 0,
        forall|j: int| i <= j < next_filled_line(lines, i) ==> lines[j].len() == 0,
    decreases lines.len() - i,
{
    if i < lines.len() && lines[i as int].len() == 0 {
        lemma_next_filled_line(lines, i + 1);
    }
}

/// Moving the cursor past a character moves it forward.
pub proof fn lemma_stepped_forward(lines: Seq<Seq<char>>, c: Cursor)
    requires
        c.line < lines.len(),
    ensures
        stepped(lines, c).line <= lines.len(),
        stepped(lines, c).line == c.line ==> stepped(lines, c).ch == c.ch + 1 && c.ch + 1 < lines[c.line as int].len(),
        stepped(lines, c).line != c.line ==> stepped(lines, c).line > c.line,
{
    lemma_next_filled_line(lines, c.line + 1);
}


/// Moving the cursor past a character never moves it to an earlier line.
pub proof fn lemma_stepped_n_line(lines: Seq<Seq<char>>, c: Cursor, n: nat)
    requires
        c.line <= lines.len(),
        n == 0 || (c.line < lines.len() && c.ch + n <= lines[c.line as int].len()),
    ensures
        c.line <= stepped_n(lines, c, n).line <= lines.len(),
    decreases n,
{
    if n > 0 {
        lemma_stepped_forward(lines, c);
        lemma_stepped_n_line(lines, stepped(lines, c), (n - 1) as nat);
    }
}

// ---------------------------------------------------------------------------
// Scanning
// ---------------------------------------------------------------------------

/// Skips the whitespace under the cursor.
pub open spec fn skip_ws(lines: Seq<Seq<char>>, c: Cursor) -> Cursor
    decreases lines.len() - c.line, lines[c.line as int].len() - c.ch,
{
    match char_at(lines, c) {
        Some(x) => if spec_is_whitespace(x) {
            proof { lemma_stepped_forward(lines, c); }
            skip_ws(lines, stepped(lines, c))
        } else {
            c
        },
        None => c,
    }
}

/// Reads the characters of a quoted text up to the closing quote, which is consumed too;
/// `None` when the lines end first.
pub open spec fn scan_quoted(lines: Seq<Seq<char>>, c: Cursor) -> (Cursor, Option<Seq<char>>)
    decreases lines.len() - c.line, lines[c.line as int].len() - c.ch,
{
    match char_at(lines, c) {
        Some(x) => if x == '\'' || x == '"' {
            (stepped(lines, c), Some(Seq::<char>::empty()))
        } else {
            proof { lemma_stepped_forward(lines, c); }
            let (e, r) = scan_quoted(lines, stepped(lines, c));
            (e, match r { Some(s) => Some(seq![x] + s), None => None })
        },
        None => (c, None),
    }
}

/// Reads a run of digits; `None` when the lines end inside the run.
pub open spec fn scan_digits(lines: Seq<Seq<char>>, c: Cursor) -> (Cursor, Option<Seq<char>>)
    decreases lines.len() - c.line, lines[c.line as int].len() - c.ch,
{
    match char_at(lines, c) {
        Some(x) => if spec_is_digit(x) {
            proof { lemma_stepped_forward(lines, c); }
            let (e, r) = scan_digits(lines, stepped(lines, c));
            (e, match r { Some(s) => Some(seq![x] + s), None => None })
        } else {
            (c, Some(Seq::<char>::empty()))
        },
        None => (c, None),
    }
}

/// Reads the characters that may continue an identifier.
pub open spec fn scan_ident_tail(lines: Seq<Seq<char>>, c: Cursor) -> (Cursor, Seq<char>)
    decreases lines.len() - c.line, lines[c.line as int].len() - c.ch,
{
    match char_at(lines, c) {
        Some(x) => if spec_valid_for_ident(x) {
            proof { lemma_stepped_forward(lines, c); }
            let (e, s) = scan_ident_tail(lines, stepped(lines, c));
            (e, seq![x] + s)
        } else {
            (c, Seq::<char>::empty())
        },
        None => (c, Seq::<char>::empty()),
    }
}

pub open spec fn digit_value(c: char) -> int {
    (c as int) - ('0' as int)
}

/// The number that a sequence of decimal digits denotes.
pub open spec fn digits_value(ds: Seq<char>) -> int
    decreases ds.len(),
{
    if ds.len() == 0 {
        0
    } else {
        digits_value(ds.drop_last()) * 10 + digit_value(ds.last())
    }
}

pub open spec fn all_digits(ds: Seq<char>) -> bool {
    forall|i: int| 0 <= i < ds.len() ==> spec_is_digit(#[trigger] ds[i])
}

/// What parsing a non empty run of digits as an `i32` gives: the value, when it fits.
pub open spec fn parse_i32(ds: Seq<char>) -> Option<i32> {
    if ds.len() > 0 && all_digits(ds) && digits_value(ds) <= i32::MAX {
        Some(digits_value(ds) as i32)
    } else {
        None
    }
}

pub open spec fn token(kind: TokenKind, line: nat) -> TokenModel {
    TokenModel { kind, line }
}

/// A quoted text; the cursor stands on the opening quote.
pub open spec fn spec_string(lines: Seq<Seq<char>>, c: Cursor) -> (Cursor, Option<TokenModel>) {
    let (e, r) = scan_quoted(lines, stepped(lines, c));
    (e, match r {
        Some(s) => Some(token(TokenKind::Text(s), c.line + 1)),
        None => None,
    })
}

/// A number; the cursor stands on its first digit. The token's line is the one the cursor
/// stands on after the digits.
pub open spec fn spec_number(lines: Seq<Seq<char>>, c: Cursor) -> (Cursor, Option<TokenModel>) {
    let (e, r) = scan_digits(lines, c);
    (e, match r {
        Some(ds) => match parse_i32(ds) {
            Some(v) => Some(token(TokenKind::Number(v), e.line + 1)),
            None => None,
        },
        None => None,
    })
}

/// An identifier; the cursor stands on its first character. It only continues past the first
/// character when that character is not the last one of its line.
pub open spec fn spec_identifier(lines: Seq<Seq<char>>, c: Cursor) -> (Cursor, TokenModel) {
    let first = lines[c.line as int][c.ch as int];
    if c.ch + 1 < lines[c.line as int].len() {
        let (e, s) = scan_ident_tail(lines, stepped(lines, c));
        (e, token(TokenKind::Identifier(seq![first] + s), c.line + 1))
    } else {
        (stepped(lines, c), token(TokenKind::Identifier(seq![first]), c.line + 1))
    }
}


/// The keyword that starts at the cursor, tried in the order the tokenizer tries them for the
/// character `x` under the cursor, with its spelling.
pub open spec fn keyword_at(lines: Seq<Seq<char>>, c: Cursor, x: char) -> Option<(TokenKind, Seq<char>)> {
    if x == 'b' && matches_at(lines, c, "bottom"@) {
        Some((TokenKind::Bottom, "bottom"@))
    } else if x == 'c' && matches_at(lines, c, "character"@) {
        Some((TokenKind::Character, "character"@))
    } else if x == 'c' && matches_at(lines, c, "choice"@) {
        Some((TokenKind::Choice, "choice"@))
    } else if x == 'e' && matches_at(lines, c, "enter"@) {
        Some((TokenKind::Enter, "enter"@))
    } else if x == 'e' && matches_at(lines, c, "expr"@) {
        Some((TokenKind::Expr, "expr"@))
    } else if x == 'g' && matches_at(lines, c, "goto"@) {
        Some((TokenKind::Goto, "goto"@))
    } else if x == 'h' && matches_at(lines, c, "hide"@) {
        Some((TokenKind::Hide, "hide"@))
    } else if x == 'l' && matches_at(lines, c, "left"@) {
        Some((TokenKind::Left, "left"@))
    } else if x == 'r' && matches_at(lines, c, "right"@) {
        Some((TokenKind::Right, "right"@))
    } else if x == 's' && matches_at(lines, c, "show"@) {
        Some((TokenKind::Show, "show"@))
    } else if x == 't' && matches_at(lines, c, "top"@) {
        Some((TokenKind::Top, "top"@))
    } else if x == 'w' && matches_at(lines, c, "wait"@) {
        Some((TokenKind::Wait, "wait"@))
    } else {
        None
    }
}

/// The text of the error token for a character the language does not know.
pub open spec fn unknown_char_message(x: char) -> Seq<char> {
    "Unknown character `"@ + seq![x, '`']
}

/// A token made of the single character under the cursor.
pub open spec fn single(lines: Seq<Seq<char>>, c: Cursor, kind: TokenKind) -> (Cursor, Option<TokenModel>) {
    (stepped(lines, c), Some(token(kind, c.line + 1)))
}

pub proof fn lemma_skip_ws_forward(lines: Seq<Seq<char>>, c: Cursor)
    requires
        c.line <= lines.len(),
    ensures
        c.line <= skip_ws(lines, c).line <= lines.len(),
    decreases lines.len() - c.line, lines[c.line as int].len() - c.ch,
{
    if let Some(x) = char_at(lines, c) {
        if spec_is_whitespace(x) {
            lemma_stepped_forward(lines, c);
            lemma_skip_ws_forward(lines, stepped(lines, c));
        }
    }
}

/// One step of the tokenizer: the cursor after it, and the token read, or `None` when the
/// tokenizer stops there.
pub open spec fn spec_next(lines: Seq<Seq<char>>, c: Cursor) -> (Cursor, Option<TokenModel>)
    decreases lines.len() - c.line,
{
    let w = skip_ws(lines, c);
    match char_at(lines, w) {
        None => (w, None),
        Some(x) => if x == '/' {
            if char_ahead(lines, w, 1) == Some('/') {
                proof {
                    lemma_skip_ws_forward(lines, c);
                    lemma_next_filled_line(lines, w.line + 1);
                }
                spec_next(lines, line_skipped(lines, w))
            } else {
                (w, None)
            }
        } else if x == '{' {
            single(lines, w, TokenKind::LeftBrace)
        } else if x == '}' {
            single(lines, w, TokenKind::RightBrace)
        } else if x == ':' {
            single(lines, w, TokenKind::Colon)
        } else if x == '#' {
            single(lines, w, TokenKind::Tag)
        } else if x == '\'' || x == '"' {
            spec_string(lines, w)
        } else if x == '-' {
            single(lines, w, TokenKind::Minus)
        } else if spec_is_digit(x) {
            spec_number(lines, w)
        } else if spec_is_alpha(x) {
            match keyword_at(lines, w, x) {
                Some((kind, word)) => {
                    let e = stepped_n(lines, w, word.len());
                    (e, Some(token(kind, e.line + 1)))
                },
                None => {
                    let (e, t) = spec_identifier(lines, w);
                    (e, Some(t))
                },
            }
        } else {
            (w, Some(token(TokenKind::Error(unknown_char_message(x)), w.line + 1)))
        }
    }
}

/// Runs the tokenizer for at most `fuel` tokens; `Some` with the cursor where it stopped and the
/// tokens read, when it stops within that many tokens.
pub open spec fn spec_run(lines: Seq<Seq<char>>, c: Cursor, fuel: nat) -> Option<(Cursor, Seq<TokenModel>)>
    decreases fuel,
{
    let (e, t) = spec_next(lines, c);
    match t {
        None => Some((e, Seq::<TokenModel>::empty())),
        Some(tok) => if fuel == 0 {
            None
        } else {
            match spec_run(lines, e, (fuel - 1) as nat) {
                Some((f, ts)) => Some((f, seq![tok] + ts)),
                None => None,
            }
        },
    }
}

/// The tokenizer stops: from this state it reaches a point where no token is read.
/// (It does not stop on a character the language does not know, since it reports an error
/// token there without moving past the character.)
pub open spec fn halts(m: TokenizerModel) -> bool {
    exists|fuel: nat| #[trigger] spec_run(m.lines, m.at, fuel) is Some
}

/// The tokens that tokenizing from this state gives: those read until the tokenizer stops,
/// then an `End` token on the line where it stopped.
pub open spec fn spec_tokenize(m: TokenizerModel) -> Seq<TokenModel> {
    let fuel = choose|fuel: nat| #[trigger] spec_run(m.lines, m.at, fuel) is Some;
    let (f, ts) = spec_run(m.lines, m.at, fuel).unwrap();
    ts.push(token(TokenKind::End, f.line + 1))
}


// ---------------------------------------------------------------------------
// The tokenizer
// ---------------------------------------------------------------------------

/// Reads the tokens of a dialog script, line by line.
pub struct DialogTokenizer {
    lines: Vec<Vec<char>>,
    current_line: usize,
    current_char: usize,
}

pub open spec fn lines_model(lines: Seq<Vec<char>>) -> Seq<Seq<char>> {
    Seq::new(lines.len(), |i: int| lines[i]@)
}

pub open spec fn opt_token(t: Option<Token>) -> Option<TokenModel> {
    match t {
        Some(t) => Some(t@),
        None => None,
    }
}

impl View for DialogTokenizer {
    type V = TokenizerModel;

    closed spec fn view(&self) -> TokenizerModel {
        TokenizerModel {
            lines: lines_model(self.lines@),
            at: Cursor { line: self.current_line as nat, ch: self.current_char as nat },
        }
    }
}

impl DialogTokenizer {
    /// The cursor never goes past the line after the last one, and line numbers fit.
    pub closed spec fn wf(&self) -> bool {
        &&& self.current_line <= self.lines@.len()
        &&& self.lines@.len() < usize::MAX
    }

    fn get_char(&self) -> (r: Option<char>)
        ensures
            r == char_at(self@.lines, self@.at),
    {
        if self.current_line < self.lines.len() && self.current_char < self.lines[self.current_line].len() {
            Some(self.lines[self.current_line][self.current_char])
        } else {
            None
        }
    }

    fn skip_line(&mut self)
        requires
            old(self).wf(),
            old(self)@.at.line < old(self)@.lines.len(),
        ensures
            final(self).wf(),
            final(self)@ == (TokenizerModel { lines: old(self)@.lines, at: line_skipped(old(self)@.lines, old(self)@.at) }),
    {
        let ghost lines = self@.lines;
        let ghost target = next_filled_line(lines, (self.current_line + 1) as nat);
        proof { lemma_next_filled_line(lines, (self.current_line + 1) as nat); }
        self.current_line += 1;
        self.current_char = 0;
        while self.current_line < self.lines.len() && self.lines[self.current_line].len() == 0
            invariant
                self@.lines == lines,
                self.lines@.len() < usize::MAX,
                self.current_line <= self.lines@.len(),
                self.current_char == 0,
                next_filled_line(lines, self.current_line as nat) == target,
            decreases self.lines@.len() - self.current_line,
        {
            self.current_line += 1;
        }
    }

    fn consume(&mut self)
        requires
            old(self).wf(),
            char_at(old(self)@.lines, old(self)@.at) is Some,
        ensures
            final(self).wf(),
            final(self)@ == (TokenizerModel { lines: old(self)@.lines, at: stepped(old(self)@.lines, old(self)@.at) }),
    {
        let len = self.lines[self.current_line].len();
        self.current_char += 1;
        if self.current_char >= len {
            self.skip_line();
        }
    }

    fn consume_within_line(&mut self) -> (same_line: bool)
        requires
            old(self).wf(),
            char_at(old(self)@.lines, old(self)@.at) is Some,
        ensures
            final(self).wf(),
            final(self)@ == (TokenizerModel { lines: old(self)@.lines, at: stepped(old(self)@.lines, old(self)@.at) }),
            same_line == (old(self)@.at.ch + 1 < old(self)@.lines[old(self)@.at.line as int].len()),
    {
        let len = self.lines[self.current_line].len();
        self.current_char += 1;
        if self.current_char >= len {
            self.skip_line();
            return false;
        }
        true
    }

    #[allow(dead_code)]
    fn advance_within_line(&mut self) -> (r: Option<char>)
        requires
            old(self).wf(),
            char_at(old(self)@.lines, old(self)@.at) is Some,
        ensures
            final(self).wf(),
            final(self)@ == (TokenizerModel { lines: old(self)@.lines, at: stepped(old(self)@.lines, old(self)@.at) }),
            r == (if old(self)@.at.ch + 1 < old(self)@.lines[old(self)@.at.line as int].len() {
                char_at(final(self)@.lines, final(self)@.at)
            } else {
                None
            }),
    {
        if self.consume_within_line() {
            return self.get_char();
        }
        None
    }

    fn advance(&mut self) -> (r: Option<char>)
        requires
            old(self).wf(),
            char_at(old(self)@.lines, old(self)@.at) is Some,
        ensures
            final(self).wf(),
            final(self)@ == (TokenizerModel { lines: old(self)@.lines, at: stepped(old(self)@.lines, old(self)@.at) }),
            r == char_at(final(self)@.lines, final(self)@.at),
    {
        self.consume();
        self.get_char()
    }

    #[allow(dead_code)]
    fn back(&mut self) -> (r: Option<char>)
        requires
            old(self).wf(),
        ensures
            final(self).wf(),
            old(self)@.at.ch == 0 ==> final(self)@ == old(self)@ && r is None,
            old(self)@.at.ch > 0 ==> final(self)@ == (TokenizerModel {
                lines: old(self)@.lines,
                at: Cursor { line: old(self)@.at.line, ch: (old(self)@.at.ch - 1) as nat },
            }) && r == char_at(final(self)@.lines, final(self)@.at),
    {
        if self.current_char == 0 {
            return None;
        }
        self.current_char -= 1;
        self.get_char()
    }

    fn make_token(&self, kind: TokenType) -> (t: Token)
        requires
            self.wf(),
        ensures
            t@ == token(kind@, self@.at.line + 1),
    {
        Token::at(kind, self.current_line + 1)
    }

    fn consume_as_token(&mut self, kind: TokenType, chars: usize) -> (t: Token)
        requires
            old(self).wf(),
            chars == 0 || (old(self)@.at.line < old(self)@.lines.len()
                && old(self)@.at.ch + chars <= old(self)@.lines[old(self)@.at.line as int].len()),
        ensures
            final(self).wf(),
            final(self)@ == (TokenizerModel { lines: old(self)@.lines, at: stepped_n(old(self)@.lines, old(self)@.at, chars as nat) }),
            t@ == token(kind@, old(self)@.at.line + 1),
    {
        let line = self.current_line;
        self.consume_n(chars);
        Token::at(kind, line + 1)
    }

    fn peek_ahead(&self, n: usize) -> (r: Option<char>)
        ensures
            r == char_ahead(self@.lines, self@.at, n as nat),
    {
        if self.current_line < self.lines.len() {
            let line = &self.lines[self.current_line];
            if n < line.len() && self.current_char < line.len() - n {
                Some(line[self.current_char + n])
            } else {
                None
            }
        } else {
            None
        }
    }

    fn match_all(&mut self, from: &str) -> (b: bool)
        ensures
            final(self)@ == old(self)@,
            final(self).wf() == old(self).wf(),
            b == matches_at(old(self)@.lines, old(self)@.at, from@),
            from@.len() <= usize::MAX,
    {
        let n = from.unicode_len();
        let mut i: usize = 0;
        while i < n
            invariant
                n == from@.len(),
                i <= n,
                forall|j: int| 0 <= j < i ==> char_ahead(self@.lines, self@.at, j as nat) == Some(from@[j]),
            decreases n - i,
        {
            let expected = from.get_char(i);
            match self.peek_ahead(i) {
                Some(c) => {
                    if c != expected {
                        return false;
                    }
                },
                None => {
                    return false;
                },
            }
            i += 1;
        }
        true
    }

    fn consume_n(&mut self, n: usize)
        requires
            old(self).wf(),
            n == 0 || (old(self)@.at.line < old(self)@.lines.len()
                && old(self)@.at.ch + n <= old(self)@.lines[old(self)@.at.line as int].len()),
        ensures
            final(self).wf(),
            final(self)@ == (TokenizerModel { lines: old(self)@.lines, at: stepped_n(old(self)@.lines, old(self)@.at, n as nat) }),
    {
        let ghost lines = self@.lines;
        let ghost target = stepped_n(lines, self@.at, n as nat);
        let mut n = n;
        while n > 0
            invariant
                self.wf(),
                self@.lines == lines,
                n == 0 || (self@.at.line < lines.len() && self@.at.ch + n <= lines[self@.at.line as int].len()),
                stepped_n(lines, self@.at, n as nat) == target,
            decreases n,
        {
            proof { lemma_stepped_forward(lines, self@.at); }
            self.consume();
            n -= 1;
        }
    }

    fn match_all_and_consume(&mut self, from: &str) -> (b: bool)
        requires
            old(self).wf(),
            from.is_ascii(),
            from@.len() > 0,
        ensures
            final(self).wf(),
            b == matches_at(old(self)@.lines, old(self)@.at, from@),
            b ==> final(self)@ == (TokenizerModel { lines: old(self)@.lines, at: stepped_n(old(self)@.lines, old(self)@.at, from@.len()) }),
            !b ==> final(self)@ == old(self)@,
    {
        if self.match_all(from) {
            proof {
                broadcast use vstd::string::is_ascii_spec_bytes;
                assert(char_ahead(self@.lines, self@.at, (from@.len() - 1) as nat) == Some(from@[from@.len() - 1]));
                assert(vstd::string::StringSliceAdditionalSpecFns::spec_bytes(from).len() == from@.len());
            }
            self.consume_n(from.len());
            return true;
        }
        false
    }
}


pub open spec fn prefixed(acc: Seq<char>, r: Option<Seq<char>>) -> Option<Seq<char>> {
    match r {
        Some(s) => Some(acc + s),
        None => None,
    }
}

/// Collects the characters into a `String` with std's `Iterator::collect` (through
/// `String: FromIterator<&char>`). Claimed, not proved: the string holds exactly those
/// characters, in order.
#[verifier::external_body]
fn collect_string(chars: &Vec<char>) -> (s: String)
    ensures
        s@ == chars@,
{
    chars.iter().collect()
}

/// The characters of a string slice, in order.
pub(crate) fn chars_of(s: &str) -> (v: Vec<char>)
    ensures
        v@ == s@,
{
    broadcast use vstd::string::group_string_axioms;
    let mut it = s.chars();
    let mut v: Vec<char> = Vec::new();
    loop
        invariant
            v@ + vstd::std_specs::iter::IteratorSpec::remaining(&it) == s@,
            vstd::std_specs::iter::IteratorSpec::decrease(&it) is Some,
        ensures
            v@ == s@,
        decreases vstd::std_specs::iter::IteratorSpec::decrease(&it)->0,
    {
        match it.next() {
            Some(c) => {
                v.push(c);
            },
            None => {
                break;
            },
        }
    }
    v
}

pub proof fn lemma_digits_value_nonneg(ds: Seq<char>)
    requires
        all_digits(ds),
    ensures
        digits_value(ds) >= 0,
    decreases ds.len(),
{
    if ds.len() > 0 {
        assert(spec_is_digit(ds[ds.len() - 1]));
        assert(all_digits(ds.drop_last()));
        lemma_digits_value_nonneg(ds.drop_last());
    }
}

/// A number does not get smaller when more digits follow.
pub proof fn lemma_digits_value_prefix(ds: Seq<char>, k: int)
    requires
        all_digits(ds),
        0 <= k <= ds.len(),
    ensures
        digits_value(ds.take(k)) <= digits_value(ds),
    decreases ds.len(),
{
    if k < ds.len() {
        assert(all_digits(ds.drop_last()));
        assert(ds.drop_last().take(k) =~= ds.take(k));
        lemma_digits_value_prefix(ds.drop_last(), k);
        lemma_digits_value_nonneg(ds.drop_last());
        assert(spec_is_digit(ds[ds.len() - 1]));
    } else {
        assert(ds.take(k) =~= ds);
    }
}

/// Parses a run of decimal digits as an `i32`, as `str::parse::<i32>` does on it.
fn parse_decimal(ds: &Vec<char>) -> (r: Option<i32>)
    ensures
        r == parse_i32(ds@),
{
    if ds.len() == 0 {
        return None;
    }
    let mut value: i32 = 0;
    let mut i: usize = 0;
    while i < ds.len()
        invariant
            0 <= i <= ds@.len(),
            all_digits(ds@.take(i as int)),
            value == digits_value(ds@.take(i as int)),
            0 <= value,
        decreases ds@.len() - i,
    {
        let c = ds[i];
        if !is_digit(c) {
            assert(!all_digits(ds@));
            return None;
        }
        let d: i32 = (c as u32 - '0' as u32) as i32;
        assert(ds@.take(i + 1).drop_last() =~= ds@.take(i as int));
        assert(all_digits(ds@.take(i + 1)));
        if value > (i32::MAX - d) / 10 {
            proof {
                assert(digits_value(ds@.take(i + 1)) == value * 10 + d);
                assert(value * 10 + d > i32::MAX) by (nonlinear_arith)
                    requires
                        value > (i32::MAX - d) / 10,
                        0 <= d <= 9,
                ;
                if all_digits(ds@) {
                    lemma_digits_value_prefix(ds@, i + 1);
                }
            }
            return None;
        }
        assert(value * 10 + d <= i32::MAX) by (nonlinear_arith)
            requires
                value <= (i32::MAX - d) / 10,
                0 <= d <= 9,
        ;
        value = value * 10 + d;
        i += 1;
    }
    assert(ds@.take(ds@.len() as int) =~= ds@);
    Some(value)
}

impl DialogTokenizer {
    fn string(&mut self) -> (r: Option<Token>)
        requires
            old(self).wf(),
            char_at(old(self)@.lines, old(self)@.at) is Some,
        ensures
            final(self).wf(),
            final(self)@.lines == old(self)@.lines,
            (final(self)@.at, opt_token(r)) == spec_string(old(self)@.lines, old(self)@.at),
    {
        let ghost lines = self@.lines;
        let ghost first = stepped(lines, self@.at);
        let line = self.current_line;
        let mut c = match self.advance() {
            Some(c) => c,
            None => {
                return None;
            },
        };
        let mut string_contents: Vec<char> = Vec::new();
        while c != '\'' && c != '"'
            invariant
                self.wf(),
                self@.lines == lines,
                lines == old(self)@.lines,
                first == stepped(lines, old(self)@.at),
                char_at(lines, self@.at) == Some(c),
                scan_quoted(lines, first) == (scan_quoted(lines, self@.at).0, prefixed(string_contents@, scan_quoted(lines, self@.at).1)),
            decreases lines.len() - self@.at.line, lines[self@.at.line as int].len() - self@.at.ch,
        {
            let ghost before = self@.at;
            proof { lemma_stepped_forward(lines, before); }
            string_contents.push(c);
            c = match self.advance() {
                Some(c) => c,
                None => {
                    assert(prefixed(string_contents@.drop_last(), prefixed(seq![string_contents@.last()], None)) == None::<Seq<char>>);
                    return None;
                },
            };
            proof {
                let r = scan_quoted(lines, self@.at).1;
                if let Some(s) = r {
                    assert(string_contents@.drop_last() + (seq![string_contents@.last()] + s) =~= string_contents@ + s);
                }
            }
        }
        self.consume();
        assert(string_contents@ + Seq::<char>::empty() =~= string_contents@);
        Some(Token::at(TokenType::String(collect_string(&string_contents)), line + 1))
    }

    fn number(&mut self) -> (r: Option<Token>)
        requires
            old(self).wf(),
            char_at(old(self)@.lines, old(self)@.at) is Some,
        ensures
            final(self).wf(),
            final(self)@.lines == old(self)@.lines,
            (final(self)@.at, opt_token(r)) == spec_number(old(self)@.lines, old(self)@.at),
    {
        let ghost lines = self@.lines;
        let ghost start = self@.at;
        let mut c = match self.get_char() {
            Some(c) => c,
            None => {
                return None;
            },
        };
        let mut number_string: Vec<char> = Vec::new();
        while is_digit(c)
            invariant
                self.wf(),
                self@.lines == lines,
                lines == old(self)@.lines,
                start == old(self)@.at,
                char_at(lines, self@.at) == Some(c),
                scan_digits(lines, start) == (scan_digits(lines, self@.at).0, prefixed(number_string@, scan_digits(lines, self@.at).1)),
            decreases lines.len() - self@.at.line, lines[self@.at.line as int].len() - self@.at.ch,
        {
            let ghost before = self@.at;
            proof { lemma_stepped_forward(lines, before); }
            number_string.push(c);
            c = match self.advance() {
                Some(c) => c,
                None => {
                    return None;
                },
            };
            proof {
                let r = scan_digits(lines, self@.at).1;
                if let Some(s) = r {
                    assert(number_string@.drop_last() + (seq![number_string@.last()] + s) =~= number_string@ + s);
                }
            }
        }
        assert(number_string@ + Seq::<char>::empty() =~= number_string@);
        match parse_decimal(&number_string) {
            Some(value) => Some(self.make_token(TokenType::Number(value))),
            None => None,
        }
    }

    fn identifier(&mut self) -> (r: Option<Token>)
        requires
            old(self).wf(),
            char_at(old(self)@.lines, old(self)@.at) is Some,
        ensures
            final(self).wf(),
            final(self)@.lines == old(self)@.lines,
            r is Some,
            (final(self)@.at, opt_token(r)->0) == spec_identifier(old(self)@.lines, old(self)@.at),
    {
        let ghost lines = self@.lines;
        let ghost start = self@.at;
        let c = match self.get_char() {
            Some(c) => c,
            None => {
                return None;
            },
        };
        let line = self.current_line;
        let mut contents: Vec<char> = Vec::new();
        contents.push(c);
        if self.consume_within_line() {
            let ghost tail_start = self@.at;
            while valid_for_ident(self.get_char().unwrap_or('!'))
                invariant
                    self.wf(),
                    self@.lines == lines,
                    contents@.len() >= 1,
                    contents@[0] == c,
                    scan_ident_tail(lines, tail_start) == (scan_ident_tail(lines, self@.at).0, contents@.drop_first() + scan_ident_tail(lines, self@.at).1),
                decreases lines.len() - self@.at.line, lines[self@.at.line as int].len() - self@.at.ch,
            {
                let ch = match self.get_char() {
                    Some(ch) => ch,
                    None => {
                        return None;
                    },
                };
                let ghost before = self@.at;
                proof { lemma_stepped_forward(lines, before); }
                let ghost old_contents = contents@;
                contents.push(ch);
                self.consume_within_line();
                assert(old_contents.drop_first() + (seq![ch] + scan_ident_tail(lines, self@.at).1) =~= contents@.drop_first() + scan_ident_tail(lines, self@.at).1);
            }
            assert(contents@.drop_first() + Seq::<char>::empty() =~= contents@.drop_first());
            assert(contents@ =~= seq![c] + contents@.drop_first());
        } else {
            assert(contents@ =~= seq![c]);
        }
        Some(Token { kind: TokenType::Identifier(collect_string(&contents)), line: line + 1 })
    }
}


/// The keywords are plain ASCII words.
proof fn lemma_keywords_ascii()
    ensures
        "bottom".is_ascii() && "bottom"@.len() > 0,
        "character".is_ascii() && "character"@.len() > 0,
        "choice".is_ascii() && "choice"@.len() > 0,
        "enter".is_ascii() && "enter"@.len() > 0,
        "expr".is_ascii() && "expr"@.len() > 0,
        "goto".is_ascii() && "goto"@.len() > 0,
        "hide".is_ascii() && "hide"@.len() > 0,
        "left".is_ascii() && "left"@.len() > 0,
        "right".is_ascii() && "right"@.len() > 0,
        "show".is_ascii() && "show"@.len() > 0,
        "top".is_ascii() && "top"@.len() > 0,
        "wait".is_ascii() && "wait"@.len() > 0,
{
    reveal_strlit("bottom");
    reveal_strlit("character");
    reveal_strlit("choice");
    reveal_strlit("enter");
    reveal_strlit("expr");
    reveal_strlit("goto");
    reveal_strlit("hide");
    reveal_strlit("left");
    reveal_strlit("right");
    reveal_strlit("show");
    reveal_strlit("top");
    reveal_strlit("wait");
}

/// The text of the error token for an unknown character.
fn unknown_character(c: char) -> (s: String)
    ensures
        s@ == unknown_char_message(c),
{
    let mut text = chars_of("Unknown character `");
    text.push(c);
    text.push('`');
    assert(text@ =~= unknown_char_message(c));
    collect_string(&text)
}

impl DialogTokenizer {
    /// Reads the next token; `None` when the tokenizer stops.
    fn next(&mut self) -> (r: Option<Token>)
        requires
            old(self).wf(),
        ensures
            final(self).wf(),
            final(self)@.lines == old(self)@.lines,
            (final(self)@.at, opt_token(r)) == spec_next(old(self)@.lines, old(self)@.at),
        decreases old(self)@.lines.len() - old(self)@.at.line,
    {
        let ghost lines = self@.lines;
        let ghost start = self@.at;
        proof {
            lemma_skip_ws_forward(lines, start);
            lemma_keywords_ascii();
        }
        let mut c = match self.get_char() {
            Some(c) => c,
            None => {
                return None;
            },
        };
        while is_whitespace(c)
            invariant
                self.wf(),
                self@.lines == lines,
                lines == old(self)@.lines,
                start == old(self)@.at,
                char_at(lines, self@.at) == Some(c),
                skip_ws(lines, start) == skip_ws(lines, self@.at),
            decreases lines.len() - self@.at.line, lines[self@.at.line as int].len() - self@.at.ch,
        {
            let ghost before = self@.at;
            proof { lemma_stepped_forward(lines, before); }
            c = match self.advance() {
                Some(c) => c,
                None => {
                    assert(skip_ws(lines, before) == skip_ws(lines, self@.at));
                    return None;
                },
            };
        }
        assert(skip_ws(lines, self@.at) == self@.at);
        assert(stepped_n(lines, self@.at, 1) == stepped(lines, self@.at)) by {
            reveal_with_fuel(stepped_n, 2);
        }
        match c {
            '/' => {
                if self.peek_ahead(1).unwrap_or('#') == '/' {
                    proof { lemma_next_filled_line(lines, self@.at.line + 1); }
                    self.skip_line();
                    return self.next();
                }
            },
            '{' => return Some(self.consume_as_token(TokenType::LeftBrace, 1)),
            '}' => return Some(self.consume_as_token(TokenType::RightBrace, 1)),
            ':' => return Some(self.consume_as_token(TokenType::Colon, 1)),
            '#' => return Some(self.consume_as_token(TokenType::Tag, 1)),
            '\'' | '"' => return self.string(),
            '-' => return Some(self.consume_as_token(TokenType::Minus, 1)),
            c if is_digit(c) => return self.number(),
            c if is_alpha(c) => {
                match c {
                    'b' => if self.match_all_and_consume("bottom") {
                        return Some(self.make_token(TokenType::Bottom));
                    },
                    'c' => if self.match_all_and_consume("character") {
                        return Some(self.make_token(TokenType::Character));
                    } else if self.match_all_and_consume("choice") {
                        return Some(self.make_token(TokenType::Choice));
                    },
                    'e' => if self.match_all_and_consume("enter") {
                        return Some(self.make_token(TokenType::Enter));
                    } else if self.match_all_and_consume("expr") {
                        return Some(self.make_token(TokenType::Expr));
                    },
                    'g' => if self.match_all_and_consume("goto") {
                        return Some(self.make_token(TokenType::Goto));
                    },
                    'h' => if self.match_all_and_consume("hide") {
                        return Some(self.make_token(TokenType::Hide));
                    },
                    'l' => if self.match_all_and_consume("left") {
                        return Some(self.make_token(TokenType::Left));
                    },
                    'r' => if self.match_all_and_consume("right") {
                        return Some(self.make_token(TokenType::Right));
                    },
                    's' => if self.match_all_and_consume("show") {
                        return Some(self.make_token(TokenType::Show));
                    },
                    't' => if self.match_all_and_consume("top") {
                        return Some(self.make_token(TokenType::Top));
                    },
                    'w' => if self.match_all_and_consume("wait") {
                        return Some(self.make_token(TokenType::Wait));
                    },
                    _ => (),
                }
                return self.identifier();
            },
            _ => return Some(self.make_token(TokenType::Error(unknown_character(c)))),
        };
        None
    }
}


// ---------------------------------------------------------------------------
// Splitting the source into trimmed lines
// ---------------------------------------------------------------------------

/// Unicode's White_Space property, which `char::is_whitespace` and `str::trim` go by.
pub open spec fn spec_is_unicode_whitespace(c: char) -> bool {
    ||| '\u{9}' <= c <= '\u{d}'
    ||| c == ' '
    ||| c == '\u{85}'
    ||| c == '\u{a0}'
    ||| c == '\u{1680}'
    ||| '\u{2000}' <= c <= '\u{200a}'
    ||| c == '\u{2028}'
    ||| c == '\u{2029}'
    ||| c == '\u{202f}'
    ||| c == '\u{205f}'
    ||| c == '\u{3000}'
}

fn is_unicode_whitespace(c: char) -> (b: bool)
    ensures
        b == spec_is_unicode_whitespace(c),
{
    (c >= '\u{9}' && c <= '\u{d}') || c == ' ' || c == '\u{85}' || c == '\u{a0}' || c == '\u{1680}'
        || (c >= '\u{2000}' && c <= '\u{200a}') || c == '\u{2028}' || c == '\u{2029}' || c == '\u{202f}'
        || c == '\u{205f}' || c == '\u{3000}'
}

/// The pieces of `s` between its newlines, as `str::split('\n')` gives them.
pub open spec fn split_lines(s: Seq<char>) -> Seq<Seq<char>>
    decreases s.len(),
{
    if s.len() == 0 {
        seq![Seq::<char>::empty()]
    } else {
        let init = split_lines(s.drop_last());
        if s.last() == '\n' {
            init.push(Seq::<char>::empty())
        } else {
            init.update(init.len() - 1, init.last().push(s.last()))
        }
    }
}

pub open spec fn trim_start(s: Seq<char>) -> Seq<char>
    decreases s.len(),
{
    if s.len() > 0 && spec_is_unicode_whitespace(s[0]) {
        trim_start(s.drop_first())
    } else {
        s
    }
}

pub open spec fn trim_end(s: Seq<char>) -> Seq<char>
    decreases s.len(),
{
    if s.len() > 0 && spec_is_unicode_whitespace(s.last()) {
        trim_end(s.drop_last())
    } else {
        s
    }
}

/// `s` without its leading and trailing whitespace, as `str::trim` gives it.
pub open spec fn trim(s: Seq<char>) -> Seq<char> {
    trim_end(trim_start(s))
}

/// The lines a tokenizer reads from a source text.
pub open spec fn source_lines(source: Seq<char>) -> Seq<Seq<char>> {
    split_lines(source).map_values(|l: Seq<char>| trim(l))
}

pub proof fn lemma_split_lines_len(s: Seq<char>)
    ensures
        1 <= split_lines(s).len() <= s.len() + 1,
    decreases s.len(),
{
    if s.len() > 0 {
        lemma_split_lines_len(s.drop_last());
    }
}

/// The chars of `line` from `start` to `end`, without the leading and trailing whitespace.
fn trimmed(line: &Vec<char>) -> (t: Vec<char>)
    ensures
        t@ == trim(line@),
{
    let n = line.len();
    let mut start: usize = 0;
    assert(line@.subrange(0, n as int) =~= line@);
    while start < n && is_unicode_whitespace(line[start])
        invariant
            start <= n == line@.len(),
            trim_start(line@) == trim_start(line@.subrange(start as int, n as int)),
        decreases n - start,
    {
        assert(line@.subrange(start as int, n as int).drop_first() =~= line@.subrange(start + 1, n as int));
        start += 1;
    }
    assert(trim_start(line@) == line@.subrange(start as int, n as int));
    let mut end: usize = n;
    while end > start && is_unicode_whitespace(line[end - 1])
        invariant
            start <= end <= n == line@.len(),
            trim(line@) == trim_end(line@.subrange(start as int, end as int)),
        decreases end,
    {
        assert(line@.subrange(start as int, end as int).drop_last() =~= line@.subrange(start as int, end - 1));
        end -= 1;
    }
    let mut t: Vec<char> = Vec::new();
    let mut i = start;
    while i < end
        invariant
            start <= i <= end <= n == line@.len(),
            t@ == line@.subrange(start as int, i as int),
        decreases end - i,
    {
        t.push(line[i]);
        i += 1;
    }
    t
}

impl DialogTokenizer {
    /// A tokenizer at the start of `source`, which it reads as lines without their leading
    /// and trailing whitespace.
    pub fn new(source: String) -> (t: Self)
        requires
            source@.len() + 2 <= usize::MAX,
        ensures
            t.wf(),
            t@ == (TokenizerModel { lines: source_lines(source@), at: Cursor { line: 0, ch: 0 } }),
    {
        let chars = chars_of(source.as_str());
        let ghost text = chars@;
        let mut pieces: Vec<Vec<char>> = Vec::new();
        let mut current: Vec<char> = Vec::new();
        let mut i: usize = 0;
        while i < chars.len()
            invariant
                text == chars@,
                text == source@,
                i <= chars@.len(),
                split_lines(text.take(i as int)) =~= lines_model(pieces@).push(current@),
            decreases chars@.len() - i,
        {
            assert(text.take(i + 1).drop_last() =~= text.take(i as int));
            if chars[i] == '\n' {
                let piece = current;
                pieces.push(piece);
                current = Vec::new();
                assert(lines_model(pieces@) =~= lines_model(pieces@.drop_last()).push(pieces@.last()@));
            } else {
                current.push(chars[i]);
            }
            i += 1;
        }
        pieces.push(current);
        assert(text.take(text.len() as int) =~= text);
        assert(split_lines(text) =~= lines_model(pieces@));
        proof { lemma_split_lines_len(text); }
        let mut lines: Vec<Vec<char>> = Vec::new();
        let mut j: usize = 0;
        while j < pieces.len()
            invariant
                j <= pieces@.len(),
                split_lines(text) =~= lines_model(pieces@),
                lines_model(lines@) =~= split_lines(text).take(j as int).map_values(|l: Seq<char>| trim(l)),
            decreases pieces@.len() - j,
        {
            let line = trimmed(&pieces[j]);
            let ghost prev = lines@;
            lines.push(line);
            assert(lines_model(lines@) =~= lines_model(prev).push(trim(pieces@[j as int]@)));
            assert(split_lines(text).take(j + 1).map_values(|l: Seq<char>| trim(l)) =~= split_lines(text).take(
                j as int,
            ).map_values(|l: Seq<char>| trim(l)).push(trim(split_lines(text)[j as int])));
            j += 1;
        }
        assert(split_lines(text).take(pieces@.len() as int) =~= split_lines(text));
        Self { lines, current_line: 0, current_char: 0 }
    }

    /// Reads the whole source: every token up to the point where the tokenizer stops, then an
    /// `End` token.
    pub fn tokenize(self) -> (tokens: Vec<Token>)
        requires
            self.wf(),
            halts(self@),
        ensures
            tokens@.map_values(|t: Token| t@) == spec_tokenize(self@),
    {
        let mut this = self;
        let ghost lines = this@.lines;
        let ghost fuel0 = choose|fuel: nat| #[trigger] spec_run(lines, this@.at, fuel) is Some;
        let ghost total = spec_run(lines, this@.at, fuel0).unwrap();
        let ghost mut fuel = fuel0;
        let mut tokens: Vec<Token> = Vec::new();
        loop
            invariant_except_break
                spec_run(lines, this@.at, fuel) is Some,
                spec_run(lines, this@.at, fuel).unwrap().0 == total.0,
                tokens@.map_values(|t: Token| t@) + spec_run(lines, this@.at, fuel).unwrap().1 == total.1,
            invariant
                this.wf(),
                this@.lines == lines,
            ensures
                this.wf(),
                this@.at == total.0,
                tokens@.map_values(|t: Token| t@) == total.1,
            decreases fuel,
        {
            let ghost before = this@.at;
            let ghost rest = spec_run(lines, before, fuel).unwrap().1;
            match this.next() {
                Some(next) => {
                    let ghost prev = tokens@;
                    let ghost tok = next@;
                    tokens.push(next);
                    proof {
                        let after = spec_run(lines, this@.at, (fuel - 1) as nat).unwrap().1;
                        assert(rest == seq![tok] + after);
                        assert(tokens@.map_values(|t: Token| t@) =~= prev.map_values(|t: Token| t@).push(tok));
                        assert(tokens@.map_values(|t: Token| t@) + after =~= prev.map_values(|t: Token| t@) + rest);
                        fuel = (fuel - 1) as nat;
                    }
                },
                None => {
                    assert(rest =~= Seq::<TokenModel>::empty());
                    assert(tokens@.map_values(|t: Token| t@) + rest =~= tokens@.map_values(|t: Token| t@));
                    break;
                },
            }
        }
        let end = this.make_token(TokenType::End);
        tokens.push(end);
        tokens
    }
}


// ---------------------------------------------------------------------------
// Laws
// ---------------------------------------------------------------------------

proof fn lemma_scan_quoted_line(lines: Seq<Seq<char>>, c: Cursor)
    requires
        c.line <= lines.len(),
    ensures
        c.line <= scan_quoted(lines, c).0.line <= lines.len(),
    decreases lines.len() - c.line, lines[c.line as int].len() - c.ch,
{
    if let Some(x) = char_at(lines, c) {
        lemma_stepped_forward(lines, c);
        if !(x == '\'' || x == '"') {
            lemma_scan_quoted_line(lines, stepped(lines, c));
        }
    }
}

proof fn lemma_scan_digits_line(lines: Seq<Seq<char>>, c: Cursor)
    requires
        c.line <= lines.len(),
    ensures
        c.line <= scan_digits(lines, c).0.line <= lines.len(),
    decreases lines.len() - c.line, lines[c.line as int].len() - c.ch,
{
    if let Some(x) = char_at(lines, c) {
        if spec_is_digit(x) {
            lemma_stepped_forward(lines, c);
            lemma_scan_digits_line(lines, stepped(lines, c));
        }
    }
}

proof fn lemma_scan_ident_tail_line(lines: Seq<Seq<char>>, c: Cursor)
    requires
        c.line <= lines.len(),
    ensures
        c.line <= scan_ident_tail(lines, c).0.line <= lines.len(),
    decreases lines.len() - c.line, lines[c.line as int].len() - c.ch,
{
    if let Some(x) = char_at(lines, c) {
        if spec_valid_for_ident(x) {
            lemma_stepped_forward(lines, c);
            lemma_scan_ident_tail_line(lines, stepped(lines, c));
        }
    }
}

/// One step of the tokenizer never moves back a line, and the token it reads is numbered
/// with a line between the one it started on and the one it stopped on.
pub proof fn lemma_next_lines(lines: Seq<Seq<char>>, c: Cursor)
    requires
        c.line <= lines.len(),
    ensures
        c.line <= spec_next(lines, c).0.line <= lines.len(),
        spec_next(lines, c).1 matches Some(t) ==> c.line + 1 <= t.line <= spec_next(lines, c).0.line + 1,
    decreases lines.len() - c.line,
{
    let w = skip_ws(lines, c);
    lemma_skip_ws_forward(lines, c);
    if let Some(x) = char_at(lines, w) {
        lemma_stepped_forward(lines, w);
        if x == '/' {
            if char_ahead(lines, w, 1) == Some('/') {
                lemma_next_filled_line(lines, w.line + 1);
                lemma_next_lines(lines, line_skipped(lines, w));
            }
        } else if x == '\'' || x == '"' {
            lemma_scan_quoted_line(lines, stepped(lines, w));
        } else if spec_is_digit(x) {
            lemma_scan_digits_line(lines, w);
        } else if spec_is_alpha(x) {
            match keyword_at(lines, w, x) {
                Some((kind, word)) => {
                    assert(matches_at(lines, w, word));
                    if word.len() > 0 {
                        assert(char_ahead(lines, w, (word.len() - 1) as nat) == Some(word[word.len() - 1]));
                    }
                    lemma_stepped_n_line(lines, w, word.len());
                },
                None => {
                    if w.ch + 1 < lines[w.line as int].len() {
                        lemma_scan_ident_tail_line(lines, stepped(lines, w));
                    }
                },
            }
        }
    }
}

/// The tokens read by a run come in the order of their lines, all between the line the run
/// starts on and the one it stops on.
pub proof fn lemma_run_lines(lines: Seq<Seq<char>>, c: Cursor, fuel: nat)
    requires
        c.line <= lines.len(),
        spec_run(lines, c, fuel) is Some,
    ensures
        ({
            let (f, ts) = spec_run(lines, c, fuel).unwrap();
            &&& c.line <= f.line <= lines.len()
            &&& forall|i: int| 0 <= i < ts.len() ==> c.line + 1 <= #[trigger] ts[i].line <= f.line + 1
            &&& forall|i: int, j: int| 0 <= i <= j < ts.len() ==> #[trigger] ts[i].line <= #[trigger] ts[j].line
        }),
    decreases fuel,
{
    lemma_next_lines(lines, c);
    let (e, t) = spec_next(lines, c);
    if let Some(tok) = t {
        lemma_run_lines(lines, e, (fuel - 1) as nat);
        let (f, ts) = spec_run(lines, e, (fuel - 1) as nat).unwrap();
        let all = seq![tok] + ts;
        assert forall|i: int| 0 <= i < all.len() implies c.line + 1 <= #[trigger] all[i].line <= f.line + 1 by {
            if i > 0 {
                assert(all[i] == ts[i - 1]);
            }
        }
        assert forall|i: int, j: int| 0 <= i <= j < all.len() implies #[trigger] all[i].line <= #[trigger] all[j].line by {
            if i > 0 {
                assert(all[i] == ts[i - 1]);
            }
            if j > 0 {
                assert(all[j] == ts[j - 1]);
            }
        }
    }
}

/// Law: tokenizing a source that the tokenizer gets through gives tokens in source order:
/// their line numbers never decrease, none is before the first line, and the last token is
/// `End`.
pub proof fn law_tokens_in_line_order(m: TokenizerModel)
    requires
        m.at.line <= m.lines.len(),
        halts(m),
    ensures
        spec_tokenize(m).len() >= 1,
        spec_tokenize(m).last().kind is End,
        forall|i: int| 0 <= i < spec_tokenize(m).len() ==> #[trigger] spec_tokenize(m)[i].line >= m.at.line + 1,
        forall|i: int, j: int| 0 <= i <= j < spec_tokenize(m).len() ==> #[trigger] spec_tokenize(m)[i].line <= #[trigger] spec_tokenize(m)[j].line,
{
    let fuel = choose|fuel: nat| #[trigger] spec_run(m.lines, m.at, fuel) is Some;
    lemma_run_lines(m.lines, m.at, fuel);
    let (f, ts) = spec_run(m.lines, m.at, fuel).unwrap();
    let all = ts.push(token(TokenKind::End, f.line + 1));
    assert(spec_tokenize(m) == all);
    assert forall|i: int| 0 <= i < all.len() implies #[trigger] all[i].line >= m.at.line + 1 by {
        if i < ts.len() {
            assert(all[i] == ts[i]);
        }
    }
    assert forall|i: int, j: int| 0 <= i <= j < all.len() implies #[trigger] all[i].line <= #[trigger] all[j].line by {
        if i < ts.len() {
            assert(all[i] == ts[i]);
        }
        if j < ts.len() {
            assert(all[j] == ts[j]);
        }
    }
}

// ---------------------------------------------------------------------------
// When the tokenizer stops
// ---------------------------------------------------------------------------

/// A character that the tokenizer can read wherever it stands: whitespace, a letter, a digit,
/// or one of `{ } : # ' " - /`.
pub open spec fn spec_known(c: char) -> bool {
    spec_is_whitespace(c) || c == '{' || c == '}' || c == ':' || c == '#' || c == '\'' || c == '"' || c == '-'
        || c == '/' || spec_is_digit(c) || spec_is_alpha(c)
}

/// Every character of the lines is one the tokenizer can read.
pub open spec fn all_known(lines: Seq<Seq<char>>) -> bool {
    forall|i: int, j: int| 0 <= i < lines.len() && 0 <= j < lines[i].len() ==> spec_known(#[trigger] lines[i][j])
}

/// The number of characters on line `i` and the lines after it.
pub open spec fn chars_from(lines: Seq<Seq<char>>, i: nat) -> nat
    decreases lines.len() - i,
{
    if i < lines.len() {
        lines[i as int].len() + chars_from(lines, i + 1)
    } else {
        0
    }
}

/// The number of characters at and after the cursor.
pub open spec fn remaining(lines: Seq<Seq<char>>, c: Cursor) -> nat {
    if c.line < lines.len() {
        chars_from(lines, c.line + 1) + (if c.ch < lines[c.line as int].len() {
            (lines[c.line as int].len() - c.ch) as nat
        } else {
            0
        })
    } else {
        0
    }
}

proof fn lemma_chars_from_empty_lines(lines: Seq<Seq<char>>, i: nat)
    ensures
        chars_from(lines, i) == chars_from(lines, next_filled_line(lines, i)),
    decreases lines.len() - i,
{
    if i < lines.len() && lines[i as int].len() == 0 {
        lemma_chars_from_empty_lines(lines, i + 1);
    }
}

/// Going to the next line leaves the characters of the lines after the cursor's.
proof fn lemma_line_skipped_remaining(lines: Seq<Seq<char>>, c: Cursor)
    ensures
        remaining(lines, line_skipped(lines, c)) == chars_from(lines, c.line + 1),
        remaining(lines, line_skipped(lines, c)) <= remaining(lines, c),
        char_at(lines, c) is Some ==> remaining(lines, line_skipped(lines, c)) < remaining(lines, c),
{
    let l = next_filled_line(lines, c.line + 1);
    lemma_next_filled_line(lines, c.line + 1);
    lemma_chars_from_empty_lines(lines, c.line + 1);
    if l < lines.len() {
        assert(lines[l as int].len() > 0);
    }
}

/// Moving past a character never adds characters after the cursor, and moving past one that
/// is there takes one away at least.
proof fn lemma_stepped_remaining(lines: Seq<Seq<char>>, c: Cursor)
    ensures
        remaining(lines, stepped(lines, c)) <= remaining(lines, c),
        char_at(lines, c) is Some ==> remaining(lines, stepped(lines, c)) < remaining(lines, c),
{
    if !(c.line < lines.len() && c.ch + 1 < lines[c.line as int].len()) {
        lemma_line_skipped_remaining(lines, c);
    }
}

proof fn lemma_stepped_n_remaining(lines: Seq<Seq<char>>, c: Cursor, n: nat)
    ensures
        remaining(lines, stepped_n(lines, c, n)) <= remaining(lines, c),
        n > 0 && char_at(lines, c) is Some ==> remaining(lines, stepped_n(lines, c, n)) < remaining(lines, c),
    decreases n,
{
    if n > 0 {
        lemma_stepped_remaining(lines, c);
        lemma_stepped_n_remaining(lines, stepped(lines, c), (n - 1) as nat);
    }
}

proof fn lemma_skip_ws_remaining(lines: Seq<Seq<char>>, c: Cursor)
    requires
        c.line <= lines.len(),
    ensures
        remaining(lines, skip_ws(lines, c)) <= remaining(lines, c),
        char_at(lines, skip_ws(lines, c)) matches Some(x) ==> !spec_is_whitespace(x),
    decreases lines.len() - c.line, lines[c.line as int].len() - c.ch,
{
    if let Some(x) = char_at(lines, c) {
        if spec_is_whitespace(x) {
            lemma_stepped_forward(lines, c);
            lemma_stepped_remaining(lines, c);
            lemma_skip_ws_remaining(lines, stepped(lines, c));
        }
    }
}

proof fn lemma_scan_quoted_remaining(lines: Seq<Seq<char>>, c: Cursor)
    requires
        c.line <= lines.len(),
    ensures
        remaining(lines, scan_quoted(lines, c).0) <= remaining(lines, c),
    decreases lines.len() - c.line, lines[c.line as int].len() - c.ch,
{
    if let Some(x) = char_at(lines, c) {
        lemma_stepped_forward(lines, c);
        lemma_stepped_remaining(lines, c);
        if !(x == '\'' || x == '"') {
            lemma_scan_quoted_remaining(lines, stepped(lines, c));
        }
    }
}

proof fn lemma_scan_digits_remaining(lines: Seq<Seq<char>>, c: Cursor)
    requires
        c.line <= lines.len(),
    ensures
        remaining(lines, scan_digits(lines, c).0) <= remaining(lines, c),
        char_at(lines, c) matches Some(x) && spec_is_digit(x) ==> remaining(lines, scan_digits(lines, c).0) < remaining(lines, c),
    decreases lines.len() - c.line, lines[c.line as int].len() - c.ch,
{
    if let Some(x) = char_at(lines, c) {
        if spec_is_digit(x) {
            lemma_stepped_forward(lines, c);
            lemma_stepped_remaining(lines, c);
            lemma_scan_digits_remaining(lines, stepped(lines, c));
        }
    }
}

proof fn lemma_scan_ident_tail_remaining(lines: Seq<Seq<char>>, c: Cursor)
    requires
        c.line <= lines.len(),
    ensures
        remaining(lines, scan_ident_tail(lines, c).0) <= remaining(lines, c),
    decreases lines.len() - c.line, lines[c.line as int].len() - c.ch,
{
    if let Some(x) = char_at(lines, c) {
        if spec_valid_for_ident(x) {
            lemma_stepped_forward(lines, c);
            lemma_stepped_remaining(lines, c);
            lemma_scan_ident_tail_remaining(lines, stepped(lines, c));
        }
    }
}

/// On lines of known characters, every token the tokenizer reads moves it forward.
proof fn lemma_next_progress(lines: Seq<Seq<char>>, c: Cursor)
    requires
        all_known(lines),
        c.line <= lines.len(),
    ensures
        spec_next(lines, c).1 is Some ==> remaining(lines, spec_next(lines, c).0) < remaining(lines, c),
    decreases lines.len() - c.line,
{
    let w = skip_ws(lines, c);
    lemma_skip_ws_forward(lines, c);
    lemma_skip_ws_remaining(lines, c);
    if let Some(x) = char_at(lines, w) {
        assert(spec_known(lines[w.line as int][w.ch as int]));
        lemma_stepped_forward(lines, w);
        lemma_stepped_remaining(lines, w);
        if x == '/' {
            if char_ahead(lines, w, 1) == Some('/') {
                lemma_next_filled_line(lines, w.line + 1);
                lemma_line_skipped_remaining(lines, w);
                lemma_next_progress(lines, line_skipped(lines, w));
            }
        } else if x == '\'' || x == '"' {
            lemma_scan_quoted_remaining(lines, stepped(lines, w));
        } else if spec_is_digit(x) {
            lemma_scan_digits_remaining(lines, w);
        } else if spec_is_alpha(x) {
            match keyword_at(lines, w, x) {
                Some((kind, word)) => {
                    lemma_keywords_ascii();
                    assert(word.len() > 0);
                    lemma_stepped_n_remaining(lines, w, word.len());
                },
                None => {
                    if w.ch + 1 < lines[w.line as int].len() {
                        lemma_scan_ident_tail_remaining(lines, stepped(lines, w));
                    }
                },
            }
        }
    }
}

/// On lines of known characters, a run with as much fuel as there are characters left stops.
proof fn lemma_run_stops(lines: Seq<Seq<char>>, c: Cursor, fuel: nat)
    requires
        all_known(lines),
        c.line <= lines.len(),
        fuel >= remaining(lines, c),
    ensures
        spec_run(lines, c, fuel) is Some,
    decreases fuel,
{
    let (e, t) = spec_next(lines, c);
    if t is Some {
        lemma_next_progress(lines, c);
        lemma_next_lines(lines, c);
        lemma_run_stops(lines, e, (fuel - 1) as nat);
    }
}

/// Law: the tokenizer stops on lines made of characters it knows (it only fails to stop at
/// a character that no token can start with).
pub proof fn law_known_characters_stop(m: TokenizerModel)
    requires
        all_known(m.lines),
        m.at.line <= m.lines.len(),
    ensures
        halts(m),
{
    lemma_run_stops(m.lines, m.at, remaining(m.lines, m.at));
    assert(spec_run(m.lines, m.at, remaining(m.lines, m.at)) is Some);
}

proof fn lemma_split_lines_chars(s: Seq<char>)
    ensures
        forall|i: int, j: int| 0 <= i < split_lines(s).len() && 0 <= j < split_lines(s)[i].len() ==> s.contains(
            #[trigger] split_lines(s)[i][j],
        ),
    decreases s.len(),
{
    if s.len() > 0 {
        let t = s.drop_last();
        lemma_split_lines_chars(t);
        lemma_split_lines_len(t);
        let init = split_lines(t);
        assert forall|i: int, j: int| 0 <= i < split_lines(s).len() && 0 <= j < split_lines(s)[i].len() implies s.contains(
            #[trigger] split_lines(s)[i][j],
        ) by {
            let x = split_lines(s)[i][j];
            if s.last() == '\n' {
                assert(split_lines(s)[i] == init[i]);
                assert(t.contains(init[i][j]));
                let k = choose|k: int| 0 <= k < t.len() && t[k] == init[i][j];
                assert(s[k] == t[k]);
            } else if i < init.len() - 1 {
                assert(split_lines(s)[i] == init[i]);
                assert(t.contains(init[i][j]));
                let k = choose|k: int| 0 <= k < t.len() && t[k] == init[i][j];
                assert(s[k] == t[k]);
            } else {
                assert(split_lines(s)[i] == init.last().push(s.last()));
                if j < init.last().len() {
                    assert(x == init[init.len() - 1][j]);
                    assert(t.contains(init[init.len() - 1][j]));
                    let k = choose|k: int| 0 <= k < t.len() && t[k] == init[init.len() - 1][j];
                    assert(s[k] == t[k]);
                } else {
                    assert(x == s[s.len() - 1]);
                }
            }
        }
    }
}

/// Law: a source made of characters the tokenizer knows gives a tokenizer that stops, so
/// `tokenize` reads all of it.
pub proof fn law_known_source_stops(source: Seq<char>)
    requires
        forall|k: int| 0 <= k < source.len() ==> spec_known(#[trigger] source[k]),
    ensures
        halts(TokenizerModel { lines: source_lines(source), at: Cursor { line: 0, ch: 0 } }),
{
    let lines = source_lines(source);
    let parts = split_lines(source);
    lemma_split_lines_chars(source);
    assert forall|i: int, j: int| 0 <= i < lines.len() && 0 <= j < lines[i].len() implies spec_known(#[trigger] lines[i][j]) by {
        let p = parts[i];
        lemma_trim_start_sub(p);
        let k = choose|k: int| 0 <= k <= p.len() && trim_start(p) == p.skip(k);
        lemma_trim_end_sub(trim_start(p));
        let k2 = choose|k2: int| 0 <= k2 <= trim_start(p).len() && trim_end(trim_start(p)) == trim_start(p).take(k2);
        assert(lines[i][j] == p[k + j]);
        assert(source.contains(parts[i][k + j]));
        let m = choose|m: int| 0 <= m < source.len() && source[m] == parts[i][k + j];
        assert(spec_known(source[m]));
    }
    law_known_characters_stop(TokenizerModel { lines, at: Cursor { line: 0, ch: 0 } });
}

/// `split_lines` never keeps a newline in a line.
pub proof fn lemma_split_lines_no_newline(s: Seq<char>)
    ensures
        forall|i: int, j: int| 0 <= i < split_lines(s).len() && 0 <= j < split_lines(s)[i].len() ==> #[trigger] split_lines(s)[i][j] != '\n',
    decreases s.len(),
{
    if s.len() > 0 {
        lemma_split_lines_no_newline(s.drop_last());
        lemma_split_lines_len(s.drop_last());
    }
}

proof fn lemma_trim_start_sub(s: Seq<char>)
    ensures
        exists|k: int| 0 <= k <= s.len() && trim_start(s) == s.skip(k),
    decreases s.len(),
{
    if s.len() > 0 && spec_is_unicode_whitespace(s[0]) {
        lemma_trim_start_sub(s.drop_first());
        let k = choose|k: int| 0 <= k <= s.drop_first().len() && trim_start(s.drop_first()) == s.drop_first().skip(k);
        assert(s.drop_first().skip(k) =~= s.skip(k + 1));
    } else {
        assert(s.skip(0) =~= s);
    }
}

proof fn lemma_trim_end_sub(s: Seq<char>)
    ensures
        exists|k: int| 0 <= k <= s.len() && trim_end(s) == s.take(k),
    decreases s.len(),
{
    if s.len() > 0 && spec_is_unicode_whitespace(s.last()) {
        lemma_trim_end_sub(s.drop_last());
        let k = choose|k: int| 0 <= k <= s.drop_last().len() && trim_end(s.drop_last()) == s.drop_last().take(k);
        assert(s.drop_last().take(k) =~= s.take(k));
    } else {
        assert(s.take(s.len() as int) =~= s);
    }
}

/// Law: the lines a tokenizer reads hold no newline and begin and end with no whitespace.
pub proof fn law_source_lines_trimmed(source: Seq<char>)
    ensures
        forall|i: int, j: int| 0 <= i < source_lines(source).len() && 0 <= j < source_lines(source)[i].len()
            ==> #[trigger] source_lines(source)[i][j] != '\n',
        forall|i: int| 0 <= i < source_lines(source).len() && source_lines(source)[i].len() > 0 ==> {
            &&& !spec_is_unicode_whitespace(#[trigger] source_lines(source)[i][0])
            &&& !spec_is_unicode_whitespace(source_lines(source)[i].last())
        },
{
    lemma_split_lines_no_newline(source);
    let parts = split_lines(source);
    assert forall|i: int, j: int| 0 <= i < source_lines(source).len() && 0 <= j < source_lines(source)[i].len()
        implies #[trigger] source_lines(source)[i][j] != '\n' by {
        let p = parts[i];
        lemma_trim_start_sub(p);
        let k = choose|k: int| 0 <= k <= p.len() && trim_start(p) == p.skip(k);
        lemma_trim_end_sub(trim_start(p));
        let k2 = choose|k2: int| 0 <= k2 <= trim_start(p).len() && trim_end(trim_start(p)) == trim_start(p).take(k2);
        assert(source_lines(source)[i][j] == p[k + j]);
    }
    assert forall|i: int| 0 <= i < source_lines(source).len() && source_lines(source)[i].len() > 0 implies {
        &&& !spec_is_unicode_whitespace(#[trigger] source_lines(source)[i][0])
        &&& !spec_is_unicode_whitespace(source_lines(source)[i].last())
    } by {
        let p = parts[i];
        lemma_trim_start_first(p);
        lemma_trim_end_last(trim_start(p));
        lemma_trim_end_sub(trim_start(p));
        let k2 = choose|k2: int| 0 <= k2 <= trim_start(p).len() && trim_end(trim_start(p)) == trim_start(p).take(k2);
        assert(source_lines(source)[i][0] == trim_start(p)[0]);
    }
}

proof fn lemma_trim_start_first(s: Seq<char>)
    ensures
        trim_start(s).len() > 0 ==> !spec_is_unicode_whitespace(trim_start(s)[0]),
    decreases s.len(),
{
    if s.len() > 0 && spec_is_unicode_whitespace(s[0]) {
        lemma_trim_start_first(s.drop_first());
    }
}

proof fn lemma_trim_end_last(s: Seq<char>)
    ensures
        trim_end(s).len() > 0 ==> !spec_is_unicode_whitespace(trim_end(s).last()),
    decreases s.len(),
{
    if s.len() > 0 && spec_is_unicode_whitespace(s.last()) {
        lemma_trim_end_last(s.drop_last());
    }
}

/// Lines put back together into one text, with a newline between each two.
pub open spec fn join_lines(lines: Seq<Seq<char>>) -> Seq<char>
    decreases lines.len(),
{
    if lines.len() <= 1 {
        if lines.len() == 0 { Seq::<char>::empty() } else { lines[0] }
    } else {
        join_lines(lines.drop_last()) + seq!['\n'] + lines.last()
    }
}

/// Appending text without a newline extends the last line.
proof fn lemma_split_lines_append_plain(a: Seq<char>, b: Seq<char>)
    requires
        forall|k: int| 0 <= k < b.len() ==> b[k] != '\n',
    ensures
        split_lines(a + b) == split_lines(a).update(
            split_lines(a).len() - 1,
            split_lines(a).last() + b,
        ),
    decreases b.len(),
{
    lemma_split_lines_len(a);
    let sa = split_lines(a);
    if b.len() == 0 {
        assert(a + b =~= a);
        assert(sa.last() + b =~= sa.last());
        assert(sa.update(sa.len() - 1, sa.last() + b) =~= sa);
    } else {
        let b0 = b.drop_last();
        lemma_split_lines_append_plain(a, b0);
        assert((a + b).drop_last() =~= a + b0);
        assert((a + b).last() == b.last());
        let init = split_lines(a + b0);
        assert(init.last() == sa.last() + b0);
        assert(init.last().push(b.last()) =~= sa.last() + b);
        assert(init.update(init.len() - 1, init.last().push(b.last())) =~= sa.update(
            sa.len() - 1,
            sa.last() + b,
        ));
    }
}

/// Splitting joined lines gives the lines back, where no line holds a newline.
proof fn lemma_split_join(lines: Seq<Seq<char>>)
    requires
        lines.len() >= 1,
        forall|i: int, j: int| 0 <= i < lines.len() && 0 <= j < lines[i].len() ==> #[trigger] lines[i][j] != '\n',
    ensures
        split_lines(join_lines(lines)) == lines,
    decreases lines.len(),
{
    let last = lines.last();
    assert forall|k: int| 0 <= k < last.len() implies last[k] != '\n' by {
        assert(lines[lines.len() - 1][k] != '\n');
    }
    if lines.len() == 1 {
        lemma_split_lines_append_plain(Seq::<char>::empty(), last);
        assert(Seq::<char>::empty() + last =~= last);
        assert(seq![Seq::<char>::empty()].update(0, Seq::<char>::empty() + last) =~= lines);
    } else {
        let init = lines.drop_last();
        lemma_split_join(init);
        let joined = join_lines(init) + seq!['\n'];
        assert(joined.drop_last() =~= join_lines(init));
        assert(split_lines(joined) == init.push(Seq::<char>::empty()));
        lemma_split_lines_append_plain(joined, last);
        assert(Seq::<char>::empty() + last =~= last);
        assert(init.push(Seq::<char>::empty()).update(lines.len() - 1, Seq::<char>::empty() + last) =~= lines);
    }
}

/// Trimming a trimmed text changes nothing.
pub proof fn lemma_trim_idempotent(s: Seq<char>)
    ensures
        trim(trim(s)) == trim(s),
{
    let u = trim_start(s);
    let t = trim_end(u);
    lemma_trim_start_first(s);
    lemma_trim_end_last(u);
    lemma_trim_end_sub(u);
    let k = choose|k: int| 0 <= k <= u.len() && t == u.take(k);
    if t.len() > 0 {
        assert(t[0] == u[0]);
    }
    assert(trim_start(t) == t);
    assert(trim_end(t) == t);
}

/// Law: a source `s2` whose lines are those of `s1` with their leading and trailing
/// whitespace removed gives a tokenizer the same lines as `s1`, so `tokenize` reads the same
/// tokens, on the same lines, from both, and stops on both or on neither.
pub proof fn law_trimming_lines_keeps_tokens(s1: Seq<char>, s2: Seq<char>)
    requires
        split_lines(s2) == split_lines(s1).map_values(|l: Seq<char>| trim(l)),
    ensures
        source_lines(s2) == source_lines(s1),
        halts(TokenizerModel { lines: source_lines(s2), at: Cursor { line: 0, ch: 0 } })
            == halts(TokenizerModel { lines: source_lines(s1), at: Cursor { line: 0, ch: 0 } }),
        spec_tokenize(TokenizerModel { lines: source_lines(s2), at: Cursor { line: 0, ch: 0 } })
            == spec_tokenize(TokenizerModel { lines: source_lines(s1), at: Cursor { line: 0, ch: 0 } }),
{
    assert forall|i: int| 0 <= i < split_lines(s1).len() implies #[trigger] trim(trim(split_lines(s1)[i])) == trim(
        split_lines(s1)[i],
    ) by {
        lemma_trim_idempotent(split_lines(s1)[i]);
    }
    assert(source_lines(s2) =~= source_lines(s1));
}

/// Law: trimming each line of a dialog source changes no token. The source made of the
/// trimmed lines, joined by newlines, gives a tokenizer with the same lines, so `tokenize`
/// reads the same tokens, on the same lines, from both.
pub proof fn law_trimmed_lines_read_alike(source: Seq<char>)
    ensures
        source_lines(join_lines(source_lines(source))) == source_lines(source),
        halts(TokenizerModel { lines: source_lines(join_lines(source_lines(source))), at: Cursor { line: 0, ch: 0 } })
            == halts(TokenizerModel { lines: source_lines(source), at: Cursor { line: 0, ch: 0 } }),
        spec_tokenize(TokenizerModel { lines: source_lines(join_lines(source_lines(source))), at: Cursor { line: 0, ch: 0 } })
            == spec_tokenize(TokenizerModel { lines: source_lines(source), at: Cursor { line: 0, ch: 0 } }),
{
    let lines = source_lines(source);
    lemma_split_lines_len(source);
    law_source_lines_trimmed(source);
    lemma_split_join(lines);
    assert forall|i: int| 0 <= i < lines.len() implies #[trigger] trim(lines[i]) == lines[i] by {
        lemma_trim_idempotent(split_lines(source)[i]);
    }
    assert(split_lines(join_lines(lines)).map_values(|l: Seq<char>| trim(l)) =~= lines);
}

/// The tokenizer reports, without moving, a character it does not know at `c`; it will do
/// so again and again.
pub open spec fn stuck_at(lines: Seq<Seq<char>>, c: Cursor) -> bool {
    spec_next(lines, c).1 is Some && spec_next(lines, c).0 == c
}

/// Reading a token leaves fewer characters, except where the token reports a character the
/// tokenizer does not know: there it stops at that character and reports it again from there.
proof fn lemma_next_moves_or_sticks(lines: Seq<Seq<char>>, c: Cursor)
    requires
        c.line <= lines.len(),
    ensures
        spec_next(lines, c).1 is Some ==> remaining(lines, spec_next(lines, c).0) < remaining(lines, c) || (
        remaining(lines, spec_next(lines, c).0) <= remaining(lines, c) && spec_next(lines, spec_next(lines, c).0)
            == spec_next(lines, c)),
    decreases lines.len() - c.line,
{
    let w = skip_ws(lines, c);
    lemma_skip_ws_forward(lines, c);
    lemma_skip_ws_remaining(lines, c);
    if let Some(x) = char_at(lines, w) {
        lemma_stepped_forward(lines, w);
        lemma_stepped_remaining(lines, w);
        if x == '/' {
            if char_ahead(lines, w, 1) == Some('/') {
                lemma_next_filled_line(lines, w.line + 1);
                lemma_line_skipped_remaining(lines, w);
                lemma_next_moves_or_sticks(lines, line_skipped(lines, w));
            }
        } else if x == '{' || x == '}' || x == ':' || x == '#' || x == '-' {
        } else if x == '\'' || x == '"' {
            lemma_scan_quoted_remaining(lines, stepped(lines, w));
        } else if spec_is_digit(x) {
            lemma_scan_digits_remaining(lines, w);
        } else if spec_is_alpha(x) {
            match keyword_at(lines, w, x) {
                Some((kind, word)) => {
                    lemma_keywords_ascii();
                    assert(word.len() > 0);
                    lemma_stepped_n_remaining(lines, w, word.len());
                },
                None => {
                    if w.ch + 1 < lines[w.line as int].len() {
                        lemma_scan_ident_tail_remaining(lines, stepped(lines, w));
                    }
                },
            }
        } else {
            assert(skip_ws(lines, w) == w);
        }
    }
}

/// From a point where it is stuck, the tokenizer never stops.
proof fn lemma_run_stuck(lines: Seq<Seq<char>>, c: Cursor, fuel: nat)
    requires
        stuck_at(lines, c),
    ensures
        spec_run(lines, c, fuel) is None,
    decreases fuel,
{
    if fuel > 0 {
        lemma_run_stuck(lines, c, (fuel - 1) as nat);
    }
}

/// A run that stops within some fuel stops the same way with more.
proof fn lemma_run_more_fuel(lines: Seq<Seq<char>>, c: Cursor, f: nat, g: nat)
    requires
        spec_run(lines, c, f) is Some,
        f <= g,
    ensures
        spec_run(lines, c, g) == spec_run(lines, c, f),
    decreases f,
{
    let (e, t) = spec_next(lines, c);
    if t is Some {
        lemma_run_more_fuel(lines, e, (f - 1) as nat, (g - 1) as nat);
    }
}

/// The run `r` after the tokens `toks`.
pub open spec fn after_tokens(toks: Seq<TokenModel>, r: Option<(Cursor, Seq<TokenModel>)>) -> Option<(Cursor, Seq<TokenModel>)> {
    match r {
        Some((f, ts)) => Some((f, toks + ts)),
        None => None,
    }
}

/// What a run can still take from `c`: twice the characters left, and one more where the
/// tokenizer is not stuck there.
pub open spec fn run_measure(lines: Seq<Seq<char>>, c: Cursor) -> nat {
    2 * remaining(lines, c) + if stuck_at(lines, c) { 0nat } else { 1nat }
}

impl DialogTokenizer {
    /// Reads the whole source where the tokenizer stops on it; none where it would report a
    /// character it does not know forever.
    pub fn try_tokenize(self) -> (tokens: Option<Vec<Token>>)
        requires
            self.wf(),
        ensures
            tokens is Some <==> halts(self@),
            tokens matches Some(t) ==> t@.map_values(|t: Token| t@) == spec_tokenize(self@),
    {
        let ghost start = self@;
        let ghost lines = start.lines;
        let mut this = self;
        let mut tokens: Vec<Token> = Vec::new();
        proof {
            assert forall|fuel: nat| #[trigger] spec_run(lines, this@.at, fuel) == spec_run(lines, this@.at, fuel) implies spec_run(
                lines,
                start.at,
                fuel + tokens@.len(),
            ) == after_tokens(tokens@.map_values(|t: Token| t@), spec_run(lines, this@.at, fuel)) by {
                match spec_run(lines, this@.at, fuel) {
                    Some((f, ts)) => {
                        assert(tokens@.map_values(|t: Token| t@) + ts =~= ts);
                    },
                    None => {},
                }
            }
        }
        loop
            invariant
                this.wf(),
                this@.lines == lines,
                start == self@,
                start.lines == lines,
                start.at.line <= lines.len(),
                forall|fuel: nat| #[trigger]
                    spec_run(lines, start.at, fuel + tokens@.len()) == after_tokens(
                        tokens@.map_values(|t: Token| t@),
                        spec_run(lines, this@.at, fuel),
                    ),
            decreases run_measure(lines, this@.at),
        {
            let before_line = this.current_line;
            let before_char = this.current_char;
            let ghost a = this@.at;
            let ghost n = tokens@.len();
            let ghost toks = tokens@.map_values(|t: Token| t@);
            proof {
                lemma_next_moves_or_sticks(lines, a);
            }
            match this.next() {
                None => {
                    let end = this.make_token(TokenType::End);
                    tokens.push(end);
                    proof {
                        assert(spec_run(lines, start.at, 0 + n) == after_tokens(toks, spec_run(lines, a, 0)));
                        assert(spec_run(lines, start.at, n) == Some((this@.at, toks)));
                        assert(halts(start));
                        let f0 = choose|fuel: nat| #[trigger] spec_run(lines, start.at, fuel) is Some;
                        if f0 <= n {
                            lemma_run_more_fuel(lines, start.at, f0, n);
                        } else {
                            lemma_run_more_fuel(lines, start.at, n, f0);
                        }
                        assert(tokens@.map_values(|t: Token| t@) =~= toks.push(token(TokenKind::End, this@.at.line + 1)));
                    }
                    return Some(tokens);
                },
                Some(t) => {
                    if this.current_line == before_line && this.current_char == before_char {
                        proof {
                            assert(stuck_at(lines, a));
                            assert forall|f: nat| !(#[trigger] spec_run(lines, start.at, f) is Some) by {
                                lemma_run_stuck(lines, a, f);
                                assert(spec_run(lines, start.at, f + n) == after_tokens(toks, spec_run(lines, a, f)));
                                if spec_run(lines, start.at, f) is Some {
                                    lemma_run_more_fuel(lines, start.at, f, f + n);
                                }
                            }
                        }
                        return None;
                    }
                    let ghost tok = t@;
                    let ghost e = this@.at;
                    tokens.push(t);
                    proof {
                        lemma_next_lines(lines, a);
                        assert(tokens@.map_values(|t: Token| t@) =~= toks.push(tok));
                        assert forall|fuel: nat| #[trigger]
                            spec_run(lines, start.at, fuel + tokens@.len()) == after_tokens(
                                tokens@.map_values(|t: Token| t@),
                                spec_run(lines, e, fuel),
                            ) by {
                            assert(spec_run(lines, start.at, (fuel + 1) + n) == after_tokens(toks, spec_run(lines, a, fuel + 1)));
                            assert((fuel + 1) + n == fuel + tokens@.len());
                            match spec_run(lines, e, fuel) {
                                Some((f, ts)) => {
                                    assert(toks + (seq![tok] + ts) =~= toks.push(tok) + ts);
                                },
                                None => {},
                            }
                        }
                        assert(!stuck_at(lines, a));
                    }
                },
            }
        }
    }
}

/// A character an identifier may hold: an ASCII letter or `_`.
pub open spec fn word_char(c: char) -> bool {
    ('A' <= c && c <= 'Z') || ('a' <= c && c <= 'z') || c == '_'
}

proof fn lemma_ident_tail_words(lines: Seq<Seq<char>>, c: Cursor)
    ensures
        forall|i: int| 0 <= i < scan_ident_tail(lines, c).1.len() ==> word_char(#[trigger] scan_ident_tail(lines, c).1[i]),
    decreases lines.len() - c.line, lines[c.line as int].len() - c.ch,
{
    if let Some(x) = char_at(lines, c) {
        if spec_valid_for_ident(x) {
            lemma_stepped_forward(lines, c);
            let (e, t) = scan_ident_tail(lines, stepped(lines, c));
            lemma_ident_tail_words(lines, stepped(lines, c));
            assert forall|i: int| 0 <= i < (seq![x] + t).len() implies word_char(#[trigger] (seq![x] + t)[i]) by {
                if i > 0 {
                    assert((seq![x] + t)[i] == t[i - 1]);
                }
            }
        }
    }
}

/// A token that is no identifier, or an identifier made of ASCII letters and `_` only.
pub open spec fn word_token(t: TokenModel) -> bool {
    match t.kind {
        TokenKind::Identifier(s) => s.len() > 0 && forall|i: int| 0 <= i < s.len() ==> word_char(#[trigger] s[i]),
        _ => true,
    }
}

/// Law: the text of an identifier token is made of ASCII letters and `_` only, and is not
/// empty: a digit or any other character ends an identifier.
pub proof fn law_identifiers_are_words(lines: Seq<Seq<char>>, c: Cursor)
    requires
        c.line <= lines.len(),
    ensures
        spec_next(lines, c).1 matches Some(t) ==> word_token(t),
    decreases lines.len() - c.line,
{
    let w = skip_ws(lines, c);
    lemma_skip_ws_forward(lines, c);
    if let Some(x) = char_at(lines, w) {
        if x == '/' {
            if char_ahead(lines, w, 1) == Some('/') {
                lemma_next_filled_line(lines, w.line + 1);
                law_identifiers_are_words(lines, line_skipped(lines, w));
            }
        } else if x == '{' || x == '}' || x == ':' || x == '#' || x == '\'' || x == '"' || x == '-' || spec_is_digit(x) {
        } else if spec_is_alpha(x) {
            if keyword_at(lines, w, x) is None {
                if w.ch + 1 < lines[w.line as int].len() {
                    lemma_stepped_forward(lines, w);
                    lemma_ident_tail_words(lines, stepped(lines, w));
                    let t = scan_ident_tail(lines, stepped(lines, w)).1;
                    assert forall|i: int| 0 <= i < (seq![x] + t).len() implies word_char(#[trigger] (seq![x] + t)[i]) by {
                        if i > 0 {
                            assert((seq![x] + t)[i] == t[i - 1]);
                        }
                    }
                }
            }
        }
    }
}

proof fn lemma_run_identifiers(lines: Seq<Seq<char>>, c: Cursor, fuel: nat)
    requires
        c.line <= lines.len(),
        spec_run(lines, c, fuel) is Some,
    ensures
        forall|k: int| 0 <= k < spec_run(lines, c, fuel).unwrap().1.len() ==> word_token(
            #[trigger] spec_run(lines, c, fuel).unwrap().1[k],
        ),
    decreases fuel,
{
    let (e, t) = spec_next(lines, c);
    law_identifiers_are_words(lines, c);
    if t is Some {
        lemma_next_lines(lines, c);
        lemma_run_identifiers(lines, e, (fuel - 1) as nat);
        let ts = spec_run(lines, c, fuel).unwrap().1;
        let rest = spec_run(lines, e, (fuel - 1) as nat).unwrap().1;
        assert forall|k: int| 0 <= k < ts.len() implies word_token(#[trigger] ts[k]) by {
            if k > 0 {
                assert(ts[k] == rest[k - 1]);
            }
        }
    }
}

/// Law: every identifier token that tokenizing reads is made of ASCII letters and `_` only.
pub proof fn law_tokenized_identifiers_are_words(m: TokenizerModel)
    requires
        halts(m),
        m.at.line <= m.lines.len(),
    ensures
        forall|k: int| 0 <= k < spec_tokenize(m).len() ==> word_token(#[trigger] spec_tokenize(m)[k]),
{
    let fuel = choose|fuel: nat| #[trigger] spec_run(m.lines, m.at, fuel) is Some;
    lemma_run_identifiers(m.lines, m.at, fuel);
    let ts = spec_run(m.lines, m.at, fuel).unwrap().1;
    assert forall|k: int| 0 <= k < spec_tokenize(m).len() implies word_token(#[trigger] spec_tokenize(m)[k]) by {
        if k < ts.len() {
            assert(spec_tokenize(m)[k] == ts[k]);
        }
    }
}

/// How a keyword is spelled in a script.
pub open spec fn spelling(kind: TokenKind) -> Seq<char> {
    match kind {
        TokenKind::Bottom => "bottom"@,
        TokenKind::Character => "character"@,
        TokenKind::Choice => "choice"@,
        TokenKind::Enter => "enter"@,
        TokenKind::Expr => "expr"@,
        TokenKind::Goto => "goto"@,
        TokenKind::Hide => "hide"@,
        TokenKind::Left => "left"@,
        TokenKind::Right => "right"@,
        TokenKind::Show => "show"@,
        TokenKind::Top => "top"@,
        TokenKind::Wait => "wait"@,
        _ => Seq::empty(),
    }
}

/// Law: a keyword is read only where its own spelling stands at the cursor: the kind read is
/// the one spelled by the characters that follow.
pub proof fn law_keywords_spelled(lines: Seq<Seq<char>>, c: Cursor, x: char)
    ensures
        keyword_at(lines, c, x) matches Some((kind, word)) ==> word == spelling(kind) && matches_at(lines, c, spelling(kind)),
{
}

/// A token whose text holds no quote, where it is a text, and whose value is not negative,
/// where it is a number.
pub open spec fn plain_contents(t: TokenModel) -> bool {
    match t.kind {
        TokenKind::Text(s) => forall|i: int| 0 <= i < s.len() ==> #[trigger] s[i] != '\'' && s[i] != '"',
        TokenKind::Number(v) => v >= 0,
        _ => true,
    }
}

proof fn lemma_quoted_has_no_quotes(lines: Seq<Seq<char>>, c: Cursor)
    ensures
        scan_quoted(lines, c).1 matches Some(s) ==> forall|i: int| 0 <= i < s.len() ==> #[trigger] s[i] != '\'' && s[i] != '"',
    decreases lines.len() - c.line, lines[c.line as int].len() - c.ch,
{
    if let Some(x) = char_at(lines, c) {
        if !(x == '\'' || x == '"') {
            lemma_stepped_forward(lines, c);
            lemma_quoted_has_no_quotes(lines, stepped(lines, c));
            if let Some(t) = scan_quoted(lines, stepped(lines, c)).1 {
                assert forall|i: int| 0 <= i < (seq![x] + t).len() implies #[trigger] (seq![x] + t)[i] != '\'' && (seq![x]
                    + t)[i] != '"' by {
                    if i > 0 {
                        assert((seq![x] + t)[i] == t[i - 1]);
                    }
                }
            }
        }
    }
}

proof fn lemma_digits_all_digits(lines: Seq<Seq<char>>, c: Cursor)
    ensures
        scan_digits(lines, c).1 matches Some(s) ==> all_digits(s),
    decreases lines.len() - c.line, lines[c.line as int].len() - c.ch,
{
    if let Some(x) = char_at(lines, c) {
        if spec_is_digit(x) {
            lemma_stepped_forward(lines, c);
            lemma_digits_all_digits(lines, stepped(lines, c));
            if let Some(t) = scan_digits(lines, stepped(lines, c)).1 {
                assert forall|i: int| 0 <= i < (seq![x] + t).len() implies spec_is_digit(#[trigger] (seq![x] + t)[i]) by {
                    if i > 0 {
                        assert((seq![x] + t)[i] == t[i - 1]);
                    }
                }
            }
        }
    }
}

/// Law: a text token holds the characters between its quotes, none of them a quote; a number
/// token is never negative (a minus sign is a token of its own).
pub proof fn law_texts_and_numbers(lines: Seq<Seq<char>>, c: Cursor)
    requires
        c.line <= lines.len(),
    ensures
        spec_next(lines, c).1 matches Some(t) ==> plain_contents(t),
    decreases lines.len() - c.line,
{
    let w = skip_ws(lines, c);
    lemma_skip_ws_forward(lines, c);
    if let Some(x) = char_at(lines, w) {
        if x == '/' {
            if char_ahead(lines, w, 1) == Some('/') {
                lemma_next_filled_line(lines, w.line + 1);
                law_texts_and_numbers(lines, line_skipped(lines, w));
            }
        } else if x == '\'' || x == '"' {
            lemma_quoted_has_no_quotes(lines, stepped(lines, w));
        } else if spec_is_digit(x) {
            lemma_digits_all_digits(lines, w);
            if let Some(ds) = scan_digits(lines, w).1 {
                if all_digits(ds) {
                    lemma_digits_value_nonneg(ds);
                }
            }
        }
    }
}

} // verus!
