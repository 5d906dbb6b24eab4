//! The lexical scanner: raw text in, a flat token sequence out.
//!
//! Scanning never aborts: a malformed string or number literal is reported
//! to the scanner's error handler, the offending token is dropped, and
//! scanning continues with the next character. Statement boundaries are
//! inferred from newlines: a newline outside brackets ends a statement
//! exactly when the last token emitted could end one, so a line ending in a
//! binary operator continues onto the next line. The output always ends
//! with exactly one synthetic `StatementEnd` and then exactly one `EOF`.

use vstd::prelude::*;
use vstd::string::*;
use crate::error::{Diag, ErrorHandler};
use crate::token::{Token, TokenModel, TokenType};
use crate::value::{Val, Value};

verus! {

/// A decimal digit.
pub open spec fn is_digit(c: char) -> bool {
    48 <= c as u32 <= 57
}

/// An ASCII letter or digit.
pub open spec fn is_alnum(c: char) -> bool {
    is_digit(c) || (65 <= c as u32 <= 90) || (97 <= c as u32 <= 122)
}

/// The value of one decimal digit run, most significant digit first.
pub open spec fn dec_value(s: Seq<char>) -> int
    decreases s.len(),
{
    if s.len() == 0 {
        0
    } else {
        10 * dec_value(s.drop_last()) + (s.last() as u32 - 48)
    }
}

/// Where the run of digits beginning at `i` ends: the first position at or
/// after `i` holding no digit.
pub open spec fn digit_run_end(s: Seq<char>, i: int) -> int
    decreases s.len() - i
        when 0 <= i <= s.len()
{
    if i >= s.len() {
        i
    } else if !is_digit(s[i]) {
        i
    } else {
        digit_run_end(s, i + 1)
    }
}

/// A maximal digit run pins down where the run ends.
proof fn lemma_digit_run_end_at(s: Seq<char>, i: int, e: int)
    requires
        0 <= i <= e <= s.len(),
        forall|j: int| i <= j < e ==> is_digit(#[trigger] s[j]),
        e == s.len() || !is_digit(s[e]),
    ensures
        digit_run_end(s, i) == e,
    decreases e - i,
{
    if i < e {
        lemma_digit_run_end_at(s, i + 1, e);
    }
}

/// The token kinds that may end a statement: a newline after one of these
/// is a statement boundary.
pub open spec fn can_end_statement(t: TokenType) -> bool {
    ||| t == TokenType::BraceClose
    ||| t == TokenType::ParenClose
    ||| t == TokenType::SquareClose
    ||| t == TokenType::True
    ||| t == TokenType::False
    ||| t == TokenType::Number
    ||| t == TokenType::String
    ||| t == TokenType::NoneKw
    ||| t == TokenType::End
    ||| t == TokenType::Identifier
}

/// The keyword table: what token kind an identifier's text denotes.
pub open spec fn spec_keyword(s: Seq<char>) -> TokenType {
    if s == "and"@ {
        TokenType::And
    } else if s == "class"@ {
        TokenType::Class
    } else if s == "else"@ {
        TokenType::Else
    } else if s == "false"@ {
        TokenType::False
    } else if s == "true"@ {
        TokenType::True
    } else if s == "for"@ {
        TokenType::For
    } else if s == "if"@ {
        TokenType::If
    } else if s == "none"@ {
        TokenType::NoneKw
    } else if s == "or"@ {
        TokenType::Or
    } else if s == "is"@ {
        TokenType::Is
    } else if s == "not"@ {
        TokenType::Not
    } else if s == "return"@ {
        TokenType::Return
    } else if s == "super"@ {
        TokenType::Super
    } else if s == "this"@ {
        TokenType::This
    } else if s == "offering"@ {
        TokenType::Offering
    } else if s == "ritual"@ {
        TokenType::Ritual
    } else if s == "end"@ {
        TokenType::End
    } else if s == "while"@ {
        TokenType::While
    } else {
        TokenType::Identifier
    }
}

/// The shape every token stream under construction keeps: no `EOF` yet, and
/// a `StatementEnd` never first and never right after another one.
pub open spec fn toks_wf(ts: Seq<Token>) -> bool {
    forall|i: int|
        0 <= i < ts.len() ==> ((#[trigger] ts[i].token_type) != TokenType::EOF && (ts[i].token_type
            == TokenType::StatementEnd ==> i > 0 && ts[i - 1].token_type
            != TokenType::StatementEnd))
}

/// The models of a token sequence, in order.
pub open spec fn toks_model(ts: Seq<Token>) -> Seq<TokenModel> {
    ts.map_values(|t: Token| t@)
}

/// Where the run of identifier characters beginning at `i` ends.
pub open spec fn ident_run_end(s: Seq<char>, i: int) -> int
    decreases s.len() - i,
{
    if !(0 <= i < s.len()) {
        i
    } else if !(s[i] == '_' || is_alnum(s[i])) {
        i
    } else {
        ident_run_end(s, i + 1)
    }
}

/// Where a line comment beginning at `i` ends: the next newline, or the end
/// of the input.
pub open spec fn line_comment_end(s: Seq<char>, i: int) -> int
    decreases s.len() - i,
{
    if !(0 <= i < s.len()) {
        i
    } else if s[i] == '\n' {
        i
    } else {
        line_comment_end(s, i + 1)
    }
}

/// Where the body of a string literal beginning at `i` ends: the closing
/// quote, or the end of the input.
pub open spec fn string_body_end(s: Seq<char>, i: int) -> int
    decreases s.len() - i,
{
    if !(0 <= i < s.len()) {
        i
    } else if s[i] == '"' {
        i
    } else {
        string_body_end(s, i + 1)
    }
}

/// How many newlines a slice holds.
pub open spec fn newlines_in(s: Seq<char>) -> nat
    decreases s.len(),
{
    if s.len() == 0 {
        0
    } else {
        newlines_in(s.drop_last()) + if s.last() == '\n' {
            1
        } else {
            0nat
        }
    }
}

/// The scanner's abstract state: the slice bracketed by the cursor pair,
/// the line counter, the bracket flag, and everything emitted so far.
pub struct ScanState {
    pub start: int,
    pub current: int,
    pub line: nat,
    pub ignore_newline: bool,
    pub tokens: Seq<TokenModel>,
    pub diags: Seq<Diag>,
}

/// A token without a literal value, spanning `[st.start, end)`.
pub open spec fn plain_token(s: Seq<char>, st: ScanState, t: TokenType, end: int) -> TokenModel {
    TokenModel { token_type: t, lexeme: s.subrange(st.start, end), literal: Val::Null, line: st.line }
}

/// Emit a token without a literal value and move the cursor to `end`.
pub open spec fn emit(s: Seq<char>, st: ScanState, t: TokenType, end: int) -> ScanState {
    ScanState { current: end, tokens: st.tokens.push(plain_token(s, st, t, end)), ..st }
}

/// Scan a string literal whose opening quote sits at `st.start`: everything
/// to the closing quote becomes the literal text, with no escape
/// processing; an unterminated literal is reported and dropped.
pub open spec fn scan_string(s: Seq<char>, st: ScanState) -> ScanState {
    let close = string_body_end(s, st.current);
    let line = (st.line + newlines_in(s.subrange(st.current, close))) as nat;
    if close >= s.len() {
        ScanState {
            current: close,
            line,
            diags: st.diags.push(Diag { line, message: "Unterminated string."@ }),
            ..st
        }
    } else {
        ScanState {
            current: close + 1,
            line,
            tokens: st.tokens.push(
                TokenModel {
                    token_type: TokenType::String,
                    lexeme: s.subrange(st.start, close + 1),
                    literal: Val::Str(s.subrange(st.start + 1, close)),
                    line,
                },
            ),
            ..st
        }
    }
}

/// Scan a number literal whose first digit sits at `st.start`: the digit
/// run, and a fractional run after a dot when one follows. The literal is
/// kept exactly when its value fits the number type and every fractional
/// digit is zero; otherwise it is reported and dropped.
pub open spec fn scan_number(s: Seq<char>, st: ScanState) -> ScanState {
    let int_end = digit_run_end(s, st.current);
    let has_frac = int_end + 1 < s.len() && s[int_end] == '.' && is_digit(s[int_end + 1]);
    let end = if has_frac {
        digit_run_end(s, int_end + 1)
    } else {
        int_end
    };
    let value = dec_value(s.subrange(st.start, int_end));
    let frac_zero = forall|j: int| int_end + 1 <= j < end ==> s[j] == '0';
    if value > i64::MAX || (has_frac && !frac_zero) {
        ScanState {
            current: end,
            diags: st.diags.push(Diag { line: st.line, message: "Could not parse number!"@ }),
            ..st
        }
    } else {
        ScanState {
            current: end,
            tokens: st.tokens.push(
                TokenModel {
                    token_type: TokenType::Number,
                    lexeme: s.subrange(st.start, end),
                    literal: Val::Num(value as i64),
                    line: st.line,
                },
            ),
            ..st
        }
    }
}

/// Scan an identifier or keyword whose first character sits at `st.start`.
pub open spec fn scan_identifier(s: Seq<char>, st: ScanState) -> ScanState {
    let end = ident_run_end(s, st.current);
    ScanState {
        current: end,
        tokens: st.tokens.push(
            TokenModel {
                token_type: spec_keyword(s.subrange(st.start, end)),
                lexeme: s.subrange(st.start, end),
                literal: Val::Null,
                line: st.line,
            },
        ),
        ..st
    }
}

/// Whether the character under the scan cursor is `c`, mirroring the
/// single-character lookahead.
pub open spec fn next_is(s: Seq<char>, i: int, c: char) -> bool {
    0 <= i < s.len() && s[i] == c
}

/// Scan one token beginning at `st.start` (`st.start == st.current`, within
/// the input): the newline-sensitive statement-boundary rule, bracket
/// tracking, one- and two-character punctuation, comments, and the three
/// literal forms.
/// Skip a line comment: everything to the next newline contributes no
/// token.
pub open spec fn scan_comment(s: Seq<char>, st: ScanState) -> ScanState {
    ScanState { current: line_comment_end(s, st.start + 1), ..st }
}

/// Consume a newline: the line counter advances, and a statement boundary
/// is emitted exactly when newlines are not suppressed by an open bracket
/// and the last token emitted could end a statement.
pub open spec fn scan_newline(s: Seq<char>, st: ScanState) -> ScanState {
    let st2 = ScanState { current: st.start + 1, line: (st.line + 1) as nat, ..st };
    if !st2.ignore_newline && st2.tokens.len() > 0 && can_end_statement(
        st2.tokens.last().token_type,
    ) {
        ScanState {
            tokens: st2.tokens.push(
                plain_token(
                    s,
                    ScanState { line: st2.line, ..st },
                    TokenType::StatementEnd,
                    st.start + 1,
                ),
            ),
            ..st2
        }
    } else {
        st2
    }
}

pub open spec fn scan_token(s: Seq<char>, st: ScanState) -> ScanState {
    let c = s[st.start];
    let st1 = ScanState { current: st.start + 1, ..st };
    if c == '?' {
        scan_comment(s, st)
    } else if c == ' ' || c == '\r' || c == '\t' {
        st1
    } else if c == '\n' {
        scan_newline(s, st)
    } else if c == '(' {
        ScanState { ignore_newline: true, ..emit(s, st, TokenType::ParenOpen, st.start + 1) }
    } else if c == ')' {
        ScanState { ignore_newline: false, ..emit(s, st, TokenType::ParenClose, st.start + 1) }
    } else if c == '[' {
        ScanState { ignore_newline: true, ..emit(s, st, TokenType::SquareOpen, st.start + 1) }
    } else if c == ']' {
        ScanState { ignore_newline: false, ..emit(s, st, TokenType::SquareClose, st.start + 1) }
    } else if c == '{' {
        emit(s, st, TokenType::BraceOpen, st.start + 1)
    } else if c == '}' {
        emit(s, st, TokenType::BraceClose, st.start + 1)
    } else if c == ',' {
        emit(s, st, TokenType::Comma, st.start + 1)
    } else if c == '.' {
        emit(s, st, TokenType::Dot, st.start + 1)
    } else if c == '-' {
        if next_is(s, st.start + 1, '-') {
            emit(s, st, TokenType::MinusMinus, st.start + 2)
        } else if next_is(s, st.start + 1, '=') {
            emit(s, st, TokenType::MinusEqual, st.start + 2)
        } else {
            emit(s, st, TokenType::Minus, st.start + 1)
        }
    } else if c == '+' {
        if next_is(s, st.start + 1, '+') {
            emit(s, st, TokenType::PlusPlus, st.start + 2)
        } else if next_is(s, st.start + 1, '=') {
            emit(s, st, TokenType::PlusEqual, st.start + 2)
        } else {
            emit(s, st, TokenType::Plus, st.start + 1)
        }
    } else if c == '*' {
        emit(s, st, TokenType::Multiply, st.start + 1)
    } else if c == '/' {
        emit(s, st, TokenType::Divide, st.start + 1)
    } else if c == '=' {
        emit(s, st, TokenType::Equal, st.start + 1)
    } else if c == '$' {
        if next_is(s, st.start + 1, '>') {
            emit(s, st, TokenType::DollarGreater, st.start + 2)
        } else if next_is(s, st.start + 1, '<') {
            emit(s, st, TokenType::DollarLess, st.start + 2)
        } else {
            st1
        }
    } else if c == '<' {
        if next_is(s, st.start + 1, '=') {
            emit(s, st, TokenType::LessEqual, st.start + 2)
        } else {
            emit(s, st, TokenType::Less, st.start + 1)
        }
    } else if c == '>' {
        if next_is(s, st.start + 1, '=') {
            emit(s, st, TokenType::GreaterEqual, st.start + 2)
        } else {
            emit(s, st, TokenType::Greater, st.start + 1)
        }
    } else if c == '"' {
        scan_string(s, st1)
    } else if is_digit(c) {
        scan_number(s, st1)
    } else if (65 <= c as u32 && c as u32 <= 90) || (97 <= c as u32 && c as u32 <= 122) {
        scan_identifier(s, st1)
    } else {
        st1
    }
}

/// Scan the whole input from a state: one token at a time to the end.
pub open spec fn scan_all(s: Seq<char>, st: ScanState) -> ScanState
    decreases s.len() - st.current,
{
    if st.current >= s.len() {
        st
    } else {
        let st2 = scan_token(s, ScanState { start: st.current, ..st });
        if st2.current > st.current && st2.current <= s.len() {
            scan_all(s, st2)
        } else {
            st2
        }
    }
}

/// The scan of a whole source from a starting state, terminated by the
/// synthetic boundary and end-of-input sentinels.
pub open spec fn lex_from(s: Seq<char>, st0: ScanState) -> (Seq<TokenModel>, Seq<Diag>) {
    let st = scan_all(s, st0);
    let with_end = if st.tokens.len() == 0 || st.tokens.last().token_type
        != TokenType::StatementEnd {
        st.tokens.push(
            TokenModel {
                token_type: TokenType::StatementEnd,
                lexeme: "StatementEnd"@,
                literal: Val::Null,
                line: st.line,
            },
        )
    } else {
        st.tokens
    };
    (
        with_end.push(
            TokenModel { token_type: TokenType::EOF, lexeme: "EOF"@, literal: Val::Null, line: st.line },
        ),
        st.diags,
    )
}

/// The scan of a whole source from the beginning.
pub open spec fn lex_model(s: Seq<char>) -> (Seq<TokenModel>, Seq<Diag>) {
    lex_from(
        s,
        ScanState {
            start: 0,
            current: 0,
            line: 0,
            ignore_newline: false,
            tokens: Seq::empty(),
            diags: Seq::empty(),
        },
    )
}

/// The abstract state a scanner value denotes.
pub open spec fn lexer_state(l: Lexer) -> ScanState {
    ScanState {
        start: l.start as int,
        current: l.current as int,
        line: l.line as nat,
        ignore_newline: l.ignore_newline,
        tokens: toks_model(l.tokens@),
        diags: l.reporter@,
    }
}

/// A maximal identifier-character run pins down where the run ends.
proof fn lemma_ident_run_end_at(s: Seq<char>, i: int, e: int)
    requires
        0 <= i <= e <= s.len(),
        forall|j: int| i <= j < e ==> ((#[trigger] s[j]) == '_' || is_alnum(s[j])),
        e == s.len() || !(s[e] == '_' || is_alnum(s[e])),
    ensures
        ident_run_end(s, i) == e,
    decreases e - i,
{
    if i < e {
        lemma_ident_run_end_at(s, i + 1, e);
    }
}

/// A newline-free run pins down where a line comment ends.
proof fn lemma_line_comment_end_at(s: Seq<char>, i: int, e: int)
    requires
        0 <= i <= e <= s.len(),
        forall|j: int| i <= j < e ==> (#[trigger] s[j]) != '\n',
        e == s.len() || s[e] == '\n',
    ensures
        line_comment_end(s, i) == e,
    decreases e - i,
{
    if i < e {
        lemma_line_comment_end_at(s, i + 1, e);
    }
}

/// A quote-free run pins down where a string body ends.
proof fn lemma_string_body_end_at(s: Seq<char>, i: int, e: int)
    requires
        0 <= i <= e <= s.len(),
        forall|j: int| i <= j < e ==> (#[trigger] s[j]) != '"',
        e == s.len() || s[e] == '"',
    ensures
        string_body_end(s, i) == e,
    decreases e - i,
{
    if i < e {
        lemma_string_body_end_at(s, i + 1, e);
    }
}

/// The scanner.
pub struct Lexer {
    pub source: String,
    pub length: usize,
    pub tokens: Vec<Token>,
    pub start: usize,
    pub current: usize,
    pub line: usize,
    pub ignore_newline: bool,
    pub reporter: ErrorHandler,
}

impl Lexer {
    /// The scanner's invariant: the cursor pair brackets a slice of the
    /// source, the line counter never outruns the cursor, and the tokens so
    /// far keep the stream shape.
    pub open spec fn wf(&self) -> bool {
        &&& self.length == self.source@.len()
        &&& self.start <= self.current <= self.length
        &&& self.line <= self.current
        &&& toks_wf(self.tokens@)
    }

    /// A scanner at the beginning of `source`, with nothing emitted.
    pub fn new(source: String) -> (l: Lexer)
        ensures
            l.wf(),
            l.source == source,
            l.current == 0,
            l.tokens@ == Seq::<Token>::empty(),
            l.reporter@ == Seq::<crate::error::Diag>::empty(),
    {
        let length = source.as_str().unicode_len();
        let l = Lexer {
            source,
            length,
            tokens: Vec::new(),
            start: 0,
            current: 0,
            line: 0,
            ignore_newline: false,
            reporter: ErrorHandler::new(),
        };
        proof {
            assert(l.tokens@ =~= Seq::<Token>::empty());
        }
        l
    }

    fn at_end(&self) -> (r: bool)
        ensures
            r == (self.current >= self.length),
    {
        self.current >= self.length
    }

    /// The character under the cursor, or NUL at the end of input.
    fn peek(&self) -> (c: char)
        requires
            self.wf(),
        ensures
            self.current < self.length ==> c == self.source@[self.current as int],
            self.current >= self.length ==> c == '\0',
    {
        if self.at_end() {
            '\0'
        } else {
            self.source.as_str().get_char(self.current)
        }
    }

    /// The character after the cursor, or NUL past the end of input.
    fn peekpeek(&self) -> (c: char)
        requires
            self.wf(),
        ensures
            self.current + 1 < self.length ==> c == self.source@[self.current + 1],
            self.current + 1 >= self.length ==> c == '\0',
    {
        if self.length - self.current < 2 {
            '\0'
        } else {
            self.source.as_str().get_char(self.current + 1)
        }
    }

    /// Consume and return the character under the cursor.
    fn next_char(&mut self) -> (c: char)
        requires
            old(self).wf(),
            old(self).current < old(self).length,
        ensures
            final(self).wf(),
            c == old(self).source@[old(self).current as int],
            final(self).current == old(self).current + 1,
            *final(self) == (Lexer { current: final(self).current, ..*old(self) }),
    {
        let ch = self.source.as_str().get_char(self.current);
        self.current = self.current + 1;
        ch
    }

    /// Emit a token whose text is the slice scanned since `start`, with no
    /// literal value.
    fn add_token(&mut self, token_type: TokenType)
        requires
            old(self).wf(),
            token_type != TokenType::EOF,
            token_type == TokenType::StatementEnd ==> old(self).tokens@.len() > 0 && old(self).tokens@.last().token_type != TokenType::StatementEnd,
        ensures
            final(self).wf(),
            final(self).tokens@.drop_last() == old(self).tokens@,
            final(self).tokens@.len() == old(self).tokens@.len() + 1,
            final(self).tokens@.last()@ == (crate::token::TokenModel {
                token_type,
                lexeme: old(self).source@.subrange(
                    old(self).start as int,
                    old(self).current as int,
                ),
                literal: crate::value::Val::Null,
                line: old(self).line as nat,
            }),
            toks_model(final(self).tokens@) == toks_model(old(self).tokens@).push(
                final(self).tokens@.last()@,
            ),
            *final(self) == (Lexer { tokens: final(self).tokens, ..*old(self) }),
    {
        let text = String::from_str(self.source.as_str().substring_char(self.start, self.current));
        let ghost pre = self.tokens@;
        let token = Token::new(token_type, text, Value::Nil, self.line);
        self.tokens.push(token);
        proof {
            assert(self.tokens@.drop_last() =~= pre);
            assert(toks_model(self.tokens@) =~= toks_model(pre).push(self.tokens@.last()@));
        }
    }

    /// Emit a token carrying a literal value.
    fn add_token_literal(&mut self, token_type: TokenType, literal: Value)
        requires
            old(self).wf(),
            token_type != TokenType::EOF,
            token_type != TokenType::StatementEnd,
        ensures
            final(self).wf(),
            final(self).tokens@.drop_last() == old(self).tokens@,
            final(self).tokens@.len() == old(self).tokens@.len() + 1,
            final(self).tokens@.last()@ == (crate::token::TokenModel {
                token_type,
                lexeme: old(self).source@.subrange(
                    old(self).start as int,
                    old(self).current as int,
                ),
                literal: literal@,
                line: old(self).line as nat,
            }),
            toks_model(final(self).tokens@) == toks_model(old(self).tokens@).push(
                final(self).tokens@.last()@,
            ),
            *final(self) == (Lexer { tokens: final(self).tokens, ..*old(self) }),
    {
        let text = String::from_str(self.source.as_str().substring_char(self.start, self.current));
        let ghost pre = self.tokens@;
        let token = Token::new(token_type, text, literal, self.line);
        self.tokens.push(token);
        proof {
            assert(self.tokens@.drop_last() =~= pre);
            assert(toks_model(self.tokens@) =~= toks_model(pre).push(self.tokens@.last()@));
        }
    }

    /// Consume the next character exactly when it is `ch`.
    fn matches_next(&mut self, ch: char) -> (r: bool)
        requires
            old(self).wf(),
        ensures
            final(self).wf(),
            r == (old(self).current < old(self).length && old(self).source@[old(self).current as int] == ch),
            final(self).current == if r {
                old(self).current + 1
            } else {
                old(self).current as int
            },
            *final(self) == (Lexer { current: final(self).current, ..*old(self) }),
    {
        if self.at_end() {
            return false;
        }
        if self.peek() != ch {
            return false;
        }
        self.current = self.current + 1;
        true
    }

    /// A letter, digit or underscore: what may continue an identifier.
    fn alphanumeric_or_underscore(ch: char) -> (r: bool)
        ensures
            r == (ch == '_' || is_alnum(ch)),
    {
        let u = ch as u32;
        u == 95 || (48 <= u && u <= 57) || (65 <= u && u <= 90) || (97 <= u && u <= 122)
    }

    /// Whether a token of this kind may end a statement.
    fn is_maybe_stmt_end(test_type: &TokenType) -> (r: bool)
        ensures
            r == can_end_statement(*test_type),
    {
        match test_type {
            TokenType::BraceClose => true,
            TokenType::ParenClose => true,
            TokenType::SquareClose => true,
            TokenType::True => true,
            TokenType::False => true,
            TokenType::Number => true,
            TokenType::String => true,
            TokenType::NoneKw => true,
            TokenType::End => true,
            TokenType::Identifier => true,
            _ => false,
        }
    }

    /// The keyword table: the token kind an identifier's text denotes.
    fn keyword_type(text: &String) -> (r: TokenType)
        ensures
            r == spec_keyword(text@),
    {
        if *text == String::from_str("and") {
            TokenType::And
        } else if *text == String::from_str("class") {
            TokenType::Class
        } else if *text == String::from_str("else") {
            TokenType::Else
        } else if *text == String::from_str("false") {
            TokenType::False
        } else if *text == String::from_str("true") {
            TokenType::True
        } else if *text == String::from_str("for") {
            TokenType::For
        } else if *text == String::from_str("if") {
            TokenType::If
        } else if *text == String::from_str("none") {
            TokenType::NoneKw
        } else if *text == String::from_str("or") {
            TokenType::Or
        } else if *text == String::from_str("is") {
            TokenType::Is
        } else if *text == String::from_str("not") {
            TokenType::Not
        } else if *text == String::from_str("return") {
            TokenType::Return
        } else if *text == String::from_str("super") {
            TokenType::Super
        } else if *text == String::from_str("this") {
            TokenType::This
        } else if *text == String::from_str("offering") {
            TokenType::Offering
        } else if *text == String::from_str("ritual") {
            TokenType::Ritual
        } else if *text == String::from_str("end") {
            TokenType::End
        } else if *text == String::from_str("while") {
            TokenType::While
        } else {
            TokenType::Identifier
        }
    }

    /// Whether the character under the cursor is a decimal digit.
    fn peek_digit(&self) -> (r: bool)
        requires
            self.wf(),
        ensures
            r == (self.current < self.length && is_digit(self.source@[self.current as int])),
    {
        let c = self.peek();
        let u = c as u32;
        48 <= u && u <= 57
    }

    /// Whether the character under the cursor may continue an identifier.
    fn peek_ident_char(&self) -> (r: bool)
        requires
            self.wf(),
        ensures
            r == (self.current < self.length && (self.source@[self.current as int] == '_'
                || is_alnum(self.source@[self.current as int]))),
    {
        let c = self.peek();
        let r = Self::alphanumeric_or_underscore(c);
        proof {
            if self.current >= self.length {
                assert(c == '\0');
                assert(c as u32 == 0);
            }
        }
        r
    }

    /// Scan a string literal: the opening quote is already consumed. An
    /// unterminated literal is reported and dropped.
    #[verifier::rlimit(100)]
    #[verifier::spinoff_prover]
    fn handle_string(&mut self)
        requires
            old(self).wf(),
            old(self).start < old(self).current,
        ensures
            final(self).wf(),
            final(self).current >= old(self).current,
            final(self).length == old(self).length,
            final(self).source == old(self).source,
            lexer_state(*final(self)) == scan_string(old(self).source@, lexer_state(*old(self))),
    {
        let ghost s = self.source@;
        let ghost c0: int = self.current as int;
        let ghost line0: nat = self.line as nat;
        proof {
            assert(s.subrange(c0, c0) =~= Seq::<char>::empty());
        }
        while self.peek() != '"' && !self.at_end()
            invariant
                self.wf(),
                self.length == old(self).length,
                self.source == old(self).source,
                s == self.source@,
                c0 == old(self).current,
                line0 == old(self).line,
                self.current >= old(self).current,
                self.start == old(self).start,
                self.tokens@ == old(self).tokens@,
                self.reporter == old(self).reporter,
                self.ignore_newline == old(self).ignore_newline,
                forall|j: int| c0 <= j < self.current ==> (#[trigger] s[j]) != '"',
                self.line as nat == line0 + newlines_in(s.subrange(c0, self.current as int)),
            decreases self.length - self.current,
        {
            let c = self.next_char();
            proof {
                assert(s.subrange(c0, self.current as int).drop_last() =~= s.subrange(
                    c0,
                    self.current - 1,
                ));
            }
            if c == '\n' {
                self.line = self.line + 1;
            }
        }
        proof {
            lemma_string_body_end_at(s, c0, self.current as int);
        }
        if self.at_end() {
            self.reporter.report(self.line, "Unterminated string.");
            proof {
                assert(lexer_state(*self) == scan_string(s, lexer_state(*old(self))));
            }
            return;
        }
        // Closing quote.
        let _ = self.next_char();
        let literal = String::from_str(
            self.source.as_str().substring_char(self.start + 1, self.current - 1),
        );
        self.add_token_literal(TokenType::String, Value::String(literal));
        proof {
            assert(lexer_state(*self) == scan_string(s, lexer_state(*old(self))));
        }
    }

    /// Scan a number literal: the first digit is already consumed. The
    /// language's numbers are whole: a literal whose value does not fit, or
    /// whose fractional digits are not all zero, is reported and dropped.
    #[verifier::rlimit(100)]
    #[verifier::spinoff_prover]
    fn handle_number(&mut self)
        requires
            old(self).wf(),
            old(self).current == old(self).start + 1,
            is_digit(old(self).source@[old(self).start as int]),
        ensures
            final(self).wf(),
            final(self).current >= old(self).current,
            final(self).length == old(self).length,
            final(self).source == old(self).source,
            lexer_state(*final(self)) == scan_number(old(self).source@, lexer_state(*old(self))),
    {
        let first = self.source.as_str().get_char(self.current - 1);
        let mut val: i128 = (first as u32 - 48) as i128;
        let mut too_big = false;
        let ghost s = self.source@;
        proof {
            assert(dec_value(Seq::<char>::empty()) == 0);
            assert(s.subrange(self.current - 1, self.current as int).drop_last() =~= Seq::<
                char,
            >::empty());
            assert(dec_value(s.subrange(self.current - 1, self.current as int)) == val as int);
        }
        let int_start = self.current - 1;
        while self.peek_digit()
            invariant
                self.wf(),
                self.length == old(self).length,
                self.source == old(self).source,
                s == self.source@,
                int_start < self.current,
                self.current >= old(self).current,
                self.start == old(self).start,
                self.tokens@ == old(self).tokens@,
                self.reporter == old(self).reporter,
                self.line == old(self).line,
                self.ignore_newline == old(self).ignore_newline,
                int_start == old(self).current - 1,
                forall|j: int|
                    int_start <= j < self.current ==> is_digit(#[trigger] self.source@[j]),
                !too_big ==> 0 <= val as int <= i64::MAX && val as int == dec_value(
                    self.source@.subrange(int_start as int, self.current as int),
                ),
                too_big ==> dec_value(
                    self.source@.subrange(int_start as int, self.current as int),
                ) > i64::MAX,
            decreases self.length - self.current,
        {
            let c = self.next_char();
            let d: i128 = (c as u32 - 48) as i128;
            proof {
                let run = self.source@.subrange(int_start as int, self.current as int);
                assert(run.drop_last() =~= self.source@.subrange(
                    int_start as int,
                    self.current - 1,
                ));
                assert(dec_value(run) == 10 * dec_value(run.drop_last()) + (run.last() as u32
                    - 48));
            }
            if too_big {
                proof {
                    let prev = self.source@.subrange(int_start as int, self.current - 1);
                    assert(10 * dec_value(prev) + (d as int) > i64::MAX);
                }
            } else {
                let next_val: i128 = val * 10 + d;
                if next_val > i64::MAX as i128 {
                    too_big = true;
                }
                val = next_val;
            }
        }
        proof {
            lemma_digit_run_end_at(self.source@, old(self).current as int, self.current as int);
        }
        let ghost run_end: int = self.current as int;
        // A fractional part: consumed, and the literal kept only when every
        // fractional digit is zero, since the language's numbers are whole.
        let mut frac_ok = true;
        let dot = self.peek();
        let after = self.peekpeek();
        let after_u = after as u32;
        let ghost has_frac = run_end + 1 < s.len() && s[run_end] == '.' && is_digit(
            s[run_end + 1],
        );
        if dot == '.' && 48 <= after_u && after_u <= 57 {
            proof {
                assert(has_frac);
            }
            let _ = self.next_char();
            let ghost frac_start: int = self.current as int;
            while self.peek_digit()
                invariant
                    self.wf(),
                    self.length == old(self).length,
                    self.source == old(self).source,
                    s == self.source@,
                    frac_start == run_end + 1,
                    frac_start <= self.current,
                    self.current >= old(self).current,
                    self.start == old(self).start,
                    self.tokens@ == old(self).tokens@,
                    self.reporter == old(self).reporter,
                    self.line == old(self).line,
                    self.ignore_newline == old(self).ignore_newline,
                    forall|j: int|
                        frac_start <= j < self.current ==> is_digit(#[trigger] self.source@[j]),
                    frac_ok == (forall|j: int|
                        frac_start <= j < self.current ==> (#[trigger] s[j]) == '0'),
                decreases self.length - self.current,
            {
                let c = self.next_char();
                if c != '0' {
                    frac_ok = false;
                }
            }
            proof {
                lemma_digit_run_end_at(s, frac_start, self.current as int);
            }
        } else {
            proof {
                assert(!has_frac);
            }
        }
        let ghost end: int = self.current as int;
        proof {
            assert(end == if has_frac {
                digit_run_end(s, run_end + 1)
            } else {
                run_end
            });
        }
        if too_big || !frac_ok {
            self.reporter.report(self.line, "Could not parse number!");
            proof {
                assert(lexer_state(*self) == scan_number(s, lexer_state(*old(self))));
            }
            return;
        }
        proof {
            assert(val as int == dec_value(self.source@.subrange(int_start as int, run_end)));
        }
        self.add_token_literal(TokenType::Number, Value::Number(val as i64));
        proof {
            assert(lexer_state(*self) == scan_number(s, lexer_state(*old(self))));
        }
    }

    /// Scan an identifier or keyword: the first character is already
    /// consumed.
    #[verifier::rlimit(100)]
    #[verifier::spinoff_prover]
    #[verifier::rlimit(100)]
    #[verifier::spinoff_prover]
    fn handle_identifier(&mut self)
        requires
            old(self).wf(),
            old(self).start < old(self).current,
        ensures
            final(self).wf(),
            final(self).current >= old(self).current,
            final(self).length == old(self).length,
            final(self).source == old(self).source,
            lexer_state(*final(self)) == scan_identifier(
                old(self).source@,
                lexer_state(*old(self)),
            ),
    {
        let ghost s = self.source@;
        let ghost c0: int = self.current as int;
        while self.peek_ident_char()
            invariant
                self.wf(),
                self.length == old(self).length,
                self.source == old(self).source,
                s == self.source@,
                c0 == old(self).current,
                self.current >= old(self).current,
                self.start == old(self).start,
                self.tokens@ == old(self).tokens@,
                self.reporter == old(self).reporter,
                self.line == old(self).line,
                self.ignore_newline == old(self).ignore_newline,
                forall|j: int|
                    c0 <= j < self.current ==> ((#[trigger] s[j]) == '_' || is_alnum(s[j])),
            decreases self.length - self.current,
        {
            let _ = self.next_char();
        }
        proof {
            lemma_ident_run_end_at(s, c0, self.current as int);
        }
        let text = String::from_str(self.source.as_str().substring_char(self.start, self.current));
        let token_type = Self::keyword_type(&text);
        self.add_token(token_type);
        proof {
            assert(lexer_state(*self) == scan_identifier(s, lexer_state(*old(self))));
        }
    }

    /// Scan one token starting at the cursor; always consumes at least one
    /// character.
    #[verifier::rlimit(100)]
    #[verifier::spinoff_prover]
    /// Skip a line comment: the marker is already consumed.
    fn skip_comment(&mut self)
        requires
            old(self).wf(),
            old(self).current == old(self).start + 1,
        ensures
            final(self).wf(),
            final(self).current >= old(self).current,
            final(self).length == old(self).length,
            final(self).source == old(self).source,
            lexer_state(*final(self)) == scan_comment(old(self).source@, lexer_state(*old(self))),
    {
        let ghost s = self.source@;
        let ghost c0: int = self.current as int;
        while self.peek() != '\n' && !self.at_end()
            invariant
                self.wf(),
                self.length == old(self).length,
                self.source == old(self).source,
                s == self.source@,
                c0 == old(self).current,
                self.current >= old(self).current,
                self.start == old(self).start,
                self.tokens@ == old(self).tokens@,
                self.reporter == old(self).reporter,
                self.line == old(self).line,
                self.ignore_newline == old(self).ignore_newline,
                forall|j: int| c0 <= j < self.current ==> (#[trigger] s[j]) != '\n',
            decreases self.length - self.current,
        {
            let _ = self.next_char();
        }
        proof {
            lemma_line_comment_end_at(s, c0, self.current as int);
        }
    }

    /// Consume a newline: advance the line counter, and emit a statement
    /// boundary exactly when newlines are not suppressed and the last token
    /// emitted could end a statement.
    fn handle_newline(&mut self)
        requires
            old(self).wf(),
            old(self).current == old(self).start + 1,
            old(self).line < old(self).current,
        ensures
            final(self).wf(),
            final(self).current >= old(self).current,
            final(self).length == old(self).length,
            final(self).source == old(self).source,
            lexer_state(*final(self)) == scan_newline(old(self).source@, lexer_state(*old(self))),
    {
        let ghost s = self.source@;
        let ghost st0 = lexer_state(*old(self));
        self.line = self.line + 1;
        if !self.ignore_newline {
            let len = self.tokens.len();
            proof {
                assert(toks_model(self.tokens@).len() == self.tokens@.len());
            }
            if len == 0 {
                proof {
                    assert(lexer_state(*self) == scan_newline(s, st0));
                }
                return;
            }
            let last_type = self.tokens[len - 1].token_type;
            proof {
                assert(toks_model(self.tokens@).last() == self.tokens@.last()@);
            }
            if Self::is_maybe_stmt_end(&last_type) {
                proof {
                    assert(!can_end_statement(TokenType::StatementEnd));
                }
                self.add_token(TokenType::StatementEnd);
            }
        }
        proof {
            assert(lexer_state(*self) == scan_newline(s, st0));
        }
    }

    /// Scan one token starting at the cursor; always consumes at least one
    /// character.
    #[verifier::rlimit(100)]
    #[verifier::spinoff_prover]
    fn lex_token(&mut self)
        requires
            old(self).wf(),
            old(self).start == old(self).current,
            old(self).current < old(self).length,
        ensures
            final(self).wf(),
            final(self).current > old(self).current,
            final(self).length == old(self).length,
            final(self).source == old(self).source,
            lexer_state(*final(self)) == scan_token(old(self).source@, lexer_state(*old(self))),
    {
        let ghost s = self.source@;
        let ghost st0 = lexer_state(*old(self));
        let next = self.next_char();
        match next {
            '?' => {
                self.skip_comment();
            },
            ' ' | '\r' | '\t' => (),
            '\n' => {
                self.handle_newline();
            },
            '(' => {
                self.add_token(TokenType::ParenOpen);
                self.ignore_newline = true;
            },
            ')' => {
                self.add_token(TokenType::ParenClose);
                self.ignore_newline = false;
            },
            '[' => {
                self.add_token(TokenType::SquareOpen);
                self.ignore_newline = true;
            },
            ']' => {
                self.add_token(TokenType::SquareClose);
                self.ignore_newline = false;
            },
            '{' => {
                self.add_token(TokenType::BraceOpen);
            },
            '}' => self.add_token(TokenType::BraceClose),
            ',' => self.add_token(TokenType::Comma),
            '.' => self.add_token(TokenType::Dot),
            '-' => {
                if self.matches_next('-') {
                    self.add_token(TokenType::MinusMinus)
                } else if self.matches_next('=') {
                    self.add_token(TokenType::MinusEqual)
                } else {
                    self.add_token(TokenType::Minus)
                }
            },
            '+' => {
                if self.matches_next('+') {
                    self.add_token(TokenType::PlusPlus)
                } else if self.matches_next('=') {
                    self.add_token(TokenType::PlusEqual)
                } else {
                    self.add_token(TokenType::Plus)
                }
            },
            '*' => self.add_token(TokenType::Multiply),
            '/' => self.add_token(TokenType::Divide),
            '=' => self.add_token(TokenType::Equal),
            '$' => {
                let token = if self.matches_next('>') {
                    TokenType::DollarGreater
                } else if self.matches_next('<') {
                    TokenType::DollarLess
                } else {
                    proof {
                        assert(lexer_state(*self) == scan_token(s, st0));
                    }
                    return;
                };
                self.add_token(token);
            },
            '<' => {
                let token = if self.matches_next('=') {
                    TokenType::LessEqual
                } else {
                    TokenType::Less
                };
                self.add_token(token);
            },
            '>' => {
                let token = if self.matches_next('=') {
                    TokenType::GreaterEqual
                } else {
                    TokenType::Greater
                };
                self.add_token(token);
            },
            '"' => self.handle_string(),
            _ => {
                let u = next as u32;
                if 48 <= u && u <= 57 {
                    self.handle_number();
                } else if (65 <= u && u <= 90) || (97 <= u && u <= 122) {
                    self.handle_identifier();
                }
            },
        }
        proof {
            assert(lexer_state(*self) == scan_token(s, st0));
        }
    }

    /// Scan the whole source: the returned tokens and diagnostics are
    /// exactly the scan of the source text, and the token stream always
    /// ends with exactly one `StatementEnd` and then exactly one `EOF`,
    /// holding no other `EOF`, whatever the input was.
    #[verifier::rlimit(100)]
    #[verifier::spinoff_prover]
    pub fn lex(self) -> (r: (Vec<Token>, ErrorHandler))
        requires
            self.wf(),
        ensures
            toks_model(r.0@) == lex_from(self.source@, lexer_state(self)).0,
            r.1@ == lex_from(self.source@, lexer_state(self)).1,
            ({
                let ts = r.0@;
                &&& ts.len() >= 2
                &&& ts[ts.len() - 1].token_type == TokenType::EOF
                &&& ts[ts.len() - 2].token_type == TokenType::StatementEnd
                &&& forall|i: int|
                    0 <= i < ts.len() - 1 ==> (#[trigger] ts[i].token_type) != TokenType::EOF
                &&& ts.len() >= 3 ==> ts[ts.len() - 3].token_type != TokenType::StatementEnd
            }),
    {
        let ghost s = self.source@;
        let ghost st0 = lexer_state(self);
        let mut lexer = self;
        while lexer.current < lexer.length
            invariant
                lexer.wf(),
                lexer.source@ == s,
                scan_all(s, lexer_state(lexer)) == scan_all(s, st0),
            decreases lexer.length - lexer.current,
        {
            let ghost pre = lexer_state(lexer);
            lexer.start = lexer.current;
            proof {
                let set = lexer_state(lexer);
                assert(ScanState { start: set.current, ..set } == ScanState {
                    start: pre.current,
                    ..pre
                });
                assert(scan_all(s, set) == scan_all(s, pre));
            }
            let ghost mid = lexer_state(lexer);
            lexer.lex_token();
            proof {
                assert(lexer_state(lexer) == scan_token(s, ScanState { start: mid.current, ..mid }));
                assert(scan_all(s, mid) == scan_all(s, lexer_state(lexer)));
            }
        }
        proof {
            assert(scan_all(s, lexer_state(lexer)) == lexer_state(lexer));
            assert(lexer_state(lexer) == scan_all(s, st0));
        }
        let ghost scanned = lexer_state(lexer);
        let len = lexer.tokens.len();
        proof {
            assert(toks_model(lexer.tokens@).len() == lexer.tokens@.len());
            if len > 0 {
                assert(toks_model(lexer.tokens@).last() == lexer.tokens@.last()@);
            }
        }
        let needs_end = if len == 0 {
            true
        } else {
            lexer.tokens[len - 1].token_type != TokenType::StatementEnd
        };
        if needs_end {
            let end = Token::new(
                TokenType::StatementEnd,
                String::from_str("StatementEnd"),
                Value::Nil,
                lexer.line,
            );
            let ghost pre = lexer.tokens@;
            lexer.tokens.push(end);
            proof {
                assert(lexer.tokens@.drop_last() =~= pre);
                assert(toks_model(lexer.tokens@) =~= toks_model(pre).push(
                    lexer.tokens@.last()@,
                ));
            }
        }
        let eof = Token::new(TokenType::EOF, String::from_str("EOF"), Value::Nil, lexer.line);
        let ghost pre = lexer.tokens@;
        lexer.tokens.push(eof);
        proof {
            assert(lexer.tokens@.drop_last() =~= pre);
            assert(toks_model(lexer.tokens@) =~= toks_model(pre).push(lexer.tokens@.last()@));
            assert(toks_model(lexer.tokens@) == lex_from(s, st0).0);
        }
        (lexer.tokens, lexer.reporter)
    }
}

} // verus!
