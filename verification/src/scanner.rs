use vstd::prelude::*;

use crate::errors::{InterpretError, ScanError};
use crate::syntax::{item_view, TokV};
use crate::token::{keyword_kind, keyword_type, Token, TokenType};

verus! {

/// Whether `char::is_alphabetic` holds of `c` (the Unicode `Alphabetic`
/// property).
pub uninterp spec fn unicode_alphabetic(c: char) -> bool;

/// Whether `char::is_alphanumeric` holds of `c` (Unicode `Alphabetic` or
/// `Numeric`).
pub uninterp spec fn unicode_alphanumeric(c: char) -> bool;

/// `char::is_alphabetic`; its result is named `unicode_alphabetic`, a
/// property of the character alone. The ASCII letters are alphabetic.
#[verifier::external_body]
fn is_alphabetic(c: char) -> (r: bool)
    ensures
        r == unicode_alphabetic(c),
        ('a' <= c <= 'z' || 'A' <= c <= 'Z') ==> r,
{
    c.is_alphabetic()
}

/// `char::is_alphanumeric`; its result is named `unicode_alphanumeric`, a
/// property of the character alone. A line feed (a control character,
/// neither alphabetic nor numeric) is not alphanumeric; the ASCII letters
/// and digits are.
#[verifier::external_body]
fn is_alphanumeric(c: char) -> (r: bool)
    ensures
        r == unicode_alphanumeric(c),
        c == '\n' ==> !r,
        ('a' <= c <= 'z' || 'A' <= c <= 'Z' || '0' <= c <= '9') ==> r,
{
    c.is_alphanumeric()
}

/// `String::push`: appends one character.
#[verifier::external_body]
pub(crate) fn push_char(s: &mut String, c: char)
    ensures
        final(s)@ == old(s)@.push(c),
{
    s.push(c)
}

/// A `String` holding the characters of `chars`.
pub fn string_from_chars(chars: &Vec<char>) -> (s: String)
    ensures
        s@ == chars@,
{
    let mut s = String::new();
    let mut i: usize = 0;
    while i < chars.len()
        invariant
            i <= chars@.len(),
            s@ == chars@.take(i as int),
        decreases chars@.len() - i,
    {
        push_char(&mut s, chars[i]);
        proof {
            assert(chars@.take(i + 1) =~= chars@.take(i as int).push(chars@[i as int]));
        }
        i = i + 1;
    }
    assert(chars@.take(i as int) =~= chars@);
    s
}

/// The number of newlines in `s`.
pub open spec fn newlines(s: Seq<char>) -> nat
    decreases s.len(),
{
    if s.len() == 0 {
        0
    } else {
        (if s[0] == '\n' {
            1nat
        } else {
            0nat
        }) + newlines(s.drop_first())
    }
}

/// The length of the longest prefix of `s` whose characters satisfy `p`.
pub open spec fn run_len(s: Seq<char>, p: spec_fn(char) -> bool) -> nat
    decreases s.len(),
{
    if s.len() > 0 && p(s[0]) {
        1 + run_len(s.drop_first(), p)
    } else {
        0
    }
}

/// An ASCII decimal digit (`char::is_ascii_digit`).
pub open spec fn is_digit(c: char) -> bool {
    '0' <= c && c <= '9'
}

/// A character that `skip_whitespace` passes over.
pub open spec fn is_blank(c: char) -> bool {
    c == ' ' || c == '\r' || c == '\t' || c == '\n'
}

/// An ASCII letter.
pub open spec fn ascii_letter(c: char) -> bool {
    ('a' <= c && c <= 'z') || ('A' <= c && c <= 'Z')
}

/// A character that may start an identifier: a letter (every ASCII letter
/// among them) or `_`.
pub open spec fn ident_start(c: char) -> bool {
    ascii_letter(c) || unicode_alphabetic(c) || c == '_'
}

/// A character that may continue an identifier: a letter or digit (every
/// ASCII letter and digit among them) or `_`.
pub open spec fn ident_char(c: char) -> bool {
    ascii_letter(c) || is_digit(c) || unicode_alphanumeric(c) || c == '_'
}

/// The predicate of decimal digits.
pub open spec fn digit_pred() -> spec_fn(char) -> bool {
    |c: char| is_digit(c)
}

/// The predicate of identifier characters.
pub open spec fn ident_pred() -> spec_fn(char) -> bool {
    |c: char| ident_char(c)
}

/// The predicate of characters other than a double quote.
pub open spec fn not_quote_pred() -> spec_fn(char) -> bool {
    |c: char| c != '"'
}

/// The number of characters of blanks and `//` comments at the start of `s`.
pub open spec fn ws_len(s: Seq<char>) -> nat
    decreases s.len(), 0int,
{
    if s.len() == 0 {
        0
    } else if is_blank(s[0]) {
        1 + ws_len(s.drop_first())
    } else if s[0] == '/' && s.len() > 1 && s[1] == '/' {
        2 + comment_ws_len(s.skip(2))
    } else {
        0
    }
}

/// Inside a comment: the rest of the line, then blanks and comments.
pub open spec fn comment_ws_len(s: Seq<char>) -> nat
    decreases s.len(), 1int,
{
    if s.len() == 0 {
        0
    } else if s[0] == '\n' {
        ws_len(s)
    } else {
        1 + comment_ws_len(s.drop_first())
    }
}

/// How many characters after a number's first digit belong to it: more
/// digits, then optionally a `.` followed by at least one digit and more.
pub open spec fn number_len(s: Seq<char>) -> nat {
    let d = run_len(s, digit_pred()) as int;
    if d + 1 < s.len() && s[d] == '.' && is_digit(s[d + 1]) {
        (d + 1 + run_len(s.skip(d + 1), digit_pred())) as nat
    } else {
        d as nat
    }
}

/// The kind of a one-character token.
pub open spec fn single_kind(c: char) -> Option<TokenType> {
    if c == '(' {
        Some(TokenType::LeftParen)
    } else if c == ')' {
        Some(TokenType::RightParen)
    } else if c == '{' {
        Some(TokenType::LeftBrace)
    } else if c == '}' {
        Some(TokenType::RightBrace)
    } else if c == '*' {
        Some(TokenType::Star)
    } else if c == ';' {
        Some(TokenType::Semicolon)
    } else if c == '+' {
        Some(TokenType::Plus)
    } else if c == '-' {
        Some(TokenType::Minus)
    } else if c == '.' {
        Some(TokenType::Dot)
    } else if c == ',' {
        Some(TokenType::Comma)
    } else if c == '/' {
        Some(TokenType::Slash)
    } else {
        None
    }
}

/// For a character that may be followed by `=`: the kind with `=` and alone.
pub open spec fn pair_kind(c: char) -> Option<(TokenType, TokenType)> {
    if c == '=' {
        Some((TokenType::EqualEqual, TokenType::Equal))
    } else if c == '!' {
        Some((TokenType::BangEqual, TokenType::Bang))
    } else if c == '<' {
        Some((TokenType::LessEqual, TokenType::LessThan))
    } else if c == '>' {
        Some((TokenType::GreaterEqual, TokenType::GreaterThan))
    } else {
        None
    }
}

/// The token at the start of the nonempty `s`, scanned on line `line`: its
/// kind and text, or the error, and how many characters it takes.
pub open spec fn spec_token(s: Seq<char>, line: int) -> (Result<(TokenType, Seq<char>), ScanError>, nat) {
    let c = s[0];
    let rest = s.drop_first();
    if single_kind(c) is Some {
        (Ok((single_kind(c)->0, seq![c])), 1)
    } else if pair_kind(c) is Some {
        let kinds = pair_kind(c)->0;
        if rest.len() > 0 && rest[0] == '=' {
            (Ok((kinds.0, seq![c, '='])), 2)
        } else {
            (Ok((kinds.1, seq![c])), 1)
        }
    } else if c == '"' {
        let q = run_len(rest, not_quote_pred());
        if q < rest.len() {
            (Ok((TokenType::String, seq!['"'] + rest.take(q as int) + seq!['"'])), q + 2)
        } else {
            (Err(ScanError::UnterminatedString((line + newlines(rest)) as u32)), s.len())
        }
    } else if is_digit(c) {
        let n = number_len(rest);
        (Ok((TokenType::Number, seq![c] + rest.take(n as int))), n + 1)
    } else if ident_start(c) {
        let n = run_len(rest, ident_pred());
        let word = seq![c] + rest.take(n as int);
        (Ok((keyword_kind(word), word)), n + 1)
    } else {
        (Err(ScanError::UnexpectedCharacter(line as u32, c)), 1)
    }
}

/// The first element of a sequence, if any.
pub open spec fn first_of(s: Seq<char>) -> Option<char> {
    if s.len() > 0 {
        Some(s[0])
    } else {
        None
    }
}

proof fn lemma_run_exact(s: Seq<char>, p: spec_fn(char) -> bool, k: int)
    requires
        0 <= k <= s.len(),
        forall|i: int| 0 <= i < k ==> p(#[trigger] s[i]),
        k == s.len() || !p(s[k]),
    ensures
        run_len(s, p) == k,
    decreases k,
{
    if k > 0 {
        assert forall|i: int| 0 <= i < k - 1 implies p(#[trigger] s.drop_first()[i]) by {
            assert(s.drop_first()[i] == s[i + 1]);
        }
        if k < s.len() {
            assert(s.drop_first()[k - 1] == s[k]);
        }
        lemma_run_exact(s.drop_first(), p, k - 1);
    }
}

/// A run of characters that meet a predicate stays within the text, every
/// character of it meets the predicate, and the one after it does not.
pub proof fn lemma_run_bound(s: Seq<char>, p: spec_fn(char) -> bool)
    ensures
        run_len(s, p) <= s.len(),
        forall|i: int| 0 <= i < run_len(s, p) ==> p(#[trigger] s[i]),
        run_len(s, p) < s.len() ==> !p(s[run_len(s, p) as int]),
    decreases s.len(),
{
    if s.len() > 0 && p(s[0]) {
        lemma_run_bound(s.drop_first(), p);
        assert forall|i: int| 0 <= i < run_len(s, p) implies p(#[trigger] s[i]) by {
            if i > 0 {
                assert(s[i] == s.drop_first()[i - 1]);
            }
        }
        if run_len(s, p) < s.len() {
            assert(s[run_len(s, p) as int] == s.drop_first()[run_len(s.drop_first(), p) as int]);
        }
    }
}

/// Blanks and comments at the start of a text stay within it.
pub proof fn lemma_ws_len_bound(s: Seq<char>)
    ensures
        ws_len(s) <= s.len(),
    decreases s.len(), 0int,
{
    if s.len() > 0 {
        if is_blank(s[0]) {
            lemma_ws_len_bound(s.drop_first());
        } else if s[0] == '/' && s.len() > 1 && s[1] == '/' {
            lemma_comment_ws_len_bound(s.skip(2));
        }
    }
}

/// The rest of a comment, with the blanks and comments after it, stays
/// within the text.
pub proof fn lemma_comment_ws_len_bound(s: Seq<char>)
    ensures
        comment_ws_len(s) <= s.len(),
    decreases s.len(), 1int,
{
    if s.len() > 0 {
        if s[0] == '\n' {
            lemma_ws_len_bound(s);
        } else {
            lemma_comment_ws_len_bound(s.drop_first());
        }
    }
}

proof fn lemma_newlines_prefix_free(s: Seq<char>, k: int)
    requires
        0 <= k <= s.len(),
        forall|i: int| 0 <= i < k ==> #[trigger] s[i] != '\n',
    ensures
        newlines(s) == newlines(s.skip(k)),
    decreases k,
{
    if k > 0 {
        assert forall|i: int| 0 <= i < k - 1 implies #[trigger] s.drop_first()[i] != '\n' by {
            assert(s.drop_first()[i] == s[i + 1]);
        }
        lemma_newlines_prefix_free(s.drop_first(), k - 1);
        assert(s.drop_first().skip(k - 1) =~= s.skip(k));
    } else {
        assert(s.skip(0) =~= s);
    }
}

proof fn lemma_newlines_skip(s: Seq<char>, k: int)
    requires
        0 <= k <= s.len(),
    ensures
        newlines(s.skip(k)) <= newlines(s),
    decreases k,
{
    if k > 0 {
        lemma_newlines_skip(s.drop_first(), k - 1);
        assert(s.drop_first().skip(k - 1) =~= s.skip(k));
    } else {
        assert(s.skip(0) =~= s);
    }
}

/// What one call of `next` does, as the scanner's views show it: blanks and
/// comments are skipped; at the end, one `Eof` token (on the line reached)
/// and then nothing; else the token or error `spec_token` gives, and the
/// characters it takes are consumed. The line counter follows the line
/// feeds read.
pub open spec fn scanned(
    before: Scanner,
    after: Scanner,
    res: Option<Result<Token, InterpretError>>,
) -> bool {
    &&& after.wf()
    &&& after.spec_line() + newlines(after.remaining()) == before.spec_line() + newlines(
        before.remaining(),
    )
    &&& res is Some ==> after.measure() < before.measure()
    &&& res is None ==> before.spec_eof() && after.remaining().len() == 0 && after.spec_eof()
    &&& ({
        let r = before.remaining();
        let r1 = r.skip(ws_len(r) as int);
        let line1 = before.spec_line() + newlines(r) - newlines(r1);
        if r1.len() == 0 {
            &&& after.remaining() == r1
            &&& after.spec_eof()
            &&& after.spec_line() == line1
            &&& before.spec_eof() ==> res is None
            &&& !before.spec_eof() ==> (res matches Some(Ok(t)) && t.token == TokenType::Eof
                && t.lexeme@ == Seq::<char>::empty() && t.line == line1)
        } else {
            let step = spec_token(r1, line1);
            &&& after.remaining() == r1.skip(step.1 as int)
            &&& after.spec_eof() == before.spec_eof()
            &&& match step.0 {
                Ok(found) => res matches Some(Ok(t)) && t.token == found.0 && t.lexeme@ == found.1
                    && t.line == after.spec_line(),
                Err(e) => res == Some(Err::<Token, InterpretError>(InterpretError::Scan(e))),
            }
        }
    })
}

/// A token takes at least one character and at most all of them.
pub proof fn lemma_token_len(s: Seq<char>, line: int)
    requires
        s.len() > 0,
    ensures
        1 <= spec_token(s, line).1 <= s.len(),
{
    let rest = s.drop_first();
    lemma_run_bound(rest, not_quote_pred());
    lemma_run_bound(rest, ident_pred());
    lemma_run_bound(rest, digit_pred());
    let d = run_len(rest, digit_pred()) as int;
    if d + 1 < rest.len() {
        lemma_run_bound(rest.skip(d + 1), digit_pred());
    }
}

/// The items that `next` hands out, one per call, from the characters
/// `rem` not yet read, on line `line`, before (`!eof`) or after the `Eof`
/// token was handed out: each token (on the line it ends on) or scanner
/// error, up to the `Eof` token.
pub open spec fn scan_stream(rem: Seq<char>, line: int, eof: bool) -> Seq<Result<TokV, ScanError>>
    decreases rem.len(),
{
    let r1 = rem.skip(ws_len(rem) as int);
    let line1 = line + newlines(rem) - newlines(r1);
    if r1.len() == 0 {
        if eof {
            Seq::empty()
        } else {
            seq![Ok(TokV { kind: TokenType::Eof, lexeme: Seq::empty(), line: line1 as u32 })]
        }
    } else {
        let step = spec_token(r1, line1);
        let rest = r1.skip(step.1 as int);
        let line2 = line + newlines(rem) - newlines(rest);
        let item = match step.0 {
            Ok(found) => Ok(TokV { kind: found.0, lexeme: found.1, line: line2 as u32 }),
            Err(e) => Err(e),
        };
        proof {
            lemma_ws_len_bound(rem);
            lemma_token_len(r1, line1);
        }
        seq![item] + scan_stream(rest, line2, eof)
    }
}

/// The whole stream of a scan, from the start (before `Eof`): at most one
/// item per character plus one; its last item is the `Eof` token, with no
/// text, and no item before it is an `Eof` token. (A scanner error does not
/// stop the scan; once the stream is spent, `next` gives `None`.)
pub proof fn lemma_stream_ends_with_eof(rem: Seq<char>, line: int)
    ensures
        0 < scan_stream(rem, line, false).len() <= rem.len() + 1,
        scan_stream(rem, line, false).last() matches Ok(t) && t.kind == TokenType::Eof
            && t.lexeme == Seq::<char>::empty(),
        forall|i: int|
            0 <= i < scan_stream(rem, line, false).len() - 1 ==> !(#[trigger] scan_stream(
                rem,
                line,
                false,
            )[i] matches Ok(t) && t.kind == TokenType::Eof),
    decreases rem.len(),
{
    let r1 = rem.skip(ws_len(rem) as int);
    lemma_ws_len_bound(rem);
    if r1.len() > 0 {
        let line1 = line + newlines(rem) - newlines(r1);
        let step = spec_token(r1, line1);
        let rest = r1.skip(step.1 as int);
        let line2 = line + newlines(rem) - newlines(rest);
        lemma_token_len(r1, line1);
        lemma_token_not_eof(r1, line1);
        lemma_stream_ends_with_eof(rest, line2);
        let tail = scan_stream(rest, line2, false);
        let whole = scan_stream(rem, line, false);
        assert(whole.drop_first() =~= tail);
        assert forall|i: int| 0 <= i < whole.len() - 1 implies !(#[trigger] whole[i] matches Ok(t)
            && t.kind == TokenType::Eof) by {
            if i > 0 {
                assert(whole[i] == tail[i - 1]);
            }
        }
    }
}

/// An identifier (or keyword) extends over every letter, digit and `_`
/// that follows its first letter or `_`: where the first `n` characters of
/// `s` are such, the token scanned at the start of `s` is a word whose
/// first `n` characters are those, and whose text is all the token takes;
/// when they are all of `s`, the word is `s`.
pub proof fn lemma_identifier_extends(s: Seq<char>, line: int, n: int)
    requires
        1 <= n <= s.len(),
        ascii_letter(s[0]) || s[0] == '_',
        forall|i: int| 1 <= i < n ==> ascii_letter(#[trigger] s[i]) || is_digit(s[i]) || s[i] == '_',
    ensures
        spec_token(s, line) matches (Ok((k, word)), w) && w == word.len() && word == s.take(w as int)
            && n <= w && k == keyword_kind(word),
        n == s.len() ==> (spec_token(s, line).0 matches Ok((_, word)) && word == s),
{
    let rest = s.drop_first();
    lemma_run_at_least(rest, ident_pred(), n - 1);
    lemma_run_bound(rest, ident_pred());
    let m = run_len(rest, ident_pred());
    assert(seq![s[0]] + rest.take(m as int) =~= s.take(m + 1int));
    if n == s.len() {
        assert(s.take(s.len() as int) =~= s);
    }
}

/// A number extends over every digit that follows its first digit: where
/// the first `n` characters of `s` are digits, the token scanned at the
/// start of `s` is a number whose text starts with those `n` characters and
/// is all the token takes.
pub proof fn lemma_number_extends(s: Seq<char>, line: int, n: int)
    requires
        1 <= n <= s.len(),
        forall|i: int| 0 <= i < n ==> is_digit(#[trigger] s[i]),
    ensures
        spec_token(s, line) matches (Ok((k, text)), w) && k == TokenType::Number && w == text.len()
            && text == s.take(w as int) && n <= w,
{
    assert(is_digit(s[0]));
    let rest = s.drop_first();
    assert forall|i: int| 0 <= i < n - 1 implies digit_pred()(#[trigger] rest[i]) by {
        assert(rest[i] == s[i + 1]);
    }
    lemma_run_at_least(rest, digit_pred(), n - 1);
    lemma_run_bound(rest, digit_pred());
    let d = run_len(rest, digit_pred()) as int;
    if d + 1 < rest.len() {
        lemma_run_bound(rest.skip(d + 1), digit_pred());
    }
    let m = number_len(rest);
    assert(seq![s[0]] + rest.take(m as int) =~= s.take(m + 1int));
}

/// A run of characters that meet a predicate is at least as long as any
/// prefix all of whose characters meet it.
proof fn lemma_run_at_least(s: Seq<char>, p: spec_fn(char) -> bool, k: int)
    requires
        0 <= k <= s.len(),
        forall|i: int| 0 <= i < k ==> p(#[trigger] s[i]),
    ensures
        run_len(s, p) >= k,
    decreases k,
{
    if k > 0 {
        assert forall|i: int| 0 <= i < k - 1 implies p(#[trigger] s.drop_first()[i]) by {
            assert(s.drop_first()[i] == s[i + 1]);
        }
        assert(p(s[0]));
        lemma_run_at_least(s.drop_first(), p, k - 1);
    }
}

/// No token scanned from characters is the `Eof` token.
proof fn lemma_token_not_eof(s: Seq<char>, line: int)
    requires
        s.len() > 0,
    ensures
        spec_token(s, line).0 matches Ok(found) ==> found.0 != TokenType::Eof,
{
    let c = s[0];
    if !(single_kind(c) is Some) && !(pair_kind(c) is Some) && c != '"' && !is_digit(c) && ident_start(c) {
        let n = run_len(s.drop_first(), ident_pred());
        crate::token::lemma_keyword_not_eof(seq![c] + s.drop_first().take(n as int));
    }
}

/// What `next` hands out is the first item of the stream, and the stream
/// goes on with the rest.
proof fn lemma_stream_step(before: Scanner, after: Scanner, res: Option<Result<Token, InterpretError>>)
    requires
        before.wf(),
        scanned(before, after, res),
    ensures
        res is None ==> before.stream().len() == 0,
        res matches Some(item) ==> before.stream().len() > 0 && item_view(item) == before.stream()[0]
            && after.stream() == before.stream().drop_first(),
{
    let r = before.remaining();
    let r1 = r.skip(ws_len(r) as int);
    lemma_ws_len_bound(r);
    if r1.len() == 0 {
        if !before.spec_eof() {
            assert(after.stream() =~= Seq::<Result<TokV, ScanError>>::empty());
            assert(before.stream().drop_first() =~= Seq::<Result<TokV, ScanError>>::empty());
        }
    } else {
        let line1 = before.spec_line() + newlines(r) - newlines(r1);
        lemma_token_len(r1, line1);
        let step = spec_token(r1, line1);
        let rest = r1.skip(step.1 as int);
        let line2 = before.spec_line() + newlines(r) - newlines(rest);
        assert(after.spec_line() == line2);
        assert(before.stream() == seq![before.stream()[0]] + scan_stream(rest, line2, before.spec_eof()));
        assert(before.stream().drop_first() =~= scan_stream(rest, line2, before.spec_eof()));
    }
}

/// Reads the tokens of a source text one at a time.
pub struct Scanner {
    /// The characters of the source.
    chars: Vec<char>,
    /// How many characters of `chars` have been read.
    pos: usize,
    /// The current line number.
    line: u32,
    /// Whether the end-of-file token has been returned.
    eof: bool,
    /// A character that was read and put back.
    unget: Option<char>,
}

impl Scanner {
    /// The characters not yet read.
    pub closed spec fn remaining(&self) -> Seq<char> {
        match self.unget {
            Some(c) => seq![c] + self.chars@.skip(self.pos as int),
            None => self.chars@.skip(self.pos as int),
        }
    }

    /// Whether a character that was read has been put back.
    pub closed spec fn put_back(&self) -> bool {
        self.unget is Some
    }

    /// The current line number.
    pub closed spec fn spec_line(&self) -> u32 {
        self.line
    }

    /// Whether the end-of-file token has been returned.
    pub closed spec fn spec_eof(&self) -> bool {
        self.eof
    }

    /// The items that the calls of `next` from here hand out.
    pub open spec fn stream(&self) -> Seq<Result<TokV, ScanError>> {
        scan_stream(self.remaining(), self.spec_line() as int, self.spec_eof())
    }

    /// The line counter cannot overflow while the rest is read.
    pub closed spec fn wf(&self) -> bool {
        &&& self.pos <= self.chars@.len()
        &&& self.line + newlines(self.remaining()) <= u32::MAX
    }

    /// A measure that every token taken from the scanner lowers.
    pub open spec fn measure(&self) -> nat {
        self.remaining().len() + if self.spec_eof() {
            0nat
        } else {
            1nat
        }
    }

    /// A scanner at line 1 of `source`.
    pub fn new(source: &str) -> (s: Scanner)
        requires
            newlines(source@) < u32::MAX,
        ensures
            s.wf(),
            s.remaining() == source@,
            s.spec_line() == 1,
            !s.spec_eof(),
    {
        let mut chars: Vec<char> = Vec::new();
        for c in it: source.chars()
            invariant
                chars@ == it.seq().take(it.index() as int),
                it.seq() == source@,
        {
            chars.push(c);
            proof {
                assert(it.seq().take(it.index() + 1) =~= it.seq().take(it.index() as int).push(c));
            }
        }
        assert(chars@ =~= source@);
        let s = Scanner { chars, pos: 0, line: 1, eof: false, unget: None };
        assert(s.chars@.skip(0) =~= s.chars@);
        s
    }

    /// The next character, without reading it.
    pub fn peek(&self) -> (c: Option<char>)
        requires
            self.wf(),
        ensures
            c == first_of(self.remaining()),
    {
        match self.unget {
            Some(c) => Some(c),
            None => {
                if self.pos < self.chars.len() {
                    Some(self.chars[self.pos])
                } else {
                    None
                }
            },
        }
    }

    /// Reads the next character, if any.
    pub fn advance(&mut self) -> (c: Option<char>)
        requires
            old(self).wf(),
        ensures
            final(self).wf(),
            c == first_of(old(self).remaining()),
            old(self).remaining().len() > 0 ==> final(self).remaining() == old(
                self,
            ).remaining().drop_first(),
            old(self).remaining().len() == 0 ==> final(self).remaining() == old(self).remaining(),
            !final(self).put_back(),
            final(self).spec_line() == old(self).spec_line(),
            final(self).spec_eof() == old(self).spec_eof(),
    {
        let ghost r = self.remaining();
        match self.unget {
            Some(c) => {
                self.unget = None;
                assert(r.drop_first() =~= self.remaining());
                Some(c)
            },
            None => {
                if self.pos < self.chars.len() {
                    let c = self.chars[self.pos];
                    self.pos = self.pos + 1;
                    assert(r.drop_first() =~= self.remaining());
                    Some(c)
                } else {
                    None
                }
            },
        }
    }

    /// Puts back the character just read.
    fn push_back(&mut self, c: char)
        requires
            old(self).wf(),
            old(self).unget is None,
            old(self).spec_line() + newlines(seq![c] + old(self).remaining()) <= u32::MAX,
        ensures
            final(self).wf(),
            final(self).remaining() == seq![c] + old(self).remaining(),
            final(self).spec_line() == old(self).spec_line(),
            final(self).spec_eof() == old(self).spec_eof(),
    {
        self.unget = Some(c);
    }

    /// Passes over blanks and `//` comments, counting newlines.
    fn skip_whitespace(&mut self)
        requires
            old(self).wf(),
        ensures
            final(self).wf(),
            final(self).remaining() == old(self).remaining().skip(ws_len(old(self).remaining()) as int),
            ws_len(final(self).remaining()) == 0,
            final(self).spec_line() + newlines(final(self).remaining()) == old(self).spec_line()
                + newlines(old(self).remaining()),
            final(self).spec_eof() == old(self).spec_eof(),
    {
        let ghost r0 = self.remaining();
        let ghost mut k: int = 0;
        assert(r0.skip(0) =~= r0);
        loop
            invariant
                self.wf(),
                0 <= k <= r0.len(),
                self.remaining() == r0.skip(k),
                k + ws_len(self.remaining()) == ws_len(r0),
                self.spec_line() + newlines(self.remaining()) == old(self).spec_line() + newlines(r0),
                self.spec_eof() == old(self).spec_eof(),
            ensures
                ws_len(self.remaining()) == 0,
            decreases self.remaining().len(),
        {
            let ghost r = self.remaining();
            match self.peek() {
                None => {
                    break;
                },
                Some(c) => {
                    if c == ' ' || c == '\r' || c == '\t' {
                        self.advance();
                        proof {
                            assert(r0.skip(k).drop_first() =~= r0.skip(k + 1));
                            k = k + 1;
                        }
                    } else if c == '\n' {
                        self.advance();
                        self.line = self.line + 1;
                        proof {
                            assert(r0.skip(k).drop_first() =~= r0.skip(k + 1));
                            k = k + 1;
                        }
                    } else if c == '/' {
                        self.advance();
                        match self.peek() {
                            Some(d) => {
                                if d == '/' {
                                    self.advance();
                                    proof {
                                        assert(r.drop_first().drop_first() =~= r.skip(2));
                                        assert(r0.skip(k).skip(2) =~= r0.skip(k + 2));
                                        k = k + 2;
                                    }
                                    loop
                                        invariant
                                            self.wf(),
                                            0 <= k <= r0.len(),
                                            self.remaining() == r0.skip(k),
                                            self.remaining().len() + 2 <= r.len(),
                                            k + comment_ws_len(self.remaining()) == ws_len(r0),
                                            self.spec_line() + newlines(self.remaining())
                                                == old(self).spec_line() + newlines(r0),
                                            self.spec_eof() == old(self).spec_eof(),
                                        ensures
                                            k + ws_len(self.remaining()) == ws_len(r0),
                                        decreases self.remaining().len(),
                                    {
                                        match self.peek() {
                                            None => {
                                                break;
                                            },
                                            Some(e) => {
                                                if e == '\n' {
                                                    break;
                                                }
                                                self.advance();
                                                proof {
                                                    assert(r0.skip(k).drop_first() =~= r0.skip(
                                                        k + 1,
                                                    ));
                                                    k = k + 1;
                                                }
                                            },
                                        }
                                    }
                                } else {
                                    proof {
                                        assert(seq!['/'] + r.drop_first() =~= r);
                                    }
                                    self.push_back('/');
                                    break;
                                }
                            },
                            None => {
                                proof {
                                    assert(seq!['/'] + r.drop_first() =~= r);
                                }
                                self.push_back('/');
                                break;
                            },
                        }
                    } else {
                        break;
                    }
                },
            }
        }
    }


    /// Reads the rest of a string literal whose opening quote was read:
    /// everything up to and including the closing quote.
    fn tokenize_string(&mut self) -> (res: Result<(TokenType, Vec<char>), InterpretError>)
        requires
            old(self).wf(),
        ensures
            final(self).wf(),
            final(self).spec_eof() == old(self).spec_eof(),
            final(self).spec_line() + newlines(final(self).remaining()) == old(self).spec_line()
                + newlines(old(self).remaining()),
            ({
                let r = old(self).remaining();
                let q = run_len(r, not_quote_pred());
                &&& q < r.len() ==> {
                    &&& res matches Ok((t, lexeme)) && t == TokenType::String && lexeme@ == seq![
                        '"',
                    ] + r.take(q as int) + seq!['"']
                    &&& final(self).remaining() == r.skip(q + 1int)
                }
                &&& q >= r.len() ==> {
                    &&& res == Err::<(TokenType, Vec<char>), InterpretError>(
                        InterpretError::Scan(
                            ScanError::UnterminatedString(
                                (old(self).spec_line() + newlines(r)) as u32,
                            ),
                        ),
                    )
                    &&& final(self).remaining().len() == 0
                }
            }),
    {
        let ghost r = self.remaining();
        let ghost mut k: int = 0;
        let mut lexeme: Vec<char> = Vec::new();
        lexeme.push('"');
        assert(r.skip(0) =~= r);
        assert(lexeme@ =~= seq!['"'] + r.take(0));
        loop
            invariant_except_break
                self.remaining() == r.skip(k),
                lexeme@ == seq!['"'] + r.take(k),
            invariant
                self.wf(),
                r == old(self).remaining(),
                0 <= k <= r.len(),
                forall|i: int| 0 <= i < k ==> #[trigger] r[i] != '"',
                self.spec_line() + newlines(self.remaining()) == old(self).spec_line() + newlines(r),
                self.spec_eof() == old(self).spec_eof(),
            ensures
                k < r.len(),
                r[k] == '"',
                self.remaining() == r.skip(k + 1),
                lexeme@ == seq!['"'] + r.take(k) + seq!['"'],
                forall|i: int| 0 <= i < k ==> #[trigger] r[i] != '"',
                self.wf(),
                self.spec_line() + newlines(self.remaining()) == old(self).spec_line() + newlines(r),
                self.spec_eof() == old(self).spec_eof(),
            decreases self.remaining().len(),
        {
            match self.peek() {
                Some(c) => {
                    assert(r.skip(k).drop_first() =~= r.skip(k + 1));
                    assert(r.skip(k)[0] == r[k]);
                    assert(r.take(k + 1) =~= r.take(k).push(c));
                    lexeme.push(c);
                    self.advance();
                    if c == '"' {
                        assert(lexeme@ =~= seq!['"'] + r.take(k) + seq!['"']);
                        break;
                    }
                    if c == '\n' {
                        self.line = self.line + 1;
                    }
                    proof {
                        k = k + 1;
                    }
                },
                None => {
                    proof {
                        assert(r.skip(k).len() == 0);
                        lemma_run_exact(r, not_quote_pred(), k);
                        assert(r.skip(k) =~= Seq::<char>::empty());
                        assert(self.remaining() == r.skip(k));
                        assert(newlines(self.remaining()) == 0);
                        assert(self.spec_line() == old(self).spec_line() + newlines(r));
                    }
                    return Err(
                        InterpretError::Scan(ScanError::UnterminatedString(self.line)),
                    );
                },
            }
        }
        proof {
            lemma_run_exact(r, not_quote_pred(), k);
        }
        Ok((TokenType::String, lexeme))
    }

    /// Reads the rest of a number whose first digit `init` was read: more
    /// digits, then a fractional part only where a digit follows the `.`.
    fn tokenize_number(&mut self, init: char) -> (res: Result<(TokenType, Vec<char>), InterpretError>)
        requires
            old(self).wf(),
            old(self).unget is None,
        ensures
            final(self).wf(),
            final(self).spec_eof() == old(self).spec_eof(),
            final(self).spec_line() == old(self).spec_line(),
            newlines(final(self).remaining()) == newlines(old(self).remaining()),
            ({
                let r = old(self).remaining();
                let n = number_len(r);
                &&& res matches Ok((t, lexeme)) && t == TokenType::Number && lexeme@ == seq![init]
                    + r.take(n as int)
                &&& final(self).remaining() == r.skip(n as int)
            }),
    {
        let ghost r = self.remaining();
        let ghost mut k: int = 0;
        let ghost digit = digit_pred();
        let mut lexeme: Vec<char> = Vec::new();
        lexeme.push(init);
        let mut has_decimal = false;
        assert(r.skip(0) =~= r);
        assert(lexeme@ =~= seq![init] + r.take(0));
        proof {
            lemma_run_bound(r, digit);
        }
        loop
            invariant_except_break
                self.unget is None,
            invariant
                self.wf(),
                0 <= k <= r.len(),
                self.remaining() == r.skip(k),
                digit == digit_pred(),
                r == old(self).remaining(),
                lexeme@ == seq![init] + r.take(k),
                self.spec_line() == old(self).spec_line(),
                self.spec_eof() == old(self).spec_eof(),
                run_len(r, digit) <= r.len(),
                forall|i: int| 0 <= i < run_len(r, digit) ==> digit(#[trigger] r[i]),
                run_len(r, digit) < r.len() ==> !digit(r[run_len(r, digit) as int]),
                !has_decimal ==> k <= run_len(r, digit),
                has_decimal ==> {
                    let d = run_len(r, digit) as int;
                    &&& d + 1 < r.len()
                    &&& r[d] == '.'
                    &&& digit(r[d + 1])
                    &&& d + 1 <= k
                    &&& forall|i: int| d + 1 <= i < k ==> digit(#[trigger] r[i])
                },
            ensures
                self.wf(),
                self.spec_line() == old(self).spec_line(),
                self.spec_eof() == old(self).spec_eof(),
                lexeme@ == seq![init] + r.take(number_len(r) as int),
                self.remaining() == r.skip(number_len(r) as int),
            decreases self.remaining().len(),
        {
            match self.peek() {
                None => {
                    proof {
                        assert(r.skip(k).len() == 0);
                        if has_decimal {
                            let d = run_len(r, digit) as int;
                            assert forall|i: int| 0 <= i < k - d - 1 implies digit(
                                #[trigger] r.skip(d + 1)[i],
                            ) by {
                                assert(r.skip(d + 1)[i] == r[d + 1 + i]);
                            }
                            lemma_run_exact(r.skip(d + 1), digit, k - d - 1);
                        } else {
                            assert(k == run_len(r, digit));
                        }
                    }
                    break;
                },
                Some(d) => {
                    if d == '.' {
                        if has_decimal {
                            proof {
                                let dd = run_len(r, digit) as int;
                                assert forall|i: int| 0 <= i < k - dd - 1 implies digit(
                                    #[trigger] r.skip(dd + 1)[i],
                                ) by {
                                    assert(r.skip(dd + 1)[i] == r[dd + 1 + i]);
                                }
                                assert(r.skip(dd + 1)[k - dd - 1] == r[k]);
                                lemma_run_exact(r.skip(dd + 1), digit, k - dd - 1);
                            }
                            break;
                        }
                        proof {
                            assert(r.skip(k)[0] == r[k]);
                            if k < run_len(r, digit) {
                                assert(digit(r[k]));
                            }
                        }
                        assert(k == run_len(r, digit));
                        self.advance();
                        assert(r.skip(k).drop_first() =~= r.skip(k + 1));
                        match self.peek() {
                            Some(next_char) => {
                                if next_char >= '0' && next_char <= '9' {
                                    has_decimal = true;
                                    assert(r.take(k + 1) =~= r.take(k).push('.'));
                                    lexeme.push('.');
                                    proof {
                                        k = k + 1;
                                    }
                                } else {
                                    proof {
                                        assert(seq!['.'] + r.skip(k + 1) =~= r.skip(k));
                                        lemma_newlines_skip(r, k);
                                    }
                                    self.push_back('.');
                                    break;
                                }
                            },
                            None => {
                                proof {
                                    assert(seq!['.'] + r.skip(k + 1) =~= r.skip(k));
                                    lemma_newlines_skip(r, k);
                                }
                                self.push_back('.');
                                break;
                            },
                        }
                    } else if d >= '0' && d <= '9' {
                        assert(r.take(k + 1) =~= r.take(k).push(d));
                        lexeme.push(d);
                        self.advance();
                        assert(r.skip(k).drop_first() =~= r.skip(k + 1));
                        proof {
                            k = k + 1;
                        }
                    } else {
                        proof {
                            if has_decimal {
                                let dd = run_len(r, digit) as int;
                                assert forall|i: int| 0 <= i < k - dd - 1 implies digit(
                                    #[trigger] r.skip(dd + 1)[i],
                                ) by {
                                    assert(r.skip(dd + 1)[i] == r[dd + 1 + i]);
                                }
                                assert(r.skip(dd + 1)[k - dd - 1] == r[k]);
                                lemma_run_exact(r.skip(dd + 1), digit, k - dd - 1);
                            } else {
                                assert(r.skip(k)[0] == r[k]);
                                if k < run_len(r, digit) {
                                    assert(digit(r[k]));
                                }
                                assert(k == run_len(r, digit));
                            }
                        }
                        break;
                    }
                },
            }
        }
        proof {
            let n = number_len(r) as int;
            let d = run_len(r, digit) as int;
            lemma_run_bound(r.skip(d + 1), digit);
            assert forall|i: int| 0 <= i < n implies #[trigger] r[i] != '\n' by {
                if i < d {
                    assert(digit(r[i]));
                } else if i > d {
                    assert(r[i] == r.skip(d + 1)[i - d - 1]);
                    assert(digit(r.skip(d + 1)[i - d - 1]));
                }
            }
            lemma_newlines_prefix_free(r, n);
        }
        Ok((TokenType::Number, lexeme))
    }

    /// Reads the rest of an identifier or reserved word whose first
    /// character `init` was read.
    fn tokenize_identifier(&mut self, init: char) -> (res: Result<(TokenType, Vec<char>), InterpretError>)
        requires
            old(self).wf(),
        ensures
            final(self).wf(),
            final(self).spec_eof() == old(self).spec_eof(),
            final(self).spec_line() == old(self).spec_line(),
            newlines(final(self).remaining()) == newlines(old(self).remaining()),
            ({
                let r = old(self).remaining();
                let n = run_len(r, ident_pred());
                let word = seq![init] + r.take(n as int);
                &&& res matches Ok((t, lexeme)) && t == keyword_kind(word) && lexeme@ == word
                &&& final(self).remaining() == r.skip(n as int)
            }),
    {
        let ghost r = self.remaining();
        let ghost mut k: int = 0;
        let ghost p = ident_pred();
        let mut lexeme: Vec<char> = Vec::new();
        lexeme.push(init);
        assert(r.skip(0) =~= r);
        assert(lexeme@ =~= seq![init] + r.take(0));
        loop
            invariant
                self.wf(),
                0 <= k <= r.len(),
                self.remaining() == r.skip(k),
                lexeme@ == seq![init] + r.take(k),
                p == ident_pred(),
                r == old(self).remaining(),
                forall|i: int| 0 <= i < k ==> p(#[trigger] r[i]),
                forall|i: int| 0 <= i < k ==> #[trigger] r[i] != '\n',
                self.spec_line() == old(self).spec_line(),
                self.spec_eof() == old(self).spec_eof(),
            ensures
                self.wf(),
                self.remaining() == r.skip(k),
                lexeme@ == seq![init] + r.take(k),
                run_len(r, p) == k,
                self.spec_line() == old(self).spec_line(),
                self.spec_eof() == old(self).spec_eof(),
            decreases self.remaining().len(),
        {
            match self.peek() {
                Some(ch) => {
                    assert(r.skip(k)[0] == r[k]);
                    if is_alphanumeric(ch) || ch == '_' {
                        assert(p(r[k]));
                        assert(r[k] != '\n');
                        assert(r.take(k + 1) =~= r.take(k).push(ch));
                        lexeme.push(ch);
                        self.advance();
                        assert(r.skip(k).drop_first() =~= r.skip(k + 1));
                        proof {
                            k = k + 1;
                        }
                    } else {
                        proof {
                            lemma_run_exact(r, p, k);
                        }
                        break;
                    }
                },
                None => {
                    proof {
                        assert(r.skip(k).len() == 0);
                        lemma_run_exact(r, p, k);
                    }
                    break;
                },
            }
        }
        proof {
            lemma_newlines_prefix_free(r, k);
        }
        let t = keyword_type(&lexeme);
        Ok((t, lexeme))
    }

    /// Reads the next token: skips blanks and comments, then reads one token
    /// (or reports the error at it). At the end of the input it returns one
    /// `Eof` token, and `None` from then on. Every call that returns a
    /// token or an error lowers `measure`. What it returns is the first item
    /// of `stream`, and the stream goes on with the rest.
    pub fn next(&mut self) -> (res: Option<Result<Token, InterpretError>>)
        requires
            old(self).wf(),
        ensures
            scanned(*old(self), *final(self), res),
            res is None ==> old(self).stream().len() == 0,
            res matches Some(item) ==> old(self).stream().len() > 0 && item_view(item) == old(
                self,
            ).stream()[0] && final(self).stream() == old(self).stream().drop_first(),
    {
        let res = self.next_item();
        proof {
            lemma_stream_step(*old(self), *self, res);
        }
        res
    }

    /// One step of `next`.
    fn next_item(&mut self) -> (res: Option<Result<Token, InterpretError>>)
        requires
            old(self).wf(),
        ensures
            scanned(*old(self), *final(self), res),
    {
        let ghost r = self.remaining();
        self.skip_whitespace();
        let ghost r1 = self.remaining();
        let c = match self.peek() {
            Some(c) => c,
            None => {
                if self.eof {
                    return None;
                } else {
                    self.eof = true;
                    return Some(Ok(Token { token: TokenType::Eof, lexeme: String::new(), line: self.line }));
                }
            },
        };
        self.advance();
        let ghost rest = self.remaining();
        assert(rest == r1.drop_first());
        assert(c != '\n');
        assert(newlines(r1) == newlines(rest));
        let result: Result<(TokenType, Vec<char>), InterpretError> = match single_type(c) {
            Some(t) => {
                let mut lexeme: Vec<char> = Vec::new();
                lexeme.push(c);
                assert(lexeme@ =~= seq![c]);
                Ok((t, lexeme))
            },
            None => {
                if c == '=' || c == '!' || c == '<' || c == '>' {
                    let kinds = pair_type(c);
                    let mut lexeme: Vec<char> = Vec::new();
                    lexeme.push(c);
                    match self.peek() {
                        Some(d) => {
                            if d == '=' {
                                assert(newlines(rest) == newlines(rest.drop_first()));
                                self.advance();
                                lexeme.push('=');
                                assert(lexeme@ =~= seq![c, '=']);
                                Ok((kinds.0, lexeme))
                            } else {
                                assert(lexeme@ =~= seq![c]);
                                Ok((kinds.1, lexeme))
                            }
                        },
                        None => {
                            assert(lexeme@ =~= seq![c]);
                            Ok((kinds.1, lexeme))
                        },
                    }
                } else if c == '"' {
                    self.tokenize_string()
                } else if c >= '0' && c <= '9' {
                    self.tokenize_number(c)
                } else if is_alphabetic(c) || c == '_' {
                    self.tokenize_identifier(c)
                } else {
                    Err(InterpretError::Scan(ScanError::UnexpectedCharacter(self.line, c)))
                }
            },
        };
        proof {
            lemma_run_bound(rest, digit_pred());
            lemma_run_bound(rest.skip(run_len(rest, digit_pred()) + 1int), digit_pred());
            lemma_run_bound(rest, ident_pred());
            lemma_run_bound(rest, not_quote_pred());
            assert(r1.skip(1) =~= rest);
            if rest.len() > 0 {
                assert(r1.skip(2) =~= rest.drop_first());
            }
            lemma_ws_len_bound(r);
            let step = spec_token(r1, old(self).spec_line() + newlines(r) - newlines(r1));
            assert(r1.skip(step.1 as int) =~= self.remaining());
        }
        match result {
            Ok((t, lexeme)) => {
                let text = string_from_chars(&lexeme);
                Some(Ok(Token { token: t, lexeme: text, line: self.line }))
            },
            Err(e) => Some(Err(e)),
        }
    }
}

/// The kind of a one-character token, if `c` is one.
fn single_type(c: char) -> (t: Option<TokenType>)
    ensures
        t == single_kind(c),
{
    if c == '(' {
        Some(TokenType::LeftParen)
    } else if c == ')' {
        Some(TokenType::RightParen)
    } else if c == '{' {
        Some(TokenType::LeftBrace)
    } else if c == '}' {
        Some(TokenType::RightBrace)
    } else if c == '*' {
        Some(TokenType::Star)
    } else if c == ';' {
        Some(TokenType::Semicolon)
    } else if c == '+' {
        Some(TokenType::Plus)
    } else if c == '-' {
        Some(TokenType::Minus)
    } else if c == '.' {
        Some(TokenType::Dot)
    } else if c == ',' {
        Some(TokenType::Comma)
    } else if c == '/' {
        Some(TokenType::Slash)
    } else {
        None
    }
}

/// For `=`, `!`, `<` and `>`: the kind followed by `=`, and the kind alone.
fn pair_type(c: char) -> (t: (TokenType, TokenType))
    requires
        pair_kind(c) is Some,
    ensures
        t == pair_kind(c)->0,
{
    if c == '=' {
        (TokenType::EqualEqual, TokenType::Equal)
    } else if c == '!' {
        (TokenType::BangEqual, TokenType::Bang)
    } else if c == '<' {
        (TokenType::LessEqual, TokenType::LessThan)
    } else {
        (TokenType::GreaterEqual, TokenType::GreaterThan)
    }
}

} // verus!
