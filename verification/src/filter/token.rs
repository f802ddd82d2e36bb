//! The tokens of filter text.
use crate::json::Number;
use crate::text::{
    ascii_letter, byte_len, cat2, cat3, char_width, chars_of, debug_char, debug_text, decimal,
    decimal_text, digit, is_ascii_letter, is_digit, lemma_utf8_len_step, quoted, quoted_char,
    text_between, utf8_len,
};
use vstd::prelude::*;

verus! {

/// The rank of the binary64 number that a text writes (see
/// [`crate::json::Number`]), where it writes one.
pub uninterp spec fn literal_rank(text: Seq<char>) -> Option<u64>;

/// How Rust's `Display` formatting shows the binary64 number of a rank.
pub uninterp spec fn float_display(rank: u64) -> Seq<char>;

/// `str::parse` to a binary64 number, by its rank.
#[verifier::external_body]
fn parse_number(text: &str) -> (r: Option<u64>)
    ensures
        r == literal_rank(text@),
{
    match text.parse() {
        Ok(number) => Some(tantivy::f64_to_u64(number)),
        Err(_) => None,
    }
}

/// `format!("{}", number)` on the binary64 number of a rank.
#[verifier::external_body]
pub(crate) fn display_number(rank: u64) -> (r: String)
    ensures
        r@ == float_display(rank),
{
    format!("{}", tantivy::u64_to_f64(rank))
}

/// A token of filter text. A number is held by its binary64 rank.
#[derive(Debug, PartialEq)]
pub enum Token {
    Ident(String),
    String(String),
    Number(u64),
    LParen,
    RParen,
    Dot,
    Comma,
    Colon,
}

/// The mathematical value of a [`Token`].
pub enum TokenV {
    Ident(Seq<char>),
    String(Seq<char>),
    Number(u64),
    LParen,
    RParen,
    Dot,
    Comma,
    Colon,
}

impl View for Token {
    type V = TokenV;

    open spec fn view(&self) -> TokenV {
        match self {
            Token::Ident(s) => TokenV::Ident(s@),
            Token::String(s) => TokenV::String(s@),
            Token::Number(n) => TokenV::Number(*n),
            Token::LParen => TokenV::LParen,
            Token::RParen => TokenV::RParen,
            Token::Dot => TokenV::Dot,
            Token::Comma => TokenV::Comma,
            Token::Colon => TokenV::Colon,
        }
    }
}

pub open spec fn token_views(v: Seq<Token>) -> Seq<TokenV> {
    v.map_values(|t: Token| t@)
}

pub broadcast proof fn lemma_token_views_push(v: Seq<Token>, t: Token)
    ensures
        #[trigger] token_views(v.push(t)) == token_views(v).push(t@),
{
    assert(token_views(v.push(t)) =~= token_views(v).push(t@));
}

/// A result over owned values says what a result over mathematical ones does.
pub open spec fn tokens_result(r: Result<Vec<Token>, String>) -> Result<Seq<TokenV>, Seq<char>> {
    match r {
        Ok(v) => Ok(token_views(v@)),
        Err(m) => Err(m@),
    }
}

/// How much of a length is left from place `i` on.
pub open spec fn left(len: nat, i: int) -> nat {
    if i < len {
        (len - i) as nat
    } else {
        0
    }
}

/// A place behind `i`.
pub open spec fn past(i: int, j: int) -> int {
    if j > i {
        j
    } else {
        i + 1
    }
}

/// The text of a string literal whose characters start at `i` and whose text
/// so far is `text`, with the place behind its closing quote. A doubled quote
/// stands for one.
pub open spec fn literal_text(s: Seq<char>, i: int, text: Seq<char>) -> Option<(Seq<char>, int)>
    decreases s.len() - i,
{
    if i >= s.len() {
        None
    } else if s[i] == '\'' {
        if i + 1 < s.len() && s[i + 1] == '\'' {
            literal_text(s, i + 2, text.push('\''))
        } else {
            Some((text, i + 1))
        }
    } else {
        literal_text(s, i + 1, text.push(s[i]))
    }
}

/// The end of a numeric literal of which `i` characters are read: digits, one
/// point, and exponents with an optional sign.
pub open spec fn number_end(s: Seq<char>, i: int, has_point: bool) -> int
    decreases s.len() - i,
{
    if i >= s.len() {
        i
    } else if is_digit(s[i]) {
        number_end(s, i + 1, has_point)
    } else if s[i] == '.' && !has_point {
        number_end(s, i + 1, true)
    } else if s[i] == 'e' || s[i] == 'E' {
        if i + 1 < s.len() && (s[i + 1] == '+' || s[i + 1] == '-') {
            number_end(s, i + 2, has_point)
        } else {
            number_end(s, i + 1, has_point)
        }
    } else {
        i
    }
}

/// The characters an identifier goes on with: `/` lets a complex-type field
/// path (`Address/StateProvince`) be one name.
pub open spec fn continues_ident(c: char) -> bool {
    is_ascii_letter(c) || is_digit(c) || c == '_' || c == '/'
}

/// The end of an identifier of which `i` characters are read.
pub open spec fn ident_end(s: Seq<char>, i: int) -> int
    decreases s.len() - i,
{
    if i < s.len() && continues_ident(s[i]) {
        ident_end(s, i + 1)
    } else {
        i
    }
}

pub open spec fn starts_number(s: Seq<char>, i: int) -> bool {
    is_digit(s[i]) || s[i] == '-' && i + 1 < s.len() && is_digit(s[i + 1])
}

/// The tokens of `s` from place `i` on, behind those in `done`; or what is
/// wrong with the text.
pub open spec fn tokens_from(s: Seq<char>, i: int, done: Seq<TokenV>) -> Result<
    Seq<TokenV>,
    Seq<char>,
>
    decreases left(s.len(), i),
{
    if i >= s.len() {
        Ok(done)
    } else {
        let c = s[i];
        if c == ' ' || c == '\t' || c == '\r' || c == '\n' {
            tokens_from(s, i + 1, done)
        } else if c == '(' {
            tokens_from(s, i + 1, done.push(TokenV::LParen))
        } else if c == ')' {
            tokens_from(s, i + 1, done.push(TokenV::RParen))
        } else if c == '.' {
            tokens_from(s, i + 1, done.push(TokenV::Dot))
        } else if c == ',' {
            tokens_from(s, i + 1, done.push(TokenV::Comma))
        } else if c == ':' {
            tokens_from(s, i + 1, done.push(TokenV::Colon))
        } else if c == '\'' {
            match literal_text(s, i + 1, seq![]) {
                None => Err(
                    "Unterminated string literal in filter at position "@ + decimal(
                        utf8_len(s.take(i)),
                    ) + "."@,
                ),
                Some((text, j)) => tokens_from(s, past(i, j), done.push(TokenV::String(text))),
            }
        } else if starts_number(s, i) {
            let j = past(i, number_end(s, i + 1, false));
            let text = s.subrange(i, j);
            match literal_rank(text) {
                None => Err("Invalid numeric literal "@ + debug_text(text) + " in filter."@),
                Some(rank) => tokens_from(s, j, done.push(TokenV::Number(rank))),
            }
        } else if is_ascii_letter(c) || c == '_' {
            let j = past(i, ident_end(s, i + 1));
            tokens_from(s, j, done.push(TokenV::Ident(s.subrange(i, j))))
        } else {
            Err("Unexpected character "@ + debug_char(c) + " in filter expression."@)
        }
    }
}

/// The tokens of filter text.
pub open spec fn tokens(s: Seq<char>) -> Result<Seq<TokenV>, Seq<char>> {
    tokens_from(s, 0, seq![])
}

fn read_literal(s: &Vec<char>, start: usize) -> (r: Option<(String, usize)>)
    requires
        start <= s@.len(),
    ensures
        match r {
            Some((text, j)) => literal_text(s@, start as int, seq![]) == Some((text@, j as int))
                && start < j <= s@.len(),
            None => literal_text(s@, start as int, seq![]) is None,
        },
{
    let mut text = String::new();
    let mut i: usize = start;
    assert(text@ =~= seq![]);
    while i < s.len()
        invariant
            start <= i <= s@.len(),
            literal_text(s@, start as int, seq![]) == literal_text(s@, i as int, text@),
        decreases s@.len() - i,
    {
        if s[i] == '\'' {
            if i + 1 < s.len() && s[i + 1] == '\'' {
                text.push('\'');
                i += 2;
            } else {
                return Some((text, i + 1));
            }
        } else {
            text.push(s[i]);
            i += 1;
        }
    }
    None
}

fn read_number(s: &Vec<char>, start: usize) -> (r: usize)
    requires
        start <= s@.len(),
    ensures
        r == number_end(s@, start as int, false),
        start <= r <= s@.len(),
{
    let mut i: usize = start;
    let mut has_point = false;
    while i < s.len()
        invariant
            start <= i <= s@.len(),
            number_end(s@, start as int, false) == number_end(s@, i as int, has_point),
        decreases s@.len() - i,
    {
        let c = s[i];
        if digit(c) {
            i += 1;
        } else if c == '.' && !has_point {
            has_point = true;
            i += 1;
        } else if c == 'e' || c == 'E' {
            if i + 1 < s.len() && (s[i + 1] == '+' || s[i + 1] == '-') {
                i += 2;
            } else {
                i += 1;
            }
        } else {
            return i;
        }
    }
    i
}

fn read_ident(s: &Vec<char>, start: usize) -> (r: usize)
    requires
        start <= s@.len(),
    ensures
        r == ident_end(s@, start as int),
        start <= r <= s@.len(),
{
    let mut i: usize = start;
    while i < s.len() && (ascii_letter(s[i]) || digit(s[i]) || s[i] == '_' || s[i] == '/')
        invariant
            start <= i <= s@.len(),
            ident_end(s@, start as int) == ident_end(s@, i as int),
        decreases s@.len() - i,
    {
        i += 1;
    }
    i
}

pub(crate) fn is_number_start(s: &Vec<char>, i: usize) -> (r: bool)
    requires
        i < s@.len(),
    ensures
        r == starts_number(s@, i as int),
{
    let n: usize = s.len();
    digit(s[i]) || (s[i] == '-' && i + 1 < n && digit(s[i + 1]))
}

/// Splits filter text into tokens.
pub fn tokenize(input: &str) -> (r: Result<Vec<Token>, String>)
    ensures
        tokens_result(r) == tokens(input@),
{
    broadcast use lemma_token_views_push;

    let s = chars_of(input);
    let total = byte_len(input);
    let mut out: Vec<Token> = Vec::new();
    let mut i: usize = 0;
    let mut bytes: usize = 0;
    let mut counted: usize = 0;
    assert(token_views(out@) =~= seq![]);
    assert(s@.take(0) =~= seq![]);
    while i < s.len()
        invariant
            s@ == input@,
            total == utf8_len(s@),
            i <= s@.len(),
            counted <= i,
            bytes == utf8_len(s@.take(counted as int)),
            tokens(input@) == tokens_from(s@, i as int, token_views(out@)),
        decreases s@.len() - i,
    {
        while counted < i
            invariant
                s@ == input@,
                total == utf8_len(s@),
                i <= s@.len(),
                counted <= i,
                bytes == utf8_len(s@.take(counted as int)),
            decreases i - counted,
        {
            proof {
                lemma_utf8_len_step(s@, counted as int);
            }
            bytes += char_width(s[counted]);
            counted += 1;
        }
        let ghost before = token_views(out@);
        let c = s[i];
        if c == ' ' || c == '\t' || c == '\r' || c == '\n' {
            i += 1;
        } else if c == '(' {
            out.push(Token::LParen);
            assert(token_views(out@) == before.push(out@.last()@));
            i += 1;
        } else if c == ')' {
            out.push(Token::RParen);
            assert(token_views(out@) == before.push(out@.last()@));
            i += 1;
        } else if c == '.' {
            out.push(Token::Dot);
            assert(token_views(out@) == before.push(out@.last()@));
            i += 1;
        } else if c == ',' {
            out.push(Token::Comma);
            assert(token_views(out@) == before.push(out@.last()@));
            i += 1;
        } else if c == ':' {
            out.push(Token::Colon);
            assert(token_views(out@) == before.push(out@.last()@));
            i += 1;
        } else if c == '\'' {
            match read_literal(&s, i + 1) {
                None => {
                    return Err(
                        cat3(
                            "Unterminated string literal in filter at position ",
                            decimal_text(bytes as u64).as_str(),
                            ".",
                        ),
                    );
                },
                Some((text, j)) => {
                    out.push(Token::String(text));
                    assert(token_views(out@) == before.push(out@.last()@));
                    i = j;
                },
            }
        } else if is_number_start(&s, i) {
            let j = read_number(&s, i + 1);
            let text = text_between(&s, i, j);
            match parse_number(text.as_str()) {
                None => {
                    return Err(
                        cat3(
                            "Invalid numeric literal ",
                            quoted(text.as_str()).as_str(),
                            " in filter.",
                        ),
                    );
                },
                Some(rank) => {
                    out.push(Token::Number(rank));
                    assert(token_views(out@) == before.push(out@.last()@));
                    i = j;
                },
            }
        } else if ascii_letter(c) || c == '_' {
            let j = read_ident(&s, i + 1);
            out.push(Token::Ident(text_between(&s, i, j)));
            assert(token_views(out@) == before.push(out@.last()@));
            i = j;
        } else {
            return Err(
                cat3("Unexpected character ", quoted_char(c).as_str(), " in filter expression."),
            );
        }
    }
    Ok(out)
}

/// How an error message names a token.
pub open spec fn described(token: Option<TokenV>) -> Seq<char> {
    match token {
        None => "end of expression"@,
        Some(TokenV::Ident(name)) => "identifier "@ + debug_text(name),
        Some(TokenV::String(text)) => "string "@ + debug_text(text),
        Some(TokenV::Number(rank)) => "number "@ + float_display(rank),
        Some(TokenV::LParen) => "'('"@,
        Some(TokenV::RParen) => "')'"@,
        Some(TokenV::Dot) => "'.'"@,
        Some(TokenV::Comma) => "','"@,
        Some(TokenV::Colon) => "':'"@,
    }
}

pub open spec fn opt_token(o: Option<&Token>) -> Option<TokenV> {
    match o {
        Some(t) => Some(t@),
        None => None,
    }
}

pub fn describe_token(token: Option<&Token>) -> (r: String)
    ensures
        r@ == described(opt_token(token)),
{
    match token {
        None => "end of expression".to_owned(),
        Some(Token::Ident(name)) => cat2("identifier ", quoted(name.as_str()).as_str()),
        Some(Token::String(text)) => cat2("string ", quoted(text.as_str()).as_str()),
        Some(Token::Number(rank)) => cat2("number ", display_number(*rank).as_str()),
        Some(Token::LParen) => "'('".to_owned(),
        Some(Token::RParen) => "')'".to_owned(),
        Some(Token::Dot) => "'.'".to_owned(),
        Some(Token::Comma) => "','".to_owned(),
        Some(Token::Colon) => "':'".to_owned(),
    }
}

// ---------------------------------------------------------------------------
// Laws
// ---------------------------------------------------------------------------

/// A text with its quotes doubled.
pub open spec fn doubled(text: Seq<char>) -> Seq<char>
    decreases text.len(),
{
    if text.len() == 0 {
        seq![]
    } else if text.last() == '\'' {
        doubled(text.drop_last()) + seq!['\'', '\'']
    } else {
        doubled(text.drop_last()).push(text.last())
    }
}

/// The string literal of a text.
pub open spec fn quoted_literal(text: Seq<char>) -> Seq<char> {
    seq!['\''] + doubled(text) + seq!['\'']
}

/// The literal of `text` reads as far as its first `n` characters reach.
proof fn lemma_literal_read(text: Seq<char>, n: int, before: Seq<char>, after: Seq<char>)
    requires
        0 <= n <= text.len(),
    ensures
        ({
            let s = before + doubled(text) + after;
            let at = before.len() + doubled(text.take(n)).len();
            &&& at <= before.len() + doubled(text).len()
            &&& literal_text(s, before.len() as int, seq![]) == literal_text(s, at as int, text.take(n))
            &&& doubled(text.take(n)) == doubled(text).take(doubled(text.take(n)).len() as int)
        }),
    decreases n,
{
    let s = before + doubled(text) + after;
    if n == 0 {
        assert(text.take(0) =~= seq![]);
        assert(doubled(text).take(0) =~= seq![]);
    } else {
        lemma_literal_read(text, n - 1, before, after);
        lemma_doubled_prefix(text, n);
        let shorter = text.take(n - 1);
        let longer = text.take(n);
        assert(longer.drop_last() =~= shorter);
        let c = text[n - 1];
        let k = doubled(shorter).len() as int;
        let at = before.len() + k;
        let whole = doubled(text);
        assert(longer =~= shorter.push(c));
        assert(doubled(longer) == whole.take(doubled(longer).len() as int));
        assert(doubled(longer)[k] == c);
        assert(s[at] == whole[k]);
        if c == '\'' {
            assert(doubled(longer)[k + 1] == '\'');
            assert(s[at + 1] == whole[k + 1]);
        }
    }
}

proof fn lemma_doubled_prefix(text: Seq<char>, n: int)
    requires
        0 <= n <= text.len(),
    ensures
        doubled(text.take(n)).len() <= doubled(text).len(),
        doubled(text.take(n)) == doubled(text).take(doubled(text.take(n)).len() as int),
    decreases text.len(),
{
    if n == text.len() {
        assert(text.take(n) =~= text);
        assert(doubled(text).take(doubled(text).len() as int) =~= doubled(text));
    } else {
        lemma_doubled_prefix(text.drop_last(), n);
        assert(text.drop_last().take(n) =~= text.take(n));
        let part = doubled(text.take(n));
        assert(doubled(text).take(part.len() as int) =~= doubled(text.drop_last()).take(
            part.len() as int,
        ));
    }
}

/// The string literal of a text, its quotes doubled between quotes, tokenizes back to
/// the text, whatever stands before and behind it; what is behind it must not start
/// with a quote.
pub proof fn law_quoted_literal_reads_back(
    text: Seq<char>,
    before: Seq<char>,
    after: Seq<char>,
    done: Seq<TokenV>,
)
    requires
        after.len() > 0 ==> after[0] != '\'',
    ensures
        ({
            let s = before + quoted_literal(text) + after;
            tokens_from(s, before.len() as int, done) == tokens_from(
                s,
                (before.len() + quoted_literal(text).len()) as int,
                done.push(TokenV::String(text)),
            )
        }),
        tokens(quoted_literal(text)) == Ok::<Seq<TokenV>, Seq<char>>(seq![TokenV::String(text)]),
{
    lemma_literal_tokens(text, before, after, done);
    lemma_literal_tokens(text, seq![], seq![], seq![]);
    let s = quoted_literal(text);
    assert(seq![] + s + seq![] =~= s);
    assert(Seq::<TokenV>::empty().push(TokenV::String(text)) =~= seq![TokenV::String(text)]);
}

proof fn lemma_literal_tokens(
    text: Seq<char>,
    before: Seq<char>,
    after: Seq<char>,
    done: Seq<TokenV>,
)
    requires
        after.len() > 0 ==> after[0] != '\'',
    ensures
        ({
            let s = before + quoted_literal(text) + after;
            tokens_from(s, before.len() as int, done) == tokens_from(
                s,
                (before.len() + quoted_literal(text).len()) as int,
                done.push(TokenV::String(text)),
            )
        }),
{
    let s = before + quoted_literal(text) + after;
    let i = before.len() as int;
    let head = before.push('\'');
    let tail = seq!['\''] + after;
    assert(s =~= head + doubled(text) + tail);
    lemma_literal_read(text, text.len() as int, head, tail);
    assert(text.take(text.len() as int) =~= text);
    let end = i + 1 + doubled(text).len();
    assert(s[i] == '\'');
    assert(s[end] == '\'');
    if after.len() > 0 {
        assert(s[end + 1] == after[0]);
    }
    assert(literal_text(s, end, text) == Some((text, end + 1)));
}

} // verus!
