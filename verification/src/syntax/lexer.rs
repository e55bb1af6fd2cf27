//! From source text to tokens.
use vstd::prelude::*;
use crate::common::{lemma_views_push, str_eq, views};
use crate::syntax::token::{
    lex_operator, operator_of, LexError, Lexeme, LexemeView, Span, Token, TokenView,
};

verus! {

pub open spec fn is_digit(c: char) -> bool {
    '0' as u32 <= c as u32 <= '9' as u32
}

pub open spec fn is_letter(c: char) -> bool {
    ||| 'a' as u32 <= c as u32 <= 'z' as u32
    ||| 'A' as u32 <= c as u32 <= 'Z' as u32
    ||| c == '_'
}

pub open spec fn is_space(c: char) -> bool {
    c == ' ' || c == '\t' || c == '\n' || c == '\r'
}

/// Where the digits that start at `from` end.
pub open spec fn digits_end(s: Seq<char>, from: int) -> int
    decreases s.len() - from,
{
    if 0 <= from < s.len() && is_digit(s[from]) {
        digits_end(s, from + 1)
    } else {
        from
    }
}

/// Where the letters and digits that start at `from` end.
pub open spec fn word_end(s: Seq<char>, from: int) -> int
    decreases s.len() - from,
{
    if 0 <= from < s.len() && (is_letter(s[from]) || is_digit(s[from])) {
        word_end(s, from + 1)
    } else {
        from
    }
}

/// Where the blanks that start at `from` end.
pub open spec fn spaces_end(s: Seq<char>, from: int) -> int
    decreases s.len() - from,
{
    if 0 <= from < s.len() && is_space(s[from]) {
        spaces_end(s, from + 1)
    } else {
        from
    }
}

/// Where the first quote from `from` on stands; the length of the text if
/// there is none.
pub open spec fn quote_position(s: Seq<char>, from: int) -> int
    decreases s.len() - from,
{
    if 0 <= from < s.len() && s[from] != '"' {
        quote_position(s, from + 1)
    } else {
        from
    }
}

/// The number that decimal digits spell.
pub open spec fn digits_value(digits: Seq<char>) -> nat
    decreases digits.len(),
{
    if digits.len() == 0 {
        0
    } else {
        digits_value(digits.drop_last()) * 10 + (digits.last() as u32 - '0' as u32) as nat
    }
}

/// The token that starts at `pos` with a digit, or with a minus before a
/// digit, and where it ends. A number with a fraction is an error, for the
/// numbers of the language are whole; so is a number too large for them.
pub open spec fn number_at(s: Seq<char>, pos: int) -> (TokenView, int) {
    let negative = s[pos] == '-';
    let first = if negative {
        pos + 1
    } else {
        pos
    };
    let end = digits_end(s, first);
    if end + 1 < s.len() && s[end] == '.' && is_digit(s[end + 1]) {
        let fraction_end = digits_end(s, end + 1);
        if fraction_end + 1 < s.len() && s[fraction_end] == '.' && is_digit(s[fraction_end + 1]) {
            (TokenView::Error(LexError::TooMuchDots), digits_end(s, fraction_end + 1))
        } else {
            (TokenView::Error(LexError::InvalidNumber), fraction_end)
        }
    } else {
        let magnitude = digits_value(s.subrange(first, end));
        let value = if negative {
            -magnitude
        } else {
            magnitude as int
        };
        if i64::MIN <= value <= i64::MAX {
            (TokenView::Number(value as i64), end)
        } else {
            (TokenView::Error(LexError::InvalidNumber), end)
        }
    }
}

/// The token that a word is: an operator, a literal or a name.
pub open spec fn word_token(text: Seq<char>) -> TokenView {
    match operator_of(text) {
        Some(operator) => TokenView::Operator(operator),
        None => if text == "true"@ {
            TokenView::Bool(true)
        } else if text == "false"@ {
            TokenView::Bool(false)
        } else if text == "null"@ {
            TokenView::Null
        } else {
            TokenView::Identifier(text)
        },
    }
}

/// The token that starts at `pos` with a character that is no digit, no
/// letter, no quote and no blank, and where it ends: the longest operator
/// that is spelled there.
pub open spec fn symbol_at(s: Seq<char>, pos: int) -> (TokenView, int) {
    if pos + 2 <= s.len() && operator_of(s.subrange(pos, pos + 2)) is Some {
        (TokenView::Operator(operator_of(s.subrange(pos, pos + 2)).unwrap()), pos + 2)
    } else {
        match operator_of(s.subrange(pos, pos + 1)) {
            Some(operator) => (TokenView::Operator(operator), pos + 1),
            None => (TokenView::Error(LexError::UnknownCharacter), pos + 1),
        }
    }
}

/// The token that starts at `pos` with a quote, and where it ends.
pub open spec fn text_at(s: Seq<char>, pos: int) -> (TokenView, int) {
    let close = quote_position(s, pos + 1);
    if close < s.len() {
        (TokenView::Text(s.subrange(pos + 1, close)), close + 1)
    } else {
        (TokenView::Error(LexError::UnterminatedText), s.len() as int)
    }
}

/// A number starts at `pos`.
pub open spec fn starts_number(s: Seq<char>, pos: int) -> bool {
    is_digit(s[pos]) || (s[pos] == '-' && pos + 1 < s.len() && is_digit(s[pos + 1]))
}

/// The token that starts at `pos`, where no blank stands, and where it
/// ends.
pub open spec fn token_at(s: Seq<char>, pos: int) -> (TokenView, int) {
    if starts_number(s, pos) {
        number_at(s, pos)
    } else if is_letter(s[pos]) {
        (word_token(s.subrange(pos, word_end(s, pos))), word_end(s, pos))
    } else if s[pos] == '"' {
        text_at(s, pos)
    } else {
        symbol_at(s, pos)
    }
}

/// The tokens of the text from `pos` on, each with its place, and the end
/// of the text as the last of them.
pub open spec fn lexemes(s: Seq<char>, pos: int) -> Seq<LexemeView>
    decreases s.len() - pos,
{
    let start = spaces_end(s, pos);
    if pos < 0 || start >= s.len() || start < pos {
        seq![
            LexemeView {
                token: TokenView::Eof,
                span: Span { start: s.len() as usize, end: s.len() as usize },
            },
        ]
    } else {
        let (token, end) = token_at(s, start);
        if end <= start || end > s.len() {
            Seq::empty()
        } else {
            seq![LexemeView { token, span: Span { start: start as usize, end: end as usize } }]
                + lexemes(s, end)
        }
    }
}

/// A run that starts at `from` ends at or behind `from` and within the
/// text.
pub proof fn lemma_run_bounds(s: Seq<char>, from: int)
    requires
        0 <= from <= s.len(),
    ensures
        from <= digits_end(s, from) <= s.len(),
        from <= word_end(s, from) <= s.len(),
        from <= spaces_end(s, from) <= s.len(),
        from <= quote_position(s, from) <= s.len(),
    decreases s.len() - from,
{
    if from < s.len() {
        lemma_run_bounds(s, from + 1);
    }
}

/// Every token takes at least one character and ends within the text.
pub proof fn lemma_token_advances(s: Seq<char>, pos: int)
    requires
        0 <= pos < s.len(),
    ensures
        pos < token_at(s, pos).1 <= s.len(),
{
    lemma_run_bounds(s, pos);
    lemma_run_bounds(s, pos + 1);
    if starts_number(s, pos) {
        let first = if s[pos] == '-' {
            pos + 1
        } else {
            pos
        };
        lemma_run_bounds(s, first);
        lemma_run_bounds(s, first + 1);
        let end = digits_end(s, first);
        assert(end > first);
        if end + 1 < s.len() {
            lemma_run_bounds(s, end + 1);
            let fraction_end = digits_end(s, end + 1);
            if fraction_end + 1 < s.len() {
                lemma_run_bounds(s, fraction_end + 1);
            }
        }
    }
}

/// The characters of a text.
pub fn characters(source: &str) -> (chars: Vec<char>)
    ensures
        chars@ == source@,
{
    let mut chars: Vec<char> = Vec::new();
    for c in it: source.chars()
        invariant
            it.seq() == source@,
            chars@ == it.seq().take(it.index() as int),
    {
        chars.push(c);
    }
    proof {
        assert(chars@ =~= source@);
    }
    chars
}

/// Tells whether a character is a decimal digit.
pub fn digit(c: char) -> (yes: bool)
    ensures
        yes == is_digit(c),
{
    '0' as u32 <= c as u32 && c as u32 <= '9' as u32
}

/// Tells whether a character is a letter or an underscore.
pub fn letter(c: char) -> (yes: bool)
    ensures
        yes == is_letter(c),
{
    ('a' as u32 <= c as u32 && c as u32 <= 'z' as u32) || ('A' as u32 <= c as u32 && c as u32
        <= 'Z' as u32) || c == '_'
}

/// Tells whether a character is a blank.
pub fn space(c: char) -> (yes: bool)
    ensures
        yes == is_space(c),
{
    c == ' ' || c == '\t' || c == '\n' || c == '\r'
}

/// Where the digits that start at `from` end.
pub fn scan_digits(chars: &Vec<char>, from: usize) -> (end: usize)
    requires
        from <= chars@.len(),
    ensures
        end == digits_end(chars@, from as int),
        from <= end <= chars@.len(),
{
    let mut end = from;
    while end < chars.len() && digit(chars[end])
        invariant
            from <= end <= chars@.len(),
            digits_end(chars@, from as int) == digits_end(chars@, end as int),
        decreases chars@.len() - end,
    {
        end += 1;
    }
    end
}

/// The number that the digits from `first` up to `end` spell, if it is at
/// most `limit`.
pub fn number_value(chars: &Vec<char>, first: usize, end: usize, limit: u64) -> (value: Option<
    u64,
>)
    requires
        first <= end <= chars@.len(),
        forall|i: int| first <= i < end ==> is_digit(chars@[i]),
    ensures
        value == if digits_value(chars@.subrange(first as int, end as int)) <= limit {
            Some(digits_value(chars@.subrange(first as int, end as int)) as u64)
        } else {
            None::<u64>
        },
{
    let mut value: u64 = 0;
    let mut i = first;
    while i < end
        invariant
            first <= i <= end <= chars@.len(),
            forall|k: int| first <= k < end ==> is_digit(chars@[k]),
            value == digits_value(chars@.subrange(first as int, i as int)),
            value <= limit,
        decreases end - i,
    {
        let d = (chars[i] as u32 - '0' as u32) as u64;
        proof {
            assert(chars@.subrange(first as int, i + 1).drop_last() =~= chars@.subrange(
                first as int,
                i as int,
            ));
            lemma_digits_value_grows(chars@, first as int, i + 1, end as int);
        }
        let next = match value.checked_mul(10) {
            Some(tenfold) => tenfold.checked_add(d),
            None => None,
        };
        match next {
            Some(next) => {
                if next > limit {
                    return None;
                }
                value = next;
            },
            None => {
                return None;
            },
        }
        i += 1;
    }
    Some(value)
}

/// More digits spell no smaller number.
pub proof fn lemma_digits_value_grows(s: Seq<char>, first: int, middle: int, end: int)
    requires
        0 <= first <= middle <= end <= s.len(),
    ensures
        digits_value(s.subrange(first, middle)) <= digits_value(s.subrange(first, end)),
    decreases end - middle,
{
    if middle < end {
        lemma_digits_value_grows(s, first, middle, end - 1);
        assert(s.subrange(first, end).drop_last() =~= s.subrange(first, end - 1));
    }
}

/// The token that starts at `pos` with a digit or with a minus before a
/// digit, and where it ends.
pub fn lex_number(chars: &Vec<char>, pos: usize) -> (result: (Token, usize))
    requires
        pos < chars@.len(),
        starts_number(chars@, pos as int),
    ensures
        result.0@ == number_at(chars@, pos as int).0,
        result.1 == number_at(chars@, pos as int).1,
{
    let len = chars.len();
    let negative = chars[pos] == '-';
    let first = if negative {
        pos + 1
    } else {
        pos
    };
    let end = scan_digits(chars, first);
    if len - end > 1 && chars[end] == '.' && digit(chars[end + 1]) {
        let fraction_end = scan_digits(chars, end + 1);
        if len - fraction_end > 1 && chars[fraction_end] == '.' && digit(chars[fraction_end + 1]) {
            return (Token::Error(LexError::TooMuchDots), scan_digits(chars, fraction_end + 1));
        }
        return (Token::Error(LexError::InvalidNumber), fraction_end);
    }
    proof {
        lemma_digits_are_digits(chars@, first as int);
    }
    let limit: u64 = if negative {
        0x8000_0000_0000_0000
    } else {
        0x7fff_ffff_ffff_ffff
    };
    match number_value(chars, first, end, limit) {
        Some(magnitude) => {
            let number: i64 = if negative {
                if magnitude == 0x8000_0000_0000_0000 {
                    i64::MIN
                } else {
                    -(magnitude as i64)
                }
            } else {
                magnitude as i64
            };
            (Token::Number(number), end)
        },
        None => (Token::Error(LexError::InvalidNumber), end),
    }
}

/// What stands before the end of a run of digits is digits.
pub proof fn lemma_digits_are_digits(s: Seq<char>, from: int)
    requires
        0 <= from <= s.len(),
    ensures
        forall|i: int| from <= i < digits_end(s, from) ==> is_digit(s[i]),
    decreases s.len() - from,
{
    if from < s.len() && is_digit(s[from]) {
        lemma_digits_are_digits(s, from + 1);
    }
}

/// The tokens of `source`, each with its place, and the end of the text as
/// the last of them.
pub fn lex(source: &str) -> (tokens: Vec<Lexeme>)
    ensures
        views(tokens@) == lexemes(source@, 0),
{
    let chars = characters(source);
    let len = chars.len();
    let mut tokens: Vec<Lexeme> = Vec::new();
    let mut pos: usize = 0;
    proof {
        assert(views(tokens@) =~= Seq::<LexemeView>::empty());
    }
    loop
        invariant
            pos <= len,
            len == chars@.len(),
            chars@ == source@,
            views(tokens@) + lexemes(chars@, pos as int) == lexemes(chars@, 0),
        decreases len - pos,
    {
        let mut start = pos;
        while start < len && space(chars[start])
            invariant
                pos <= start <= len,
                len == chars@.len(),
                spaces_end(chars@, pos as int) == spaces_end(chars@, start as int),
            decreases len - start,
        {
            start += 1;
        }
        if start >= len {
            let eof = Lexeme { token: Token::Eof, span: Span { start: len, end: len } };
            proof {
                lemma_views_push(tokens@, eof);
                assert(views(tokens@) + seq![eof@] =~= views(tokens@).push(eof@));
            }
            tokens.push(eof);
            return tokens;
        }
        proof {
            lemma_token_advances(chars@, start as int);
            lemma_run_bounds(chars@, start as int);
            lemma_run_bounds(chars@, start + 1);
        }
        let first = chars[start];
        let (token, end) = if digit(first) || (first == '-' && len - start > 1 && digit(
            chars[start + 1],
        )) {
            lex_number(&chars, start)
        } else if letter(first) {
            let mut end = start;
            while end < len && (letter(chars[end]) || digit(chars[end]))
                invariant
                    start <= end <= len,
                    len == chars@.len(),
                    word_end(chars@, start as int) == word_end(chars@, end as int),
                decreases len - end,
            {
                end += 1;
            }
            let word = source.substring_char(start, end);
            let token = match lex_operator(word) {
                Some(operator) => Token::Operator(operator),
                None => if str_eq(word, "true") {
                    Token::Bool(true)
                } else if str_eq(word, "false") {
                    Token::Bool(false)
                } else if str_eq(word, "null") {
                    Token::Null
                } else {
                    Token::Identifier(word.to_owned())
                },
            };
            (token, end)
        } else if first == '"' {
            let mut close = start + 1;
            while close < len && chars[close] != '"'
                invariant
                    start < close <= len,
                    len == chars@.len(),
                    quote_position(chars@, start + 1) == quote_position(chars@, close as int),
                decreases len - close,
            {
                close += 1;
            }
            if close < len {
                (Token::Text(source.substring_char(start + 1, close).to_owned()), close + 1)
            } else {
                (Token::Error(LexError::UnterminatedText), len)
            }
        } else {
            let long = if len - start >= 2 {
                lex_operator(source.substring_char(start, start + 2))
            } else {
                None
            };
            match long {
                Some(operator) => (Token::Operator(operator), start + 2),
                None => match lex_operator(source.substring_char(start, start + 1)) {
                    Some(operator) => (Token::Operator(operator), start + 1),
                    None => (Token::Error(LexError::UnknownCharacter), start + 1),
                },
            }
        };
        let lexeme = Lexeme { token, span: Span { start, end } };
        proof {
            lemma_views_push(tokens@, lexeme);
            assert(lexemes(chars@, pos as int) == seq![lexeme@] + lexemes(chars@, end as int));
            assert(views(tokens@) + (seq![lexeme@] + lexemes(chars@, end as int)) =~= views(
                tokens@,
            ).push(lexeme@) + lexemes(chars@, end as int));
        }
        tokens.push(lexeme);
        pos = end;
    }
}

} // verus!
