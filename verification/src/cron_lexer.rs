use vstd::prelude::*;

verus! {

/// Errors of the CRON lexer.
#[derive(Debug, Clone, Copy, PartialEq, Eq, Structural)]
pub enum CronExpressionLexerErrors {
    /// A character (or a three-letter name) that the syntax does not know.
    UnknownCharacter,
    /// Too many fields, or too few (an expression has 5 or 6 fields).
    UnknownFieldFormat,
    /// A field other than the first holds nothing (two spaces in a row).
    EmptyField,
}

/// Kinds of lexical tokens of a CRON field.
#[derive(Debug, Clone, Copy, PartialEq, Eq, Structural)]
pub enum TokenType {
    Value(u32),
    Minus,
    Wildcard,
    ListSeparator,
    Unspecified,
    Step,
    Last,
    NearestWeekday,
    NthWeekday,
}

/// A lexical token and the character position where it was recognised (for a number, the
/// position of its last digit; for a three-letter name, the position of its first letter).
#[derive(Debug, Clone, Copy, PartialEq, Eq, Structural)]
pub struct Token {
    pub start: usize,
    pub token_type: TokenType,
}

/// An error of the lexer: its kind, the character position and the field (counted from 0).
pub type LexError = (CronExpressionLexerErrors, usize, usize);

/// Number of bytes of the UTF-8 encoding of a character.
pub open spec fn char_utf8_len(c: char) -> int {
    if (c as u32) < 0x80 {
        1
    } else if (c as u32) < 0x800 {
        2
    } else if (c as u32) < 0x10000 {
        3
    } else {
        4
    }
}

/// Number of bytes of the UTF-8 encoding of a character sequence.
pub open spec fn utf8_len(s: Seq<char>) -> int
    decreases s.len(),
{
    if s.len() == 0 {
        0
    } else {
        utf8_len(s.drop_last()) + char_utf8_len(s.last())
    }
}

pub open spec fn is_digit(c: char) -> bool {
    '0' <= c <= '9'
}

pub open spec fn digit_value(c: char) -> int {
    (c as int) - ('0' as int)
}

/// Numbers are read up to this value; a longer run of digits reads as this value, which lies
/// outside the range of every field.
pub const NUMBER_LIMIT: u32 = 100000;

/// The number read so far after one more digit `c`, held at `NUMBER_LIMIT`.
pub open spec fn push_digit(number: int, c: char) -> int {
    let n = number * 10 + digit_value(c);
    if n > NUMBER_LIMIT { NUMBER_LIMIT as int } else { n }
}

/// Whether `char::is_alphabetic` holds of a character (the Unicode `Alphabetic` property).
pub uninterp spec fn unicode_alphabetic(c: char) -> bool;

/// A letter: an ASCII letter, or any other character that `char::is_alphabetic` accepts.
pub open spec fn is_letter(c: char) -> bool {
    ('a' <= c <= 'z' || 'A' <= c <= 'Z') || unicode_alphabetic(c)
}

/// `char::is_alphabetic`.
///
/// Trusted: the contract names the result and states that among ASCII characters exactly the
/// letters are alphabetic.
#[verifier::external_body]
fn is_alphabetic(c: char) -> (r: bool)
    ensures
        r == unicode_alphabetic(c),
        (c as u32) < 0x80 ==> (r <==> ('a' <= c <= 'z' || 'A' <= c <= 'Z')),
{
    c.is_alphabetic()
}

/// The value of a three-letter day (field 5) or month (field 4) name, upper or lower case.
pub open spec fn name_value(name: Seq<char>, field_pos: int) -> Option<u32> {
    if name.len() != 3 {
        None
    } else if field_pos == 5 {
        if name == seq!['S', 'U', 'N'] || name == seq!['s', 'u', 'n'] {
            Some(1u32)
        } else if name == seq!['M', 'O', 'N'] || name == seq!['m', 'o', 'n'] {
            Some(2u32)
        } else if name == seq!['T', 'U', 'E'] || name == seq!['t', 'u', 'e'] {
            Some(3u32)
        } else if name == seq!['W', 'E', 'D'] || name == seq!['w', 'e', 'd'] {
            Some(4u32)
        } else if name == seq!['T', 'H', 'U'] || name == seq!['t', 'h', 'u'] {
            Some(5u32)
        } else if name == seq!['F', 'R', 'I'] || name == seq!['f', 'r', 'i'] {
            Some(6u32)
        } else if name == seq!['S', 'A', 'T'] || name == seq!['s', 'a', 't'] {
            Some(7u32)
        } else {
            None
        }
    } else if field_pos == 4 {
        if name == seq!['J', 'A', 'N'] || name == seq!['j', 'a', 'n'] {
            Some(1u32)
        } else if name == seq!['F', 'E', 'B'] || name == seq!['f', 'e', 'b'] {
            Some(2u32)
        } else if name == seq!['M', 'A', 'R'] || name == seq!['m', 'a', 'r'] {
            Some(3u32)
        } else if name == seq!['A', 'P', 'R'] || name == seq!['a', 'p', 'r'] {
            Some(4u32)
        } else if name == seq!['M', 'A', 'Y'] || name == seq!['m', 'a', 'y'] {
            Some(5u32)
        } else if name == seq!['J', 'U', 'N'] || name == seq!['j', 'u', 'n'] {
            Some(6u32)
        } else if name == seq!['J', 'U', 'L'] || name == seq!['j', 'u', 'l'] {
            Some(7u32)
        } else if name == seq!['A', 'U', 'G'] || name == seq!['a', 'u', 'g'] {
            Some(8u32)
        } else if name == seq!['S', 'E', 'P'] || name == seq!['s', 'e', 'p'] {
            Some(9u32)
        } else if name == seq!['O', 'C', 'T'] || name == seq!['o', 'c', 't'] {
            Some(10u32)
        } else if name == seq!['N', 'O', 'V'] || name == seq!['n', 'o', 'v'] {
            Some(11u32)
        } else if name == seq!['D', 'E', 'C'] || name == seq!['d', 'e', 'c'] {
            Some(12u32)
        } else {
            None
        }
    } else {
        None
    }
}

/// The day names in capitals, Sunday first.
pub open spec fn day_names() -> Seq<Seq<char>> {
    seq![
        seq!['S', 'U', 'N'],
        seq!['M', 'O', 'N'],
        seq!['T', 'U', 'E'],
        seq!['W', 'E', 'D'],
        seq!['T', 'H', 'U'],
        seq!['F', 'R', 'I'],
        seq!['S', 'A', 'T'],
    ]
}

/// The day names in small letters, Sunday first.
pub open spec fn day_names_lower() -> Seq<Seq<char>> {
    seq![
        seq!['s', 'u', 'n'],
        seq!['m', 'o', 'n'],
        seq!['t', 'u', 'e'],
        seq!['w', 'e', 'd'],
        seq!['t', 'h', 'u'],
        seq!['f', 'r', 'i'],
        seq!['s', 'a', 't'],
    ]
}

/// The month names in capitals, January first.
pub open spec fn month_names() -> Seq<Seq<char>> {
    seq![
        seq!['J', 'A', 'N'],
        seq!['F', 'E', 'B'],
        seq!['M', 'A', 'R'],
        seq!['A', 'P', 'R'],
        seq!['M', 'A', 'Y'],
        seq!['J', 'U', 'N'],
        seq!['J', 'U', 'L'],
        seq!['A', 'U', 'G'],
        seq!['S', 'E', 'P'],
        seq!['O', 'C', 'T'],
        seq!['N', 'O', 'V'],
        seq!['D', 'E', 'C'],
    ]
}

/// The month names in small letters, January first.
pub open spec fn month_names_lower() -> Seq<Seq<char>> {
    seq![
        seq!['j', 'a', 'n'],
        seq!['f', 'e', 'b'],
        seq!['m', 'a', 'r'],
        seq!['a', 'p', 'r'],
        seq!['m', 'a', 'y'],
        seq!['j', 'u', 'n'],
        seq!['j', 'u', 'l'],
        seq!['a', 'u', 'g'],
        seq!['s', 'e', 'p'],
        seq!['o', 'c', 't'],
        seq!['n', 'o', 'v'],
        seq!['d', 'e', 'c'],
    ]
}

/// Day names, in the day-of-week field, read as `1` (Sunday) to `7` (Saturday) in the order of
/// the week, and month names, in the month field, as `1` (January) to `12` (December), in
/// capitals or in small letters; nothing else is a name, and no other field takes names.
pub proof fn law_day_and_month_names()
    ensures
        forall|i: int|
            0 <= i < 7 ==> name_value(#[trigger] day_names()[i], 5) == Some((i + 1) as u32)
                && name_value(day_names_lower()[i], 5) == Some((i + 1) as u32),
        forall|i: int|
            0 <= i < 12 ==> name_value(#[trigger] month_names()[i], 4) == Some((i + 1) as u32)
                && name_value(month_names_lower()[i], 4) == Some((i + 1) as u32),
        forall|name: Seq<char>|
            #[trigger] name_value(name, 5) matches Some(k) ==> 1 <= k <= 7 && (name
                == day_names()[k - 1] || name == day_names_lower()[k - 1]),
        forall|name: Seq<char>|
            #[trigger] name_value(name, 4) matches Some(k) ==> 1 <= k <= 12 && (name
                == month_names()[k - 1] || name == month_names_lower()[k - 1]),
        forall|name: Seq<char>, p: int| p != 4 && p != 5 ==> #[trigger] name_value(name, p) is None,
{
    let d = day_names();
    let dl = day_names_lower();
    let m = month_names();
    let ml = month_names_lower();
    assert forall|i: int| 0 <= i < 7 implies name_value(#[trigger] day_names()[i], 5) == Some(
        (i + 1) as u32,
    ) && name_value(day_names_lower()[i], 5) == Some((i + 1) as u32) by {
        assert forall|j: int| 0 <= j < i implies d[j] != d[i] && d[j] != dl[i] && dl[j] != d[i]
            && dl[j] != dl[i] by {
            assert(d[j][0] != d[i][0] || d[j][1] != d[i][1] || d[j][2] != d[i][2]);
            assert(dl[j][0] != dl[i][0] || dl[j][1] != dl[i][1] || dl[j][2] != dl[i][2]);
            assert(d[j][0] != dl[i][0]);
            assert(dl[j][0] != d[i][0]);
        }
    }
    assert forall|i: int| 0 <= i < 12 implies name_value(#[trigger] month_names()[i], 4) == Some(
        (i + 1) as u32,
    ) && name_value(month_names_lower()[i], 4) == Some((i + 1) as u32) by {
        assert forall|j: int| 0 <= j < i implies m[j] != m[i] && m[j] != ml[i] && ml[j] != m[i]
            && ml[j] != ml[i] by {
            assert(m[j][0] != m[i][0] || m[j][1] != m[i][1] || m[j][2] != m[i][2]);
            assert(ml[j][0] != ml[i][0] || ml[j][1] != ml[i][1] || ml[j][2] != ml[i][2]);
            assert(m[j][0] != ml[i][0]);
            assert(ml[j][0] != m[i][0]);
        }
    }
}

/// The token that a single punctuation character (or `L`, `#`, and `W` when not followed by
/// `E`/`e`) stands for.
pub open spec fn symbol_token(c: char, next: Option<char>) -> Option<TokenType> {
    if c == '-' {
        Some(TokenType::Minus)
    } else if c == '*' {
        Some(TokenType::Wildcard)
    } else if c == ',' {
        Some(TokenType::ListSeparator)
    } else if c == '?' {
        Some(TokenType::Unspecified)
    } else if c == '/' {
        Some(TokenType::Step)
    } else if c == 'L' {
        Some(TokenType::Last)
    } else if c == '#' {
        Some(TokenType::NthWeekday)
    } else if c == 'W' && !(next == Some('E') || next == Some('e')) {
        Some(TokenType::NearestWeekday)
    } else {
        None
    }
}

/// State of the lexer between two characters.
pub struct LexState {
    /// Tokens of the fields already closed by a space.
    pub done: Seq<Seq<Token>>,
    /// Tokens of the field being read.
    pub cur: Seq<Token>,
    /// Value of the digits read since the last token (held at `NUMBER_LIMIT`).
    pub number: int,
    /// Position of the last digit read, while a number is being read.
    pub digit_start: Option<usize>,
    /// Letters read since the last token.
    pub buffer: Seq<char>,
}

pub open spec fn initial_lex_state() -> LexState {
    LexState { done: seq![], cur: seq![], number: 0, digit_start: None, buffer: seq![] }
}

/// Closes the number being read, if any, into a value token.
pub open spec fn flush_number(st: LexState) -> LexState {
    match st.digit_start {
        Some(d) => LexState {
            cur: st.cur.push(Token { start: d, token_type: TokenType::Value(st.number as u32) }),
            number: 0,
            digit_start: None,
            ..st
        },
        None => st,
    }
}

/// Turns a full three-letter buffer into a value token (the name ends at `position`).
pub open spec fn convert_name(st: LexState, position: int) -> Result<LexState, LexError> {
    let field_pos = st.done.len() as int;
    match name_value(st.buffer, field_pos) {
        Some(v) => Ok(
            LexState {
                cur: st.cur.push(
                    Token { start: (position - 2) as usize, token_type: TokenType::Value(v) },
                ),
                buffer: seq![],
                ..st
            },
        ),
        None => Err((CronExpressionLexerErrors::UnknownCharacter, position as usize, field_pos as usize)),
    }
}

/// One step of the lexer: reads character `c` at `position`, `next` being the character after
/// it.
pub open spec fn lex_step(st: LexState, position: int, c: char, next: Option<char>) -> Result<
    LexState,
    LexError,
> {
    let field_pos = st.done.len() as int;
    if c == ' ' {
        let st1 = LexState { number: 0, digit_start: None, ..flush_number(st) };
        let st2 = if utf8_len(st1.buffer) == 3 {
            convert_name(st1, position)
        } else if st1.buffer.len() > 0 {
            Err(
                (
                    CronExpressionLexerErrors::UnknownCharacter,
                    position as usize,
                    field_pos as usize,
                ),
            )
        } else {
            Ok(st1)
        };
        match st2 {
            Err(e) => Err(e),
            Ok(st2) => if field_pos >= 5 {
                Err(
                    (
                        CronExpressionLexerErrors::UnknownFieldFormat,
                        position as usize,
                        field_pos as usize,
                    ),
                )
            } else if st2.cur.len() == 0 && field_pos > 0 {
                Err((CronExpressionLexerErrors::EmptyField, position as usize, field_pos as usize))
            } else {
                Ok(LexState { done: st2.done.push(st2.cur), cur: seq![], ..st2 })
            },
        }
    } else if is_digit(c) {
        Ok(
            LexState {
                digit_start: Some(position as usize),
                number: push_digit(st.number, c),
                ..st
            },
        )
    } else {
        let st1 = flush_number(st);
        let tok = if st1.buffer.len() > 0 && is_letter(c) {
            None
        } else {
            symbol_token(c, next)
        };
        match tok {
            Some(tt) => Ok(
                LexState {
                    buffer: seq![],
                    cur: st1.cur.push(Token { start: position as usize, token_type: tt }),
                    ..st1
                },
            ),
            None => if is_letter(c) || st1.buffer.len() > 0 {
                let st2 = LexState { buffer: st1.buffer.push(c), ..st1 };
                if utf8_len(st2.buffer) == 3 {
                    convert_name(st2, position)
                } else {
                    Ok(st2)
                }
            } else {
                Err(
                    (
                        CronExpressionLexerErrors::UnknownCharacter,
                        position as usize,
                        field_pos as usize,
                    ),
                )
            },
        }
    }
}

/// The lexer after reading the first `n` characters of `s`.
pub open spec fn lex_prefix(s: Seq<char>, n: nat) -> Result<LexState, LexError>
    decreases n,
{
    if n == 0 {
        Ok(initial_lex_state())
    } else {
        match lex_prefix(s, (n - 1) as nat) {
            Ok(st) => lex_step(
                st,
                n - 1,
                s[n - 1],
                if n < s.len() { Some(s[n as int]) } else { None },
            ),
            Err(e) => Err(e),
        }
    }
}

/// The end of the input: checks the number of fields and leftover letters, closes a pending
/// number and pads the fields to six.
pub open spec fn lex_finish(st: LexState, byte_len: int) -> Result<Seq<Seq<Token>>, LexError> {
    let field_pos = st.done.len() as int;
    if field_pos != 5 && field_pos != 4 {
        Err(
            (
                CronExpressionLexerErrors::UnknownFieldFormat,
                (if byte_len > 0 { byte_len - 1 } else { 0 }) as usize,
                field_pos as usize,
            ),
        )
    } else if st.buffer.len() > 0 {
        Err(
            (
                CronExpressionLexerErrors::UnknownCharacter,
                (byte_len - utf8_len(st.buffer)) as usize,
                field_pos as usize,
            ),
        )
    } else {
        let cur = match st.digit_start {
            Some(d) => st.cur.push(Token { start: d, token_type: TokenType::Value(st.number as u32) }),
            None => st.cur,
        };
        let fields = st.done.push(cur);
        Ok(if fields.len() == 5 { fields.push(seq![]) } else { fields })
    }
}

/// Tokens of the six fields of a CRON expression (`s` being its characters and `byte_len` the
/// length of its UTF-8 encoding), or the first lexical error.
pub open spec fn tokenize_spec(s: Seq<char>, byte_len: int) -> Result<Seq<Seq<Token>>, LexError> {
    match lex_prefix(s, s.len()) {
        Ok(st) => lex_finish(st, byte_len),
        Err(e) => Err(e),
    }
}

pub open spec fn lex_view(
    done: Seq<Vec<Token>>,
    cur: Seq<Token>,
    number: u32,
    digit_start: Option<usize>,
    buffer: Seq<char>,
) -> LexState {
    LexState {
        done: done.map_values(|v: Vec<Token>| v@),
        cur: cur,
        number: number as int,
        digit_start: digit_start,
        buffer: buffer,
    }
}

/// `utf8_len` read from the front.
pub proof fn lemma_utf8_len_front(s: Seq<char>)
    requires
        s.len() > 0,
    ensures
        utf8_len(s) == char_utf8_len(s[0]) + utf8_len(s.drop_first()),
    decreases s.len(),
{
    if s.len() > 1 {
        lemma_utf8_len_front(s.drop_last());
        assert(s.drop_last().drop_first() =~= s.drop_first().drop_last());
    } else {
        assert(s.drop_first() =~= seq![]);
        assert(s.drop_last() =~= seq![]);
    }
}

/// `utf8_len` is the length of the UTF-8 encoding.
pub proof fn lemma_utf8_len_encoding(s: Seq<char>)
    ensures
        utf8_len(s) == vstd::utf8::encode_utf8(s).len(),
        utf8_len(s) >= s.len(),
    decreases s.len(),
{
    if s.len() > 0 {
        lemma_utf8_len_front(s);
        lemma_utf8_len_encoding(s.drop_first());
        vstd::utf8::char_is_scalar(s[0]);
    }
}

pub proof fn lemma_utf8_len_push(s: Seq<char>, c: char)
    ensures
        utf8_len(s.push(c)) == utf8_len(s) + char_utf8_len(c),
{
    assert(s.push(c).drop_last() =~= s);
}

/// Number of bytes of the UTF-8 encoding of a character, as `char::len_utf8` gives it.
fn char_len_utf8(c: char) -> (r: usize)
    ensures
        r as int == char_utf8_len(c),
{
    let v = c as u32;
    if v < 0x80 {
        1
    } else if v < 0x800 {
        2
    } else if v < 0x10000 {
        3
    } else {
        4
    }
}

/// Closes the number being read, if any, into a value token.
fn try_allocate_number(
    digit_start: &mut Option<usize>,
    current_number: &mut u32,
    tokens: &mut Vec<Token>,
)
    ensures
        match *old(digit_start) {
            Some(d) => {
                &&& final(tokens)@ == old(tokens)@.push(
                    Token { start: d, token_type: TokenType::Value(*old(current_number)) },
                )
                &&& *final(current_number) == 0
                &&& *final(digit_start) is None
            },
            None => {
                &&& final(tokens)@ == old(tokens)@
                &&& *final(current_number) == *old(current_number)
                &&& *final(digit_start) is None
            },
        },
{
    if let Some(start) = *digit_start {
        tokens.push(Token { start, token_type: TokenType::Value(*current_number) });
        *current_number = 0;
        *digit_start = None;
    }
}

fn same3(b: &Vec<char>, upper: (char, char, char), lower: (char, char, char)) -> (r: bool)
    requires
        b@.len() == 3,
    ensures
        r == (b@ == seq![upper.0, upper.1, upper.2] || b@ == seq![lower.0, lower.1, lower.2]),
{
    let r = (b[0] == upper.0 && b[1] == upper.1 && b[2] == upper.2) || (b[0] == lower.0 && b[1]
        == lower.1 && b[2] == lower.2);
    proof {
        if b@ == seq![upper.0, upper.1, upper.2] {
            assert(b@[0] == upper.0 && b@[1] == upper.1 && b@[2] == upper.2);
        }
        if b@ == seq![lower.0, lower.1, lower.2] {
            assert(b@[0] == lower.0 && b@[1] == lower.1 && b@[2] == lower.2);
        }
        if b[0] == upper.0 && b[1] == upper.1 && b[2] == upper.2 {
            assert(b@ =~= seq![upper.0, upper.1, upper.2]);
        }
        if b[0] == lower.0 && b[1] == lower.1 && b[2] == lower.2 {
            assert(b@ =~= seq![lower.0, lower.1, lower.2]);
        }
    }
    r
}

/// The value of the three-letter name held in the buffer.
fn lookup_name(b: &Vec<char>, field_pos: usize) -> (r: Option<u32>)
    ensures
        r == name_value(b@, field_pos as int),
{
    if b.len() != 3 {
        return None;
    }
    if field_pos == 5 {
        if same3(b, ('S', 'U', 'N'), ('s', 'u', 'n')) {
            Some(1)
        } else if same3(b, ('M', 'O', 'N'), ('m', 'o', 'n')) {
            Some(2)
        } else if same3(b, ('T', 'U', 'E'), ('t', 'u', 'e')) {
            Some(3)
        } else if same3(b, ('W', 'E', 'D'), ('w', 'e', 'd')) {
            Some(4)
        } else if same3(b, ('T', 'H', 'U'), ('t', 'h', 'u')) {
            Some(5)
        } else if same3(b, ('F', 'R', 'I'), ('f', 'r', 'i')) {
            Some(6)
        } else if same3(b, ('S', 'A', 'T'), ('s', 'a', 't')) {
            Some(7)
        } else {
            None
        }
    } else if field_pos == 4 {
        if same3(b, ('J', 'A', 'N'), ('j', 'a', 'n')) {
            Some(1)
        } else if same3(b, ('F', 'E', 'B'), ('f', 'e', 'b')) {
            Some(2)
        } else if same3(b, ('M', 'A', 'R'), ('m', 'a', 'r')) {
            Some(3)
        } else if same3(b, ('A', 'P', 'R'), ('a', 'p', 'r')) {
            Some(4)
        } else if same3(b, ('M', 'A', 'Y'), ('m', 'a', 'y')) {
            Some(5)
        } else if same3(b, ('J', 'U', 'N'), ('j', 'u', 'n')) {
            Some(6)
        } else if same3(b, ('J', 'U', 'L'), ('j', 'u', 'l')) {
            Some(7)
        } else if same3(b, ('A', 'U', 'G'), ('a', 'u', 'g')) {
            Some(8)
        } else if same3(b, ('S', 'E', 'P'), ('s', 'e', 'p')) {
            Some(9)
        } else if same3(b, ('O', 'C', 'T'), ('o', 'c', 't')) {
            Some(10)
        } else if same3(b, ('N', 'O', 'V'), ('n', 'o', 'v')) {
            Some(11)
        } else if same3(b, ('D', 'E', 'C'), ('d', 'e', 'c')) {
            Some(12)
        } else {
            None
        }
    } else {
        None
    }
}

/// Turns the three-letter name in the buffer, which ends at `position`, into a value token of
/// the field `field_pos` and empties the buffer.
fn constant_to_numeric(
    char_buffer: &mut Vec<char>,
    field_pos: usize,
    position: usize,
    tokens: &mut Vec<Token>,
) -> (r: Result<(), LexError>)
    requires
        old(char_buffer)@.len() <= position + 1,
    ensures
        match name_value(old(char_buffer)@, field_pos as int) {
            Some(v) => {
                &&& r is Ok
                &&& final(tokens)@ == old(tokens)@.push(
                    Token { start: (position - 2) as usize, token_type: TokenType::Value(v) },
                )
                &&& final(char_buffer)@ == Seq::<char>::empty()
            },
            None => {
                &&& r == Err::<(), LexError>(
                    (CronExpressionLexerErrors::UnknownCharacter, position, field_pos),
                )
                &&& final(tokens)@ == old(tokens)@
                &&& final(char_buffer)@ == old(char_buffer)@
            },
        },
{
    let num = match lookup_name(char_buffer, field_pos) {
        Some(v) => v,
        None => {
            return Err((CronExpressionLexerErrors::UnknownCharacter, position, field_pos));
        },
    };
    tokens.push(Token { start: position - 2, token_type: TokenType::Value(num) });
    char_buffer.clear();
    Ok(())
}

/// `utf8_len` of a prefix grows by the length of the next character.
pub proof fn lemma_utf8_len_take(s: Seq<char>, k: int)
    requires
        0 <= k < s.len(),
    ensures
        utf8_len(s.take(k + 1)) == utf8_len(s.take(k)) + char_utf8_len(s[k]),
{
    assert(s.take(k + 1) =~= s.take(k).push(s[k]));
    lemma_utf8_len_push(s.take(k), s[k]);
}

/// A prefix is no longer, in bytes, than the whole sequence.
pub proof fn lemma_utf8_len_prefix(s: Seq<char>, k: int)
    requires
        0 <= k <= s.len(),
    ensures
        utf8_len(s.take(k)) <= utf8_len(s),
    decreases s.len() - k,
{
    if k < s.len() {
        lemma_utf8_len_take(s, k);
        lemma_utf8_len_prefix(s, k + 1);
    } else {
        assert(s.take(k) =~= s);
    }
}

/// Once the lexer has failed, it stays failed with the same error.
pub proof fn lemma_lex_error_persists(s: Seq<char>, k: nat, m: nat)
    requires
        k <= m,
        lex_prefix(s, k) is Err,
    ensures
        lex_prefix(s, m) == lex_prefix(s, k),
    decreases m - k,
{
    if k < m {
        lemma_lex_error_persists(s, k, (m - 1) as nat);
    }
}

/// Tokens pending in a lexer state: those of the current field, plus one for a number or a
/// name being read.
pub open spec fn pending_tokens(st: LexState) -> int {
    st.cur.len() + (if st.digit_start is Some { 1int } else { 0 }) + (if st.buffer.len() > 0 {
        1int
    } else {
        0
    })
}

/// After `n` characters, no field holds more tokens than `n`, counting those pending.
pub open spec fn tokens_bounded(st: LexState, n: int) -> bool {
    &&& pending_tokens(st) <= n
    &&& forall|i: int| 0 <= i < st.done.len() ==> (#[trigger] st.done[i]).len() <= n
}

proof fn lemma_lex_step_bounded(st: LexState, position: int, c: char, next: Option<char>)
    requires
        position >= 0,
        tokens_bounded(st, position),
        lex_step(st, position, c, next) is Ok,
    ensures
        tokens_bounded(lex_step(st, position, c, next)->Ok_0, position + 1),
{
    let r = lex_step(st, position, c, next)->Ok_0;
    let f = flush_number(st);
    assert(pending_tokens(f) <= pending_tokens(st));
    if c == ' ' {
        assert(forall|i: int| 0 <= i < r.done.len() ==> (#[trigger] r.done[i]).len() <= position
            + 1);
    } else if is_digit(c) {
    } else {
        let tok = if f.buffer.len() > 0 && is_letter(c) {
            None
        } else {
            symbol_token(c, next)
        };
        match tok {
            Some(tt) => {},
            None => {
                let st2 = LexState { buffer: f.buffer.push(c), ..f };
                assert(pending_tokens(st2) <= pending_tokens(st) + 1);
            },
        }
    }
}

proof fn lemma_lex_prefix_bounded(s: Seq<char>, n: nat)
    requires
        n <= s.len(),
        lex_prefix(s, n) is Ok,
    ensures
        tokens_bounded(lex_prefix(s, n)->Ok_0, n as int),
    decreases n,
{
    if n > 0 {
        let prev = lex_prefix(s, (n - 1) as nat);
        if prev is Err {
            lemma_lex_error_persists(s, (n - 1) as nat, n);
        } else {
            lemma_lex_prefix_bounded(s, (n - 1) as nat);
            lemma_lex_step_bounded(
                prev->Ok_0,
                n - 1,
                s[n - 1],
                if n < s.len() { Some(s[n as int]) } else { None },
            );
        }
    }
}

/// No field of a lexed expression holds more tokens than the expression has characters.
pub proof fn lemma_field_tokens_bounded(s: Seq<char>, byte_len: int)
    requires
        tokenize_spec(s, byte_len) is Ok,
    ensures
        forall|i: int|
            0 <= i < tokenize_spec(s, byte_len)->Ok_0.len() ==> (
            #[trigger] tokenize_spec(s, byte_len)->Ok_0[i]).len() <= s.len(),
{
    lemma_lex_prefix_bounded(s, s.len());
    let st = lex_prefix(s, s.len())->Ok_0;
    let fields = tokenize_spec(s, byte_len)->Ok_0;
    let cur = match st.digit_start {
        Some(d) => st.cur.push(Token { start: d, token_type: TokenType::Value(st.number as u32) }),
        None => st.cur,
    };
    assert(cur.len() <= s.len());
    let pushed = st.done.push(cur);
    assert forall|i: int| 0 <= i < fields.len() implies (#[trigger] fields[i]).len() <= s.len() by {
        if i < pushed.len() {
            assert(fields[i] == pushed[i]);
            if i < st.done.len() {
                assert(pushed[i] == st.done[i]);
            }
        }
    }
}

/// The token for a punctuation character (see `symbol_token`).
fn symbol_token_of(c: char, next: Option<char>) -> (r: Option<TokenType>)
    ensures
        r == symbol_token(c, next),
{
    let w_ok = match next {
        Some(nc) => !(nc == 'E' || nc == 'e'),
        None => true,
    };
    if c == '-' {
        Some(TokenType::Minus)
    } else if c == '*' {
        Some(TokenType::Wildcard)
    } else if c == ',' {
        Some(TokenType::ListSeparator)
    } else if c == '?' {
        Some(TokenType::Unspecified)
    } else if c == '/' {
        Some(TokenType::Step)
    } else if c == 'L' {
        Some(TokenType::Last)
    } else if c == '#' {
        Some(TokenType::NthWeekday)
    } else if c == 'W' && w_ok {
        Some(TokenType::NearestWeekday)
    } else {
        None
    }
}

/// Splits a CRON expression into the tokens of its six fields (seconds, minutes, hours, day of
/// month, month, day of week); a five-field expression leaves the last one empty.
pub fn tokenize_fields(s: &str) -> (r: Result<Vec<Vec<Token>>, LexError>)
    requires
        utf8_len(s@) <= usize::MAX,
    ensures
        match tokenize_spec(s@, utf8_len(s@)) {
            Ok(fields) => r matches Ok(v) && v@.len() == 6 && fields.len() == 6 && forall|i: int|
                0 <= i < 6 ==> (#[trigger] v@[i])@ == fields[i],
            Err(e) => r == Err::<Vec<Vec<Token>>, LexError>(e),
        },
{
    let n = s.unicode_len();
    proof {
        lemma_utf8_len_encoding(s@);
    }
    let mut done: Vec<Vec<Token>> = Vec::new();
    let mut cur: Vec<Token> = Vec::new();
    let mut current_number: u32 = 0;
    let mut char_buffer: Vec<char> = Vec::new();
    let mut buf_bytes: usize = 0;
    let mut digit_start: Option<usize> = None;
    let mut i: usize = 0;
    proof {
        assert(done@.map_values(|v: Vec<Token>| v@) =~= Seq::<Seq<Token>>::empty());
        assert(s@.take(0) =~= Seq::<char>::empty());
    }
    while i < n
        invariant
            n == s@.len(),
            0 <= i <= n,
            s.len() == utf8_len(s@),
            lex_prefix(s@, i as nat) == Ok::<LexState, LexError>(
                lex_view(done@, cur@, current_number, digit_start, char_buffer@),
            ),
            buf_bytes == utf8_len(char_buffer@),
            char_buffer@.len() <= i,
            utf8_len(char_buffer@) <= utf8_len(s@.take(i as int)),
            done@.len() <= 5,
            digit_start matches Some(d) ==> d == i - 1,
            current_number <= NUMBER_LIMIT,
            digit_start is None ==> current_number == 0,
        decreases n - i,
    {
        let c = s.get_char(i);
        let next = if i + 1 < n {
            Some(s.get_char(i + 1))
        } else {
            None
        };
        let ghost st = lex_view(done@, cur@, current_number, digit_start, char_buffer@);
        proof {
            assert(next == (if i + 1 < s@.len() { Some(s@[i + 1]) } else { None::<char> }));
            lemma_utf8_len_take(s@, i as int);
            lemma_utf8_len_prefix(s@, i as int + 1);
            assert(lex_prefix(s@, (i + 1) as nat) == lex_step(st, i as int, c, next));
            if lex_step(st, i as int, c, next) is Err {
                lemma_lex_error_persists(s@, (i + 1) as nat, n as nat);
            }
        }
        if c == ' ' {
            try_allocate_number(&mut digit_start, &mut current_number, &mut cur);
            digit_start = None;
            current_number = 0;
            let ghost st1 = lex_view(done@, cur@, current_number, digit_start, char_buffer@);
            assert(st1 == LexState { number: 0, digit_start: None, ..flush_number(st) });
            if buf_bytes == 3 {
                let res = constant_to_numeric(&mut char_buffer, done.len(), i, &mut cur);
                match res {
                    Err(e) => {
                        return Err(e);
                    },
                    Ok(()) => {},
                }
                buf_bytes = 0;
            } else if char_buffer.len() > 0 {
                return Err((CronExpressionLexerErrors::UnknownCharacter, i, done.len()));
            }
            if done.len() >= 5 {
                return Err((CronExpressionLexerErrors::UnknownFieldFormat, i, done.len()));
            }
            if cur.len() == 0 && done.len() > 0 {
                return Err((CronExpressionLexerErrors::EmptyField, i, done.len()));
            }
            let ghost done_before = done@;
            let mut finished: Vec<Token> = Vec::new();
            std::mem::swap(&mut finished, &mut cur);
            done.push(finished);
            proof {
                assert(done@.map_values(|v: Vec<Token>| v@) =~= done_before.map_values(
                    |v: Vec<Token>| v@,
                ).push(finished@));
            }
            i += 1;
            continue;
        }
        if '0' <= c && c <= '9' {
            let d = c as u32 - '0' as u32;
            let number = current_number * 10 + d;
            current_number = if number > NUMBER_LIMIT {
                NUMBER_LIMIT
            } else {
                number
            };
            digit_start = Some(i);
            i += 1;
            continue;
        }
        try_allocate_number(&mut digit_start, &mut current_number, &mut cur);
        let letter = is_alphabetic(c);
        proof {
            assert(letter == is_letter(c));
        }
        let token_type = if char_buffer.len() > 0 && letter {
            None
        } else {
            symbol_token_of(c, next)
        };
        match token_type {
            Some(tt) => {
                char_buffer.clear();
                buf_bytes = 0;
                cur.push(Token { start: i, token_type: tt });
            },
            None => {
                if letter || char_buffer.len() > 0 {
                    let ghost buf_before = char_buffer@;
                    char_buffer.push(c);
                    buf_bytes = buf_bytes + char_len_utf8(c);
                    proof {
                        lemma_utf8_len_push(buf_before, c);
                    }
                    if buf_bytes == 3 {
                        let res = constant_to_numeric(&mut char_buffer, done.len(), i, &mut cur);
                        match res {
                            Err(e) => {
                                return Err(e);
                            },
                            Ok(()) => {},
                        }
                        buf_bytes = 0;
                    }
                } else {
                    return Err((CronExpressionLexerErrors::UnknownCharacter, i, done.len()));
                }
            },
        }
        i += 1;
    }
    proof {
        assert(s@.take(n as int) =~= s@);
    }
    if done.len() != 5 && done.len() != 4 {
        let position = if s.len() > 0 {
            s.len() - 1
        } else {
            0
        };
        return Err((CronExpressionLexerErrors::UnknownFieldFormat, position, done.len()));
    }
    if char_buffer.len() > 0 {
        return Err((CronExpressionLexerErrors::UnknownCharacter, s.len() - buf_bytes, done.len()));
    }
    if let Some(start) = digit_start {
        cur.push(Token { start, token_type: TokenType::Value(current_number) });
    }
    let ghost done_before = done@;
    done.push(cur);
    proof {
        assert(done@.map_values(|v: Vec<Token>| v@) =~= done_before.map_values(|v: Vec<Token>| v@).push(
            cur@,
        ));
    }
    if done.len() == 5 {
        let ghost done_before2 = done@;
        done.push(Vec::new());
        proof {
            assert(done@.map_values(|v: Vec<Token>| v@) =~= done_before2.map_values(
                |v: Vec<Token>| v@,
            ).push(Seq::<Token>::empty()));
        }
    }
    Ok(done)
}

} // verus!
