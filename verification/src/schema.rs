//! The `.nxs` schema language.
//!
//! A schema file is a sequence of struct definitions:
//!
//! ```text
//! # comment up to the end of the line
//! struct GameInfo {
//!     player_id : u32
//!     samples   : [f32; 8]
//!     payload   : bytes(16)
//!     label     : string(32)
//!     origin    : Vec2
//! }
//! ```
//!
//! Lexically the text is a sequence of tokens separated by blanks (space,
//! tab, carriage return, line feed) and comments (`#` up to the end of the
//! line). A token is a word (an ASCII letter or `_`, then ASCII letters,
//! digits and `_`), a number (ASCII digits) or one of `{ } : [ ] ; ( )`.
//! Any other character is an error.
//!
//! Grammar over the tokens:
//!
//! ```text
//! file       := struct_def*
//! struct_def := "struct" word "{" field_def* "}"
//! field_def  := word ":" field_type
//! field_type := primitive                      (u8 u16 u32 u64 i8 i16 i32 i64 f32 f64 bool)
//!             | "bytes" "(" number ")"
//!             | "string" "(" number ")"
//!             | "[" field_type ";" number "]"
//!             | word                           (a nested struct type)
//! ```

use vstd::prelude::*;

use crate::error::{NexusCoreError, NexusCoreErrorV};
use crate::text::chars_of;
use crate::types::{Field, FieldType, FieldTypeV, StructDef};

verus! {

// ---------------------------------------------------------------------------
// Lexical structure
// ---------------------------------------------------------------------------

/// A token of the schema language.
pub enum SpecToken {
    Word(Seq<char>),
    Number(nat),
    Symbol(char),
}

pub open spec fn is_blank(c: char) -> bool {
    c == ' ' || c == '\t' || c == '\n' || c == '\r'
}

pub open spec fn is_word_start(c: char) -> bool {
    ('a' <= c && c <= 'z') || ('A' <= c && c <= 'Z') || c == '_'
}

pub open spec fn is_digit(c: char) -> bool {
    '0' <= c && c <= '9'
}

pub open spec fn is_word_char(c: char) -> bool {
    is_word_start(c) || is_digit(c)
}

pub open spec fn is_symbol(c: char) -> bool {
    c == '{' || c == '}' || c == ':' || c == '[' || c == ']' || c == ';' || c == '(' || c == ')'
}

/// The end of the run of word characters that starts at `i`.
pub open spec fn word_end(s: Seq<char>, i: int) -> int
    decreases s.len() - i,
{
    if 0 <= i < s.len() && is_word_char(s[i]) {
        word_end(s, i + 1)
    } else {
        i
    }
}

/// The end of the run of digits that starts at `i`.
pub open spec fn digits_end(s: Seq<char>, i: int) -> int
    decreases s.len() - i,
{
    if 0 <= i < s.len() && is_digit(s[i]) {
        digits_end(s, i + 1)
    } else {
        i
    }
}

/// The position of the first line feed at or after `i`, or the end of `s`.
pub open spec fn line_end(s: Seq<char>, i: int) -> int
    decreases s.len() - i,
{
    if 0 <= i < s.len() && s[i] != '\n' {
        line_end(s, i + 1)
    } else {
        i
    }
}

/// The decimal value of a sequence of digits.
pub open spec fn digits_value(d: Seq<char>) -> nat
    decreases d.len(),
{
    if d.len() == 0 {
        0
    } else {
        digits_value(d.drop_last()) * 10 + ((d.last() as int) - ('0' as int)) as nat
    }
}

pub proof fn lemma_word_end(s: Seq<char>, i: int)
    requires
        0 <= i <= s.len(),
    ensures
        i <= word_end(s, i) <= s.len(),
        forall|k: int| i <= k < word_end(s, i) ==> is_word_char(#[trigger] s[k]),
        word_end(s, i) < s.len() ==> !is_word_char(s[word_end(s, i)]),
    decreases s.len() - i,
{
    if i < s.len() && is_word_char(s[i]) {
        lemma_word_end(s, i + 1);
    }
}

pub proof fn lemma_digits_end(s: Seq<char>, i: int)
    requires
        0 <= i <= s.len(),
    ensures
        i <= digits_end(s, i) <= s.len(),
        forall|k: int| i <= k < digits_end(s, i) ==> is_digit(#[trigger] s[k]),
        digits_end(s, i) < s.len() ==> !is_digit(s[digits_end(s, i)]),
    decreases s.len() - i,
{
    if i < s.len() && is_digit(s[i]) {
        lemma_digits_end(s, i + 1);
    }
}

pub proof fn lemma_line_end(s: Seq<char>, i: int)
    requires
        0 <= i <= s.len(),
    ensures
        i <= line_end(s, i) <= s.len(),
        line_end(s, i) < s.len() ==> s[line_end(s, i)] == '\n',
        forall|k: int| i <= k < line_end(s, i) ==> #[trigger] s[k] != '\n',
    decreases s.len() - i,
{
    if i < s.len() && s[i] != '\n' {
        lemma_line_end(s, i + 1);
    }
}

/// The tokens of `s` from position `i` on, or `None` when a character that
/// belongs to no token, blank or comment occurs.
pub open spec fn lex_from(s: Seq<char>, i: int) -> Option<Seq<SpecToken>>
    decreases s.len() - i,
{
    if i < 0 || i >= s.len() {
        Some(Seq::empty())
    } else if is_blank(s[i]) {
        lex_from(s, i + 1)
    } else if s[i] == '#' {
        proof {
            lemma_line_end(s, i);
        }
        lex_from(s, line_end(s, i))
    } else if is_word_start(s[i]) {
        proof {
            lemma_word_end(s, i);
        }
        let j = word_end(s, i);
        match lex_from(s, j) {
            Some(rest) => Some(seq![SpecToken::Word(s.subrange(i, j))] + rest),
            None => None,
        }
    } else if is_digit(s[i]) {
        proof {
            lemma_digits_end(s, i);
        }
        let j = digits_end(s, i);
        match lex_from(s, j) {
            Some(rest) => Some(seq![SpecToken::Number(digits_value(s.subrange(i, j)))] + rest),
            None => None,
        }
    } else if is_symbol(s[i]) {
        match lex_from(s, i + 1) {
            Some(rest) => Some(seq![SpecToken::Symbol(s[i])] + rest),
            None => None,
        }
    } else {
        None
    }
}

/// The tokens of a whole text.
pub open spec fn lex(s: Seq<char>) -> Option<Seq<SpecToken>> {
    lex_from(s, 0)
}


// ---------------------------------------------------------------------------
// Lexer
// ---------------------------------------------------------------------------

/// A token, as positions into the character sequence it was read from.
pub enum Token {
    /// The word `s[start..end]`.
    Word { start: usize, end: usize },
    /// The number written `s[start..end]`; `value` is its value when it fits
    /// in a `usize`.
    Number { start: usize, end: usize, value: usize },
    Symbol(char),
}

/// A number's value as the parser stores it: itself when it fits in a
/// `usize`, 0 otherwise.
pub open spec fn clamp(n: nat) -> usize {
    if n <= usize::MAX {
        n as usize
    } else {
        0
    }
}

pub open spec fn token_view(s: Seq<char>, t: Token) -> SpecToken {
    match t {
        Token::Word { start, end } => SpecToken::Word(s.subrange(start as int, end as int)),
        Token::Number { start, end, value } => SpecToken::Number(
            digits_value(s.subrange(start as int, end as int)),
        ),
        Token::Symbol(c) => SpecToken::Symbol(c),
    }
}

/// Each token's positions lie within `s`, and a number token's value is its
/// clamped value.
pub open spec fn token_wf(s: Seq<char>, t: Token) -> bool {
    match t {
        Token::Word { start, end } => start <= end <= s.len(),
        Token::Number { start, end, value } => start <= end <= s.len() && value == clamp(
            digits_value(s.subrange(start as int, end as int)),
        ),
        Token::Symbol(_) => true,
    }
}

pub open spec fn tokens_view(s: Seq<char>, ts: Seq<Token>) -> Seq<SpecToken> {
    ts.map_values(|t: Token| token_view(s, t))
}

pub open spec fn tokens_wf(s: Seq<char>, ts: Seq<Token>) -> bool {
    forall|k: int| 0 <= k < ts.len() ==> token_wf(s, #[trigger] ts[k])
}

/// `prefix` followed by the tokens of `rest`, when there are any.
pub open spec fn prepend(prefix: Seq<SpecToken>, rest: Option<Seq<SpecToken>>) -> Option<
    Seq<SpecToken>,
> {
    match rest {
        Some(r) => Some(prefix + r),
        None => None,
    }
}

/// Every number among the tokens of `s` fits in a `usize`.
pub open spec fn numbers_fit(ts: Seq<SpecToken>) -> bool {
    forall|k: int|
        0 <= k < ts.len() ==> match #[trigger] ts[k] {
            SpecToken::Number(n) => n <= usize::MAX,
            _ => true,
        }
}

proof fn lemma_numbers_fit_push(ts: Seq<SpecToken>, t: SpecToken)
    ensures
        numbers_fit(ts.push(t)) == (numbers_fit(ts) && match t {
            SpecToken::Number(n) => n <= usize::MAX,
            _ => true,
        }),
{
    if numbers_fit(ts.push(t)) {
        assert forall|k: int| 0 <= k < ts.len() implies match #[trigger] ts[k] {
            SpecToken::Number(n) => n <= usize::MAX,
            _ => true,
        } by {
            assert(ts.push(t)[k] == ts[k]);
        }
        assert(ts.push(t)[ts.len() as int] == t);
    }
}

fn is_blank_exec(c: char) -> (r: bool)
    ensures
        r == is_blank(c),
{
    c == ' ' || c == '\t' || c == '\n' || c == '\r'
}

fn is_word_start_exec(c: char) -> (r: bool)
    ensures
        r == is_word_start(c),
{
    ('a' <= c && c <= 'z') || ('A' <= c && c <= 'Z') || c == '_'
}

fn is_digit_exec(c: char) -> (r: bool)
    ensures
        r == is_digit(c),
{
    '0' <= c && c <= '9'
}

fn is_word_char_exec(c: char) -> (r: bool)
    ensures
        r == is_word_char(c),
{
    is_word_start_exec(c) || is_digit_exec(c)
}

fn is_symbol_exec(c: char) -> (r: bool)
    ensures
        r == is_symbol(c),
{
    c == '{' || c == '}' || c == ':' || c == '[' || c == ']' || c == ';' || c == '(' || c == ')'
}

proof fn lemma_digits_value_push(d: Seq<char>, c: char)
    ensures
        digits_value(d.push(c)) == digits_value(d) * 10 + ((c as int) - ('0' as int)) as nat,
{
    assert(d.push(c).drop_last() =~= d);
}

/// Read the number that starts at `i`: its end, its clamped value, and
/// whether it fits in a `usize`.
fn lex_number(s: &Vec<char>, i: usize) -> (r: (usize, usize, bool))
    requires
        i < s@.len(),
        is_digit(s@[i as int]),
    ensures
        r.0 == digits_end(s@, i as int),
        r.1 == clamp(digits_value(s@.subrange(i as int, r.0 as int))),
        r.2 == (digits_value(s@.subrange(i as int, r.0 as int)) <= usize::MAX),
{
    let mut j: usize = i;
    let mut v: usize = 0;
    let mut fits: bool = true;
    assert(s@.subrange(i as int, i as int) =~= Seq::<char>::empty());
    while j < s.len() && is_digit_exec(s[j])
        invariant
            i <= j <= s@.len(),
            digits_end(s@, i as int) == digits_end(s@, j as int),
            fits ==> v == digits_value(s@.subrange(i as int, j as int)),
            !fits ==> digits_value(s@.subrange(i as int, j as int)) > usize::MAX,
        decreases s@.len() - j,
    {
        let c = s[j];
        let d: usize = ((c as u32) - ('0' as u32)) as usize;
        proof {
            assert(s@.subrange(i as int, j + 1) =~= s@.subrange(i as int, j as int).push(c));
            lemma_digits_value_push(s@.subrange(i as int, j as int), c);
        }
        if fits && v <= (usize::MAX - d) / 10 {
            v = v * 10 + d;
        } else {
            fits = false;
        }
        j += 1;
    }
    proof {
        lemma_digits_end(s@, j as int);
    }
    (j, if fits { v } else { 0 }, fits)
}

/// Split a character sequence into tokens. Returns the tokens and whether
/// every number among them fits in a `usize`, or `None` when a character
/// belongs to no token, blank or comment.
pub fn lex_exec(s: &Vec<char>) -> (r: Option<(Vec<Token>, bool)>)
    ensures
        match r {
            Some((ts, fit)) => {
                &&& lex(s@) == Some(tokens_view(s@, ts@))
                &&& tokens_wf(s@, ts@)
                &&& fit == numbers_fit(tokens_view(s@, ts@))
            },
            None => lex(s@) is None,
        },
{
    let mut ts: Vec<Token> = Vec::new();
    let mut fit: bool = true;
    let mut i: usize = 0;
    while i < s.len()
        invariant
            i <= s@.len(),
            lex(s@) == prepend(tokens_view(s@, ts@), lex_from(s@, i as int)),
            tokens_wf(s@, ts@),
            fit == numbers_fit(tokens_view(s@, ts@)),
        decreases s@.len() - i,
    {
        let c = s[i];
        let ghost tv = tokens_view(s@, ts@);
        if is_blank_exec(c) {
            i += 1;
        } else if c == '#' {
            let mut j: usize = i;
            while j < s.len() && s[j] != '\n'
                invariant
                    i <= j <= s@.len(),
                    line_end(s@, i as int) == line_end(s@, j as int),
                decreases s@.len() - j,
            {
                j += 1;
            }
            i = j;
        } else if is_word_start_exec(c) {
            let mut j: usize = i;
            while j < s.len() && is_word_char_exec(s[j])
                invariant
                    i <= j <= s@.len(),
                    word_end(s@, i as int) == word_end(s@, j as int),
                decreases s@.len() - j,
            {
                j += 1;
            }
            let t = Token::Word { start: i, end: j };
            ts.push(t);
            proof {
                let w = SpecToken::Word(s@.subrange(i as int, j as int));
                assert(tokens_view(s@, ts@) =~= tv.push(w));
                lemma_numbers_fit_push(tv, w);
                match lex_from(s@, j as int) {
                    Some(rest) => {
                        assert(tv + (seq![w] + rest) =~= tv.push(w) + rest);
                    },
                    None => {},
                }
            }
            i = j;
        } else if is_digit_exec(c) {
            let (j, v, f) = lex_number(s, i);
            proof {
                lemma_digits_end(s@, i as int);
            }
            let t = Token::Number { start: i, end: j, value: v };
            ts.push(t);
            fit = fit && f;
            proof {
                let w = SpecToken::Number(digits_value(s@.subrange(i as int, j as int)));
                assert(tokens_view(s@, ts@) =~= tv.push(w));
                lemma_numbers_fit_push(tv, w);
                match lex_from(s@, j as int) {
                    Some(rest) => {
                        assert(tv + (seq![w] + rest) =~= tv.push(w) + rest);
                    },
                    None => {},
                }
            }
            i = j;
        } else if is_symbol_exec(c) {
            ts.push(Token::Symbol(c));
            proof {
                let w = SpecToken::Symbol(c);
                assert(tokens_view(s@, ts@) =~= tv.push(w));
                lemma_numbers_fit_push(tv, w);
                match lex_from(s@, i + 1) {
                    Some(rest) => {
                        assert(tv + (seq![w] + rest) =~= tv.push(w) + rest);
                    },
                    None => {},
                }
            }
            i += 1;
        } else {
            return None;
        }
    }
    assert(tokens_view(s@, ts@) + Seq::<SpecToken>::empty() =~= tokens_view(s@, ts@));
    Some((ts, fit))
}


// ---------------------------------------------------------------------------
// Grammar
// ---------------------------------------------------------------------------

pub open spec fn kw_struct() -> Seq<char> {
    seq!['s', 't', 'r', 'u', 'c', 't']
}

pub open spec fn kw_bytes() -> Seq<char> {
    seq!['b', 'y', 't', 'e', 's']
}

pub open spec fn kw_string() -> Seq<char> {
    seq!['s', 't', 'r', 'i', 'n', 'g']
}

/// The primitive type a word names, if it names one.
pub open spec fn spec_primitive(w: Seq<char>) -> Option<FieldTypeV> {
    if w == seq!['u', '8'] {
        Some(FieldTypeV::U8)
    } else if w == seq!['u', '1', '6'] {
        Some(FieldTypeV::U16)
    } else if w == seq!['u', '3', '2'] {
        Some(FieldTypeV::U32)
    } else if w == seq!['u', '6', '4'] {
        Some(FieldTypeV::U64)
    } else if w == seq!['i', '8'] {
        Some(FieldTypeV::I8)
    } else if w == seq!['i', '1', '6'] {
        Some(FieldTypeV::I16)
    } else if w == seq!['i', '3', '2'] {
        Some(FieldTypeV::I32)
    } else if w == seq!['i', '6', '4'] {
        Some(FieldTypeV::I64)
    } else if w == seq!['f', '3', '2'] {
        Some(FieldTypeV::F32)
    } else if w == seq!['f', '6', '4'] {
        Some(FieldTypeV::F64)
    } else if w == seq!['b', 'o', 'o', 'l'] {
        Some(FieldTypeV::Bool)
    } else {
        None
    }
}

/// Token `i` is the symbol `c`.
pub open spec fn symbol_at(t: Seq<SpecToken>, i: int, c: char) -> bool {
    0 <= i < t.len() && t[i] == SpecToken::Symbol(c)
}

/// Token `i` is a number.
pub open spec fn number_at(t: Seq<SpecToken>, i: int) -> bool {
    0 <= i < t.len() && t[i] is Number
}

/// Token `i` is a word.
pub open spec fn word_at(t: Seq<SpecToken>, i: int) -> bool {
    0 <= i < t.len() && t[i] is Word
}

/// A field type read from token `i` on, with the position after it.
pub open spec fn parse_type(t: Seq<SpecToken>, i: int) -> Option<(FieldTypeV, int)>
    decreases t.len() - i,
{
    if i < 0 || i >= t.len() {
        None
    } else {
        match t[i] {
            SpecToken::Word(w) => match spec_primitive(w) {
                Some(p) => Some((p, i + 1)),
                None => if (w == kw_bytes() || w == kw_string()) && symbol_at(t, i + 1, '(')
                    && number_at(t, i + 2) && symbol_at(t, i + 3, ')') {
                    let n = clamp(t[i + 2]->Number_0);
                    Some(
                        (
                            if w == kw_bytes() {
                                FieldTypeV::Bytes(n)
                            } else {
                                FieldTypeV::StringFixed(n)
                            },
                            i + 4,
                        ),
                    )
                } else {
                    Some((FieldTypeV::Nested(w), i + 1))
                },
            },
            SpecToken::Symbol(c) => if c == '[' {
                match parse_type(t, i + 1) {
                    Some((e, j)) => if symbol_at(t, j, ';') && number_at(t, j + 1) && symbol_at(
                        t,
                        j + 2,
                        ']',
                    ) {
                        Some((FieldTypeV::Array(Box::new(e), clamp(t[j + 1]->Number_0)), j + 3))
                    } else {
                        None
                    },
                    None => None,
                }
            } else {
                None
            },
            SpecToken::Number(_) => None,
        }
    }
}

pub proof fn lemma_parse_type_progress(t: Seq<SpecToken>, i: int)
    ensures
        parse_type(t, i) matches Some((_, j)) ==> i < j <= t.len(),
    decreases t.len() - i,
{
    if 0 <= i < t.len() {
        lemma_parse_type_progress(t, i + 1);
    }
}

/// The fields of a struct body read from token `i` on, up to and including
/// the closing brace, with the position after it.
pub open spec fn parse_fields(t: Seq<SpecToken>, i: int) -> Option<
    (Seq<(Seq<char>, FieldTypeV)>, int),
>
    decreases t.len() - i,
{
    if i < 0 || i >= t.len() {
        None
    } else if t[i] == SpecToken::Symbol('}') {
        Some((Seq::empty(), i + 1))
    } else if t[i] is Word && symbol_at(t, i + 1, ':') {
        proof {
            lemma_parse_type_progress(t, i + 2);
        }
        match parse_type(t, i + 2) {
            Some((ty, j)) => match parse_fields(t, j) {
                Some((rest, k)) => Some((seq![(t[i]->Word_0, ty)] + rest, k)),
                None => None,
            },
            None => None,
        }
    } else {
        None
    }
}

pub proof fn lemma_parse_fields_progress(t: Seq<SpecToken>, i: int)
    ensures
        parse_fields(t, i) matches Some((_, j)) ==> i < j <= t.len(),
    decreases t.len() - i,
{
    if 0 <= i < t.len() && t[i] != SpecToken::Symbol('}') && t[i] is Word && symbol_at(
        t,
        i + 1,
        ':',
    ) {
        lemma_parse_type_progress(t, i + 2);
        if let Some((_, j)) = parse_type(t, i + 2) {
            lemma_parse_fields_progress(t, j);
        }
    }
}

/// The struct definitions read from token `i` to the end.
pub open spec fn parse_structs(t: Seq<SpecToken>, i: int) -> Option<
    Seq<(Seq<char>, Seq<(Seq<char>, FieldTypeV)>)>,
>
    decreases t.len() - i,
{
    if i < 0 || i >= t.len() {
        Some(Seq::empty())
    } else if t[i] == SpecToken::Word(kw_struct()) && word_at(t, i + 1) && symbol_at(
        t,
        i + 2,
        '{',
    ) {
        proof {
            lemma_parse_fields_progress(t, i + 3);
        }
        match parse_fields(t, i + 3) {
            Some((fs, j)) => match parse_structs(t, j) {
                Some(rest) => Some(seq![(t[i + 1]->Word_0, fs)] + rest),
                None => None,
            },
            None => None,
        }
    } else {
        None
    }
}

/// The struct definitions of a schema text, or `None` when the text is not
/// in the language.
pub open spec fn spec_parse_nxs(s: Seq<char>) -> Option<
    Seq<(Seq<char>, Seq<(Seq<char>, FieldTypeV)>)>,
> {
    match lex(s) {
        Some(t) => parse_structs(t, 0),
        None => None,
    }
}

/// Every length written in a schema text that is in the language fits in a
/// `usize`.
pub open spec fn nxs_lengths_fit(s: Seq<char>) -> bool {
    spec_parse_nxs(s) is Some ==> numbers_fit(lex(s)->0)
}


// ---------------------------------------------------------------------------
// Parser
// ---------------------------------------------------------------------------

/// Whether `s[start..end]` is the word `kw`.
pub fn word_is(s: &Vec<char>, start: usize, end: usize, kw: &[char]) -> (r: bool)
    requires
        start <= end <= s@.len(),
    ensures
        r == (s@.subrange(start as int, end as int) == kw@),
{
    if end - start != kw.len() {
        return false;
    }
    let mut k: usize = 0;
    while k < kw.len()
        invariant
            k <= kw@.len(),
            end - start == kw@.len(),
            start <= end <= s@.len(),
            forall|m: int| 0 <= m < k ==> s@[start + m] == kw@[m],
        decreases kw@.len() - k,
    {
        if s[start + k] != kw[k] {
            assert(s@.subrange(start as int, end as int)[k as int] != kw@[k as int]);
            return false;
        }
        k += 1;
    }
    assert(s@.subrange(start as int, end as int) =~= kw@);
    true
}

/// The primitive type `s[start..end]` names, if it names one.
pub fn primitive_in(s: &Vec<char>, start: usize, end: usize) -> (r: Option<FieldType>)
    requires
        start <= end <= s@.len(),
    ensures
        match r {
            Some(ft) => spec_primitive(s@.subrange(start as int, end as int)) == Some(ft@),
            None => spec_primitive(s@.subrange(start as int, end as int)) is None,
        },
{
    if word_is(s, start, end, &['u', '8']) {
        Some(FieldType::U8)
    } else if word_is(s, start, end, &['u', '1', '6']) {
        Some(FieldType::U16)
    } else if word_is(s, start, end, &['u', '3', '2']) {
        Some(FieldType::U32)
    } else if word_is(s, start, end, &['u', '6', '4']) {
        Some(FieldType::U64)
    } else if word_is(s, start, end, &['i', '8']) {
        Some(FieldType::I8)
    } else if word_is(s, start, end, &['i', '1', '6']) {
        Some(FieldType::I16)
    } else if word_is(s, start, end, &['i', '3', '2']) {
        Some(FieldType::I32)
    } else if word_is(s, start, end, &['i', '6', '4']) {
        Some(FieldType::I64)
    } else if word_is(s, start, end, &['f', '3', '2']) {
        Some(FieldType::F32)
    } else if word_is(s, start, end, &['f', '6', '4']) {
        Some(FieldType::F64)
    } else if word_is(s, start, end, &['b', 'o', 'o', 'l']) {
        Some(FieldType::Bool)
    } else {
        None
    }
}

/// The string of the characters `s[start..end]`.
pub fn string_from(s: &Vec<char>, start: usize, end: usize) -> (r: String)
    requires
        start <= end <= s@.len(),
    ensures
        r@ == s@.subrange(start as int, end as int),
{
    let mut r = String::new();
    let mut k: usize = start;
    while k < end
        invariant
            start <= k <= end <= s@.len(),
            r@ == s@.subrange(start as int, k as int),
        decreases end - k,
    {
        r.push(s[k]);
        assert(s@.subrange(start as int, k + 1) =~= s@.subrange(start as int, k as int).push(s@[k as int]));
        k += 1;
    }
    r
}

/// Whether token `i` is the symbol `c`.
fn symbol_is(ts: &Vec<Token>, i: usize, c: char) -> (r: bool)
    ensures
        r == (i < ts@.len() && ts@[i as int] == Token::Symbol(c)),
{
    if i < ts.len() {
        match &ts[i] {
            Token::Symbol(d) => *d == c,
            _ => false,
        }
    } else {
        false
    }
}

/// The value of token `i` when it is a number.
fn number_is(ts: &Vec<Token>, i: usize) -> (r: Option<usize>)
    ensures
        match r {
            Some(v) => i < ts@.len() && (ts@[i as int] matches Token::Number { value, .. } && value == v),
            None => !(i < ts@.len() && ts@[i as int] is Number),
        },
{
    if i < ts.len() {
        match &ts[i] {
            Token::Number { value, .. } => Some(*value),
            _ => None,
        }
    } else {
        None
    }
}

/// The views of parsed struct definitions.
pub open spec fn structs_view(v: Seq<StructDef>) -> Seq<(Seq<char>, Seq<(Seq<char>, FieldTypeV)>)> {
    v.map_values(|sd: StructDef| sd@)
}

/// The views of parsed fields.
pub open spec fn fields_view(v: Seq<Field>) -> Seq<(Seq<char>, FieldTypeV)> {
    v.map_values(|f: Field| f@)
}

/// Read a field type from token `i` on.
fn parse_type_exec(s: &Vec<char>, ts: &Vec<Token>, i: usize) -> (r: Option<(FieldType, usize)>)
    requires
        tokens_wf(s@, ts@),
    ensures
        match r {
            Some((ft, j)) => parse_type(tokens_view(s@, ts@), i as int) == Some((ft@, j as int)),
            None => parse_type(tokens_view(s@, ts@), i as int) is None,
        },
    decreases ts@.len() - i,
{
    let ghost t = tokens_view(s@, ts@);
    if i >= ts.len() {
        return None;
    }
    assert(token_wf(s@, ts@[i as int]));
    match &ts[i] {
        Token::Word { start, end } => {
            let (start, end) = (*start, *end);
            if let Some(p) = primitive_in(s, start, end) {
                return Some((p, i + 1));
            }
            let is_bytes = word_is(s, start, end, &['b', 'y', 't', 'e', 's']);
            let is_string = word_is(s, start, end, &['s', 't', 'r', 'i', 'n', 'g']);
            if (is_bytes || is_string) && ts.len() - i > 3 && symbol_is(ts, i + 1, '(')
                && symbol_is(ts, i + 3, ')') {
                if let Some(n) = number_is(ts, i + 2) {
                    assert(token_wf(s@, ts@[i + 2]));
                    let ft = if is_bytes {
                        FieldType::Bytes(n)
                    } else {
                        FieldType::StringFixed(n)
                    };
                    return Some((ft, i + 4));
                }
            }
            Some((FieldType::Nested(string_from(s, start, end)), i + 1))
        },
        Token::Symbol(c) => {
            if *c == '[' {
                match parse_type_exec(s, ts, i + 1) {
                    Some((e, j)) => {
                        proof {
                            lemma_parse_type_progress(t, i + 1);
                        }
                        if ts.len() - j > 2 && symbol_is(ts, j, ';') && symbol_is(ts, j + 2, ']') {
                            if let Some(n) = number_is(ts, j + 1) {
                                assert(token_wf(s@, ts@[j + 1]));
                                return Some((FieldType::Array { elem: Box::new(e), len: n }, j + 3));
                            }
                        }
                        None
                    },
                    None => None,
                }
            } else {
                None
            }
        },
        Token::Number { .. } => None,
    }
}

/// Read the fields of a struct body from token `i` on, through the closing
/// brace.
fn parse_fields_exec(s: &Vec<char>, ts: &Vec<Token>, i: usize) -> (r: Option<(Vec<Field>, usize)>)
    requires
        tokens_wf(s@, ts@),
    ensures
        match r {
            Some((fs, j)) => parse_fields(tokens_view(s@, ts@), i as int) == Some(
                (fields_view(fs@), j as int),
            ),
            None => parse_fields(tokens_view(s@, ts@), i as int) is None,
        },
{
    let ghost t = tokens_view(s@, ts@);
    let mut fields: Vec<Field> = Vec::new();
    let mut k: usize = i;
    loop
        invariant
            tokens_wf(s@, ts@),
            t == tokens_view(s@, ts@),
            i <= k,
            parse_fields(t, i as int) == match parse_fields(t, k as int) {
                Some((rest, m)) => Some((fields_view(fields@) + rest, m)),
                None => None,
            },
        decreases ts@.len() - k,
    {
        if k >= ts.len() {
            return None;
        }
        if symbol_is(ts, k, '}') {
            assert(fields_view(fields@) + Seq::<(Seq<char>, FieldTypeV)>::empty() =~= fields_view(fields@));
            return Some((fields, k + 1));
        }
        assert(token_wf(s@, ts@[k as int]));
        let (start, end) = match &ts[k] {
            Token::Word { start, end } => (*start, *end),
            _ => {
                return None;
            },
        };
        if !symbol_is(ts, k + 1, ':') {
            return None;
        }
        proof {
            lemma_parse_type_progress(t, k + 2);
        }
        match parse_type_exec(s, ts, k + 2) {
            None => {
                return None;
            },
            Some((typ, j)) => {
                let name = string_from(s, start, end);
                let f = Field { name, typ };
                let ghost fv = fields_view(fields@);
                fields.push(f);
                proof {
                    assert(fields_view(fields@) =~= fv.push(f@));
                    match parse_fields(t, j as int) {
                        Some((rest, m)) => {
                            assert(fv + (seq![f@] + rest) =~= fv.push(f@) + rest);
                        },
                        None => {},
                    }
                }
                k = j;
            },
        }
    }
}

/// Read struct definitions from token `i` to the end.
fn parse_structs_exec(s: &Vec<char>, ts: &Vec<Token>) -> (r: Option<Vec<StructDef>>)
    requires
        tokens_wf(s@, ts@),
    ensures
        match r {
            Some(v) => parse_structs(tokens_view(s@, ts@), 0) == Some(structs_view(v@)),
            None => parse_structs(tokens_view(s@, ts@), 0) is None,
        },
{
    let ghost t = tokens_view(s@, ts@);
    let mut structs: Vec<StructDef> = Vec::new();
    let mut k: usize = 0;
    loop
        invariant
            tokens_wf(s@, ts@),
            t == tokens_view(s@, ts@),
            parse_structs(t, 0) == match parse_structs(t, k as int) {
                Some(rest) => Some(structs_view(structs@) + rest),
                None => None,
            },
        decreases ts@.len() - k,
    {
        if k >= ts.len() {
            assert(structs_view(structs@) + Seq::<(Seq<char>, Seq<(Seq<char>, FieldTypeV)>)>::empty()
                =~= structs_view(structs@));
            return Some(structs);
        }
        assert(token_wf(s@, ts@[k as int]));
        let is_kw = match &ts[k] {
            Token::Word { start, end } => word_is(s, *start, *end, &['s', 't', 'r', 'u', 'c', 't']),
            _ => false,
        };
        if !is_kw || ts.len() - k < 3 || !symbol_is(ts, k + 2, '{') {
            return None;
        }
        assert(token_wf(s@, ts@[k + 1]));
        let (start, end) = match &ts[k + 1] {
            Token::Word { start, end } => (*start, *end),
            _ => {
                return None;
            },
        };
        proof {
            lemma_parse_fields_progress(t, k + 3);
        }
        match parse_fields_exec(s, ts, k + 3) {
            None => {
                return None;
            },
            Some((fields, j)) => {
                let name = string_from(s, start, end);
                let sd = StructDef { name, fields };
                let ghost sv = structs_view(structs@);
                structs.push(sd);
                proof {
                    assert(structs_view(structs@) =~= sv.push(sd@));
                    match parse_structs(t, j as int) {
                        Some(rest) => {
                            assert(sv + (seq![sd@] + rest) =~= sv.push(sd@) + rest);
                        },
                        None => {},
                    }
                }
                k = j;
            },
        }
    }
}

/// The outcome of reading a schema text.
pub enum NxsParse {
    /// The text is in the language and every length fits in a `usize`.
    Parsed(Vec<StructDef>),
    /// The text is not in the language.
    Invalid,
    /// The text is in the language but a length does not fit in a `usize`.
    Oversized,
}

/// Read the characters of a schema text.
pub fn parse_nxs_chars(s: &Vec<char>) -> (r: NxsParse)
    ensures
        match r {
            NxsParse::Parsed(v) => spec_parse_nxs(s@) == Some(structs_view(v@)) && numbers_fit(
                lex(s@)->0,
            ),
            NxsParse::Invalid => spec_parse_nxs(s@) is None,
            NxsParse::Oversized => spec_parse_nxs(s@) is Some && !numbers_fit(lex(s@)->0),
        },
{
    match lex_exec(s) {
        None => NxsParse::Invalid,
        Some((ts, fit)) => match parse_structs_exec(s, &ts) {
            None => NxsParse::Invalid,
            Some(v) => if fit {
                NxsParse::Parsed(v)
            } else {
                NxsParse::Oversized
            },
        },
    }
}

/// Whether every length written in a schema text fits in a `usize`, or the
/// text is not in the language (in which case `parse_nxs` reports a syntax
/// error and reads no length).
pub fn check_nxs_lengths(input: &str) -> (r: bool)
    ensures
        r == nxs_lengths_fit(input@),
{
    let s = chars_of(input);
    match parse_nxs_chars(&s) {
        NxsParse::Oversized => false,
        _ => true,
    }
}

/// Parse the struct definitions of a `.nxs` schema text.
///
/// Succeeds exactly on the texts of the language (see the module
/// documentation); otherwise reports a `SchemaParse` error for the path
/// `<input>`.
pub fn parse_nxs(input: &str) -> (r: Result<Vec<StructDef>, NexusCoreError>)
    requires
        nxs_lengths_fit(input@),
    ensures
        match r {
            Ok(v) => spec_parse_nxs(input@) == Some(structs_view(v@)),
            Err(e) => spec_parse_nxs(input@) is None && (e matches NexusCoreError::SchemaParse {
                path,
                message,
            } && path@ == "<input>"@ && message@ == "invalid schema syntax"@),
        },
{
    let s = chars_of(input);
    match parse_nxs_chars(&s) {
        NxsParse::Parsed(v) => Ok(v),
        _ => Err(
            NexusCoreError::SchemaParse {
                path: String::from_str("<input>"),
                message: String::from_str("invalid schema syntax"),
            },
        ),
    }
}

/// Parse the text of the schema file shown to users as `path`: as
/// `parse_nxs`, with a syntax error reported for that path.
pub fn parse_nxs_text(path: &str, content: &str) -> (r: Result<Vec<StructDef>, NexusCoreError>)
    requires
        nxs_lengths_fit(content@),
    ensures
        match r {
            Ok(v) => spec_parse_nxs(content@) == Some(structs_view(v@)),
            Err(e) => spec_parse_nxs(content@) is None && e@ == NexusCoreErrorV::SchemaParse {
                path: path@,
                message: "invalid schema syntax"@,
            },
        },
{
    match parse_nxs(content) {
        Ok(v) => Ok(v),
        Err(NexusCoreError::SchemaParse { message, .. }) => Err(
            NexusCoreError::SchemaParse { path: path.to_owned(), message },
        ),
        Err(other) => Err(other),
    }
}

/// How a field type is read, from token `i` on:
/// - a primitive type name gives that primitive;
/// - `bytes ( N )` gives `Bytes(N)` and `string ( N )` gives `StringFixed(N)`;
/// - `[ T ; N ]` gives an array of `N` of what `T` gives;
/// - any other word names a nested struct;
/// where each `N` fits in a `usize` (`parse_nxs` asks that of every number).
pub proof fn law_field_type_reading(t: Seq<SpecToken>, i: int)
    requires
        0 <= i < t.len(),
    ensures
        ({
            let w = t[i]->Word_0;
            let inner = parse_type(t, i + 1);
            let j = inner->Some_0.1;
            &&& t[i] is Word && spec_primitive(w) is Some ==> parse_type(t, i) == Some(
                (spec_primitive(w)->Some_0, i + 1),
            )
            &&& t[i] is Word && spec_primitive(w) is None && !((w == kw_bytes() || w == kw_string())
                && symbol_at(t, i + 1, '(')) ==> parse_type(t, i) == Some(
                (FieldTypeV::Nested(w), i + 1),
            )
            &&& t[i] == SpecToken::Word(kw_bytes()) && symbol_at(t, i + 1, '(') && number_at(t, i + 2)
                && t[i + 2]->Number_0 <= usize::MAX && symbol_at(t, i + 3, ')') ==> parse_type(t, i)
                == Some((FieldTypeV::Bytes(t[i + 2]->Number_0 as usize), i + 4))
            &&& t[i] == SpecToken::Word(kw_string()) && symbol_at(t, i + 1, '(') && number_at(
                t,
                i + 2,
            ) && t[i + 2]->Number_0 <= usize::MAX && symbol_at(t, i + 3, ')') ==> parse_type(t, i)
                == Some((FieldTypeV::StringFixed(t[i + 2]->Number_0 as usize), i + 4))
            &&& t[i] == SpecToken::Symbol('[') && inner is Some && symbol_at(t, j, ';') && number_at(
                t,
                j + 1,
            ) && t[j + 1]->Number_0 <= usize::MAX && symbol_at(t, j + 2, ']') ==> parse_type(t, i)
                == Some((FieldTypeV::Array(Box::new(inner->Some_0.0), t[j + 1]->Number_0 as usize), j + 3))
        }),
{
    assert(kw_bytes() != kw_string());
}

/// A type name means the same inline and in a schema: a primitive type name
/// read as a schema field type gives the primitive that `spec_primitive`
/// gives (and that `parse_inline_field_type` returns for it), and any other
/// word read alone names a nested struct (where `parse_inline_field_type`
/// reports it as unknown).
pub proof fn law_primitive_names_agree(w: Seq<char>)
    ensures
        spec_primitive(w) is Some ==> parse_type(seq![SpecToken::Word(w)], 0) == Some(
            (spec_primitive(w)->Some_0, 1int),
        ),
        spec_primitive(w) is None ==> parse_type(seq![SpecToken::Word(w)], 0) == Some(
            (FieldTypeV::Nested(w), 1int),
        ),
{
}

} // verus!
