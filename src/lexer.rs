use vstd::prelude::*;
use crate::grammar::{digits_value, find_char, is_digit, is_space};
use crate::parser::{
    digits_number, find_char_at, is_space_char, slice_chars, text_string, word_eq, MAX_SOURCE_LEN,
};
use crate::utils::push_char;

verus! {

/// A token of the indentation-based surface syntax.
#[derive(Debug)]
pub enum Lexem {
    Identifier(String),
    Operator(String),
    Literal(String),
    String(String),
    Keyword(String),
    Separator(String),
    Indent,
    Dedent,
}

/// What a token is, with its text as a sequence of characters.
pub enum Token {
    Identifier(Seq<char>),
    Operator(Seq<char>),
    Literal(Seq<char>),
    Str(Seq<char>),
    Keyword(Seq<char>),
    Separator(Seq<char>),
    Indent,
    Dedent,
}

impl View for Lexem {
    type V = Token;

    open spec fn view(&self) -> Token {
        match self {
            Lexem::Identifier(s) => Token::Identifier(s@),
            Lexem::Operator(s) => Token::Operator(s@),
            Lexem::Literal(s) => Token::Literal(s@),
            Lexem::String(s) => Token::Str(s@),
            Lexem::Keyword(s) => Token::Keyword(s@),
            Lexem::Separator(s) => Token::Separator(s@),
            Lexem::Indent => Token::Indent,
            Lexem::Dedent => Token::Dedent,
        }
    }
}

pub open spec fn tokens_of(v: Seq<Lexem>) -> Seq<Token> {
    v.map_values(|l: Lexem| l@)
}

pub open spec fn is_separator(c: char) -> bool {
    c == ':' || c == ';' || c == '[' || c == ']'
}

/// Whether `w` is the text of a 64-bit signed integer: an optional sign,
/// then one or more decimal digits, of a value in range.
pub open spec fn is_int_text(w: Seq<char>) -> bool {
    &&& int_digits(w).len() > 0
    &&& forall|i: int| 0 <= i < int_digits(w).len() ==> is_digit(#[trigger] int_digits(w)[i])
    &&& if is_signed(w) && w[0] == '-' {
        digits_value(int_digits(w)) <= 0x8000_0000_0000_0000
    } else {
        digits_value(int_digits(w)) <= 0x7fff_ffff_ffff_ffff
    }
}

pub open spec fn is_signed(w: Seq<char>) -> bool {
    w.len() > 0 && (w[0] == '+' || w[0] == '-')
}

/// The digits of an integer's text: what follows its sign, if any.
pub open spec fn int_digits(w: Seq<char>) -> Seq<char> {
    if is_signed(w) {
        w.drop_first()
    } else {
        w
    }
}

/// The token that the word `w` makes. A word that spells a decimal
/// fraction is an identifier here; telling such words apart needs floating
/// point.
pub open spec fn token_of(w: Seq<char>) -> Token {
    if w == "funk"@ || w == "konst"@ || w == "var"@ {
        Token::Keyword(w)
    } else if w == "+"@ || w == "-"@ || w == "*"@ || w == "/"@ || w == "%"@ {
        Token::Operator(w)
    } else if w.len() == 1 && is_separator(w[0]) {
        Token::Separator(w)
    } else if w == "sann"@ || w == "usann"@ || is_int_text(w) {
        Token::Literal(w)
    } else {
        Token::Identifier(w)
    }
}

/// Where the tokenizer of a line stands: the tokens so far, the word being
/// read, and whether it is inside a string literal.
pub struct LineState {
    pub tokens: Seq<Token>,
    pub current: Seq<char>,
    pub in_string: bool,
}

/// The state after reading the character `c`.
pub open spec fn line_step(st: LineState, c: char) -> LineState {
    if is_space(c) {
        if st.in_string {
            LineState { current: st.current.push(c), ..st }
        } else if st.current.len() > 0 {
            LineState { tokens: st.tokens.push(token_of(st.current)), current: Seq::empty(), ..st }
        } else {
            st
        }
    } else if is_separator(c) {
        if st.in_string {
            LineState { current: st.current.push(c), ..st }
        } else if st.current.len() > 0 {
            LineState {
                tokens: st.tokens.push(token_of(st.current)).push(Token::Separator(seq![c])),
                current: Seq::empty(),
                ..st
            }
        } else {
            LineState { tokens: st.tokens.push(Token::Separator(seq![c])), ..st }
        }
    } else if c == '"' {
        if st.in_string {
            LineState {
                tokens: st.tokens.push(Token::Str(st.current)),
                current: Seq::empty(),
                in_string: false,
            }
        } else if st.current.len() > 0 {
            LineState {
                tokens: st.tokens.push(token_of(st.current)),
                current: Seq::empty(),
                in_string: true,
            }
        } else {
            LineState { in_string: true, ..st }
        }
    } else {
        LineState { current: st.current.push(c), ..st }
    }
}

/// The state after reading the first `i` characters of `line`.
pub open spec fn line_state(line: Seq<char>, i: int) -> LineState
    decreases i,
{
    if i <= 0 || i > line.len() {
        LineState { tokens: Seq::empty(), current: Seq::empty(), in_string: false }
    } else {
        line_step(line_state(line, i - 1), line[i - 1])
    }
}

/// The tokens of one line.
pub open spec fn tokens_of_line(line: Seq<char>) -> Seq<Token> {
    let st = line_state(line, line.len() as int);
    if st.current.len() > 0 {
        st.tokens.push(token_of(st.current))
    } else {
        st.tokens
    }
}

/// The indentation of a line from index `i` on: one per leading space, four
/// per leading tab.
pub open spec fn indent_from(line: Seq<char>, i: int) -> nat
    decreases line.len() - i,
{
    if i < 0 || i >= line.len() {
        0
    } else if line[i] == ' ' {
        1 + indent_from(line, i + 1)
    } else if line[i] == '\t' {
        4 + indent_from(line, i + 1)
    } else {
        0
    }
}

pub open spec fn less_four(n: nat) -> nat {
    if n >= 4 {
        (n - 4) as nat
    } else {
        0
    }
}

/// The dedents that closing indentation `cur` down to `ind` takes, four
/// columns at a time, and the indentation reached.
pub open spec fn dedents(ind: nat, cur: nat) -> (Seq<Token>, nat)
    decreases cur,
{
    if ind < cur {
        let (more, reached) = dedents(ind, less_four(cur));
        (seq![Token::Dedent] + more, reached)
    } else {
        (Seq::empty(), cur)
    }
}

/// The characters of the line that starts at `start`: up to the next line
/// feed, without a carriage return just before it.
pub open spec fn line_at(src: Seq<char>, start: int) -> Seq<char> {
    let k = find_char(src, start, '\n');
    if 0 <= start <= k <= src.len() {
        if k < src.len() && k > start && src[k - 1] == '\r' {
            src.subrange(start, k - 1)
        } else {
            src.subrange(start, k)
        }
    } else {
        Seq::empty()
    }
}

/// The tokens of `src` from the line at `start` on, after `acc`, with the
/// indentation at `cur`.
pub open spec fn lex_from(src: Seq<char>, start: int, cur: nat, acc: Seq<Token>) -> Seq<Token>
    decreases src.len() + 1 - start,
{
    if start < 0 || start >= src.len() {
        acc + dedents(0, cur).0
    } else {
        let line = line_at(src, start);
        let ind = indent_from(line, 0);
        let (opened, cur2) = if ind > cur {
            (seq![Token::Indent], ind)
        } else {
            dedents(ind, cur)
        };
        let next = find_char(src, start, '\n') + 1;
        // The next line starts after this one; the test states it so that
        // the recursion visibly ends.
        if next <= start || next > src.len() + 1 {
            acc
        } else {
            lex_from(src, next, cur2, acc + opened + tokens_of_line(line))
        }
    }
}

fn is_separator_char(c: char) -> (r: bool)
    ensures
        r == is_separator(c),
{
    c == ':' || c == ';' || c == '[' || c == ']'
}

/// Whether `w` is the text of a 64-bit signed integer.
fn is_int_word(w: &Vec<char>) -> (r: bool)
    ensures
        r == is_int_text(w@),
{
    let n = w.len();
    let signed = n > 0 && (w[0] == '+' || w[0] == '-');
    let from: usize = if signed {
        1
    } else {
        0
    };
    let ghost digits = int_digits(w@);
    assert(digits =~= w@.subrange(from as int, n as int));
    if from >= n {
        return false;
    }
    let mut i = from;
    while i < n
        invariant
            from <= i <= n == w@.len(),
            digits == w@.subrange(from as int, n as int),
            digits == int_digits(w@),
            forall|j: int| from <= j < i ==> is_digit(#[trigger] w@[j]),
        decreases n - i,
    {
        if !('0' <= w[i] && w[i] <= '9') {
            assert(!is_digit(digits[i - from]));
            return false;
        }
        i = i + 1;
    }
    assert forall|j: int| 0 <= j < digits.len() implies is_digit(#[trigger] digits[j]) by {
        assert(digits[j] == w@[j + from]);
    }
    match digits_number(w, from, n) {
        None => false,
        Some(v) => if signed && w[0] == '-' {
            true
        } else {
            v <= 0x7fff_ffff_ffff_ffff
        },
    }
}

/// The token that the word `word` makes.
fn get_token(word: &Vec<char>) -> (r: Lexem)
    ensures
        r@ == token_of(word@),
{
    let text = text_string(word, 0, word.len());
    assert(text@ =~= word@);
    if word_eq(word, "funk") || word_eq(word, "konst") || word_eq(word, "var") {
        Lexem::Keyword(text)
    } else if word_eq(word, "+") || word_eq(word, "-") || word_eq(word, "*") || word_eq(word, "/")
        || word_eq(word, "%") {
        Lexem::Operator(text)
    } else if word.len() == 1 && is_separator_char(word[0]) {
        Lexem::Separator(text)
    } else if word_eq(word, "sann") || word_eq(word, "usann") || is_int_word(word) {
        Lexem::Literal(text)
    } else {
        Lexem::Identifier(text)
    }
}

fn separator_token(c: char) -> (r: Lexem)
    ensures
        r@ == Token::Separator(seq![c]),
{
    let mut s = String::new();
    push_char(&mut s, c);
    assert(s@ =~= seq![c]);
    Lexem::Separator(s)
}

/// The tokens of one line.
pub fn lex_line(line: &Vec<char>) -> (r: Vec<Lexem>)
    ensures
        tokens_of(r@) == tokens_of_line(line@),
{
    let mut tokens: Vec<Lexem> = Vec::new();
    let mut current: Vec<char> = Vec::new();
    let mut in_string = false;
    let mut i: usize = 0;
    assert(tokens_of(tokens@) =~= Seq::<Token>::empty());
    assert(current@ =~= Seq::<char>::empty());
    while i < line.len()
        invariant
            i <= line@.len(),
            ({
                let st = line_state(line@, i as int);
                tokens_of(tokens@) == st.tokens && current@ == st.current && in_string
                    == st.in_string
            }),
        decreases line@.len() - i,
    {
        let c = line[i];
        let ghost t0 = tokens_of(tokens@);
        if is_space_char(c) {
            if in_string {
                current.push(c);
            } else if current.len() > 0 {
                tokens.push(get_token(&current));
                current = Vec::new();
                assert(current@ =~= Seq::<char>::empty());
            }
        } else if is_separator_char(c) {
            if in_string {
                current.push(c);
            } else if current.len() > 0 {
                tokens.push(get_token(&current));
                tokens.push(separator_token(c));
                current = Vec::new();
                assert(current@ =~= Seq::<char>::empty());
            } else {
                tokens.push(separator_token(c));
            }
        } else if c == '"' {
            if in_string {
                let s = text_string(&current, 0, current.len());
                assert(s@ =~= current@);
                tokens.push(Lexem::String(s));
                current = Vec::new();
                assert(current@ =~= Seq::<char>::empty());
            } else if current.len() > 0 {
                tokens.push(get_token(&current));
                current = Vec::new();
                assert(current@ =~= Seq::<char>::empty());
            }
            in_string = !in_string;
        } else {
            current.push(c);
        }
        let ghost st = line_state(line@, i + 1);
        assert(tokens_of(tokens@) =~= st.tokens);
        i = i + 1;
    }
    if current.len() > 0 {
        tokens.push(get_token(&current));
    }
    assert(tokens_of(tokens@) =~= tokens_of_line(line@));
    tokens
}

/// The indentation of `line`.
fn indent_of(line: &Vec<char>) -> (r: u64)
    requires
        line@.len() <= MAX_SOURCE_LEN,
    ensures
        r == indent_from(line@, 0),
        r <= 4 * line@.len(),
{
    let n = line.len();
    let mut i = n;
    let mut acc: u64 = 0;
    while i > 0
        invariant
            i <= n == line@.len() <= MAX_SOURCE_LEN,
            acc <= 4 * (n - i),
            acc == indent_from(line@, i as int),
        decreases i,
    {
        i = i - 1;
        if line[i] == ' ' {
            acc = acc + 1;
        } else if line[i] == '\t' {
            acc = acc + 4;
        } else {
            acc = 0;
        }
    }
    acc
}

/// Closes indentation `cur` down to `ind`, pushing a dedent for every four
/// columns; gives the indentation reached.
fn close_indent(tokens: &mut Vec<Lexem>, ind: u64, cur: u64) -> (r: u64)
    ensures
        tokens_of(final(tokens)@) == tokens_of(old(tokens)@) + dedents(ind as nat, cur as nat).0,
        r == dedents(ind as nat, cur as nat).1,
        r <= cur,
    decreases cur,
{
    if ind < cur {
        tokens.push(Lexem::Dedent);
        let ghost mid = tokens_of(tokens@);
        let next = if cur >= 4 {
            cur - 4
        } else {
            0
        };
        let r = close_indent(tokens, ind, next);
        assert(tokens_of(tokens@) =~= tokens_of(old(tokens)@) + dedents(ind as nat, cur as nat).0);
        r
    } else {
        assert(tokens_of(tokens@) =~= tokens_of(old(tokens)@) + dedents(ind as nat, cur as nat).0);
        cur
    }
}

/// The tokens of `src`, line by line, with an indent where a line is
/// indented further than the one before and a dedent for every four
/// columns it goes back.
pub fn lex(src: &Vec<char>) -> (r: Result<Vec<Lexem>, &'static str>)
    requires
        src@.len() <= MAX_SOURCE_LEN,
    ensures
        r is Ok,
        r matches Ok(t) && tokens_of(t@) == lex_from(src@, 0, 0, Seq::empty()),
{
    let mut tokens: Vec<Lexem> = Vec::new();
    let mut cur: u64 = 0;
    let mut start: usize = 0;
    let n = src.len();
    assert(tokens_of(tokens@) =~= Seq::<Token>::empty());
    while start < n
        invariant
            start <= n + 1,
            n == src@.len() <= MAX_SOURCE_LEN,
            cur <= 4 * n,
            lex_from(src@, start as int, cur as nat, tokens_of(tokens@)) == lex_from(
                src@,
                0,
                0,
                Seq::empty(),
            ),
        decreases n + 1 - start,
    {
        let ghost acc = tokens_of(tokens@);
        let ghost cur0 = cur as nat;
        let k = find_char_at(src, start, '\n');
        let line_end = if k < n && k > start && src[k - 1] == '\r' {
            k - 1
        } else {
            k
        };
        let line = slice_chars(src, start, line_end);
        assert(line@ == line_at(src@, start as int));
        let ind = indent_of(&line);
        if ind > cur {
            tokens.push(Lexem::Indent);
            cur = ind;
        } else {
            cur = close_indent(&mut tokens, ind, cur);
        }
        let ghost opened = tokens_of(tokens@);
        let ghost pre = if ind as nat > cur0 {
            seq![Token::Indent]
        } else {
            dedents(ind as nat, cur0).0
        };
        assert(opened =~= acc + pre);
        let mut line_tokens = lex_line(&line);
        let ghost lt = tokens_of(line_tokens@);
        tokens.append(&mut line_tokens);
        assert(tokens_of(tokens@) =~= acc + pre + lt);
        start = k + 1;
    }
    close_indent(&mut tokens, 0, cur);
    Ok(tokens)
}

} // verus!
