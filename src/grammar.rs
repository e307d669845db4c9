use vstd::prelude::*;
use crate::utils::{lookup, store, Instr, Op, Type};

verus! {

/// Why compilation stopped, with names and operators as sequences of
/// characters.
pub enum CompileFault {
    TypeError { operator: Seq<char>, operand_types: Seq<Type> },
    ConditionError,
    BlockStackError,
    UnterminatedBlock,
    MissingBlock,
    UnterminatedString,
    MisplacedElse,
    MalformedBinding,
    RebindingError(Seq<char>),
    UnknownIdentifier(Seq<char>),
    NumberOutOfRange,
}

/// The characters that have the Unicode `White_Space` property.
pub open spec fn is_space(c: char) -> bool {
    let u = c as u32;
    (0x09 <= u && u <= 0x0d) || u == 0x20 || u == 0x85 || u == 0xa0 || u == 0x1680 || (0x2000
        <= u && u <= 0x200a) || u == 0x2028 || u == 0x2029 || u == 0x202f || u == 0x205f || u
        == 0x3000
}

pub open spec fn is_digit(c: char) -> bool {
    '0' <= c && c <= '9'
}

/// The first index from `i` on that holds white space, or the end.
pub open spec fn word_end(code: Seq<char>, i: int) -> int
    decreases code.len() - i,
{
    if i < 0 || i >= code.len() || is_space(code[i]) {
        i
    } else {
        word_end(code, i + 1)
    }
}

/// The first index from `i` on that holds no white space, or the end.
pub open spec fn skip_space(code: Seq<char>, i: int) -> int
    decreases code.len() - i,
{
    if i < 0 || i >= code.len() || !is_space(code[i]) {
        i
    } else {
        skip_space(code, i + 1)
    }
}

/// The first index from `i` on that holds no digit, or the end.
pub open spec fn digits_end(code: Seq<char>, i: int) -> int
    decreases code.len() - i,
{
    if i < 0 || i >= code.len() || !is_digit(code[i]) {
        i
    } else {
        digits_end(code, i + 1)
    }
}

/// The first index from `i` on that holds `c`, or the end.
pub open spec fn find_char(code: Seq<char>, i: int, c: char) -> int
    decreases code.len() - i,
{
    if i < 0 || i >= code.len() || code[i] == c {
        i
    } else {
        find_char(code, i + 1, c)
    }
}

/// The index of the `}` that closes a block, scanning from `i` with `depth`
/// blocks open; `None` where the text ends first.
pub open spec fn block_end(code: Seq<char>, i: int, depth: nat) -> Option<int>
    decreases code.len() - i,
{
    if i < 0 || i >= code.len() {
        None
    } else if code[i] == '{' {
        block_end(code, i + 1, depth + 1)
    } else if code[i] == '}' {
        if depth <= 1 {
            Some(i)
        } else {
            block_end(code, i + 1, (depth - 1) as nat)
        }
    } else {
        block_end(code, i + 1, depth)
    }
}

/// The number that a sequence of decimal digits spells.
pub open spec fn digits_value(s: Seq<char>) -> int
    decreases s.len(),
{
    if s.len() == 0 {
        0
    } else {
        digits_value(s.drop_last()) * 10 + (s.last() as int - '0' as int)
    }
}

/// The words that name an operator.
#[derive(Debug, Clone, Copy, PartialEq, Eq, Structural)]
pub enum OpWord {
    Plus,
    Minus,
    Times,
    Divide,
    Modulo,
    Equal,
    Less,
    Greater,
    LessEq,
    GreaterEq,
    And,
    Dup,
    Drop,
    Swap,
    Over,
    Print,
}

pub open spec fn op_word(w: Seq<char>) -> Option<OpWord> {
    if w == "+"@ {
        Some(OpWord::Plus)
    } else if w == "-"@ {
        Some(OpWord::Minus)
    } else if w == "*"@ {
        Some(OpWord::Times)
    } else if w == "/"@ {
        Some(OpWord::Divide)
    } else if w == "%"@ {
        Some(OpWord::Modulo)
    } else if w == "=="@ {
        Some(OpWord::Equal)
    } else if w == "<"@ {
        Some(OpWord::Less)
    } else if w == ">"@ {
        Some(OpWord::Greater)
    } else if w == "<="@ {
        Some(OpWord::LessEq)
    } else if w == ">="@ {
        Some(OpWord::GreaterEq)
    } else if w == "og"@ {
        Some(OpWord::And)
    } else if w == "dup"@ {
        Some(OpWord::Dup)
    } else if w == "slipp"@ {
        Some(OpWord::Drop)
    } else if w == "snu"@ {
        Some(OpWord::Swap)
    } else if w == "over"@ {
        Some(OpWord::Over)
    } else if w == "skrivnl"@ {
        Some(OpWord::Print)
    } else {
        None
    }
}

/// The words that start a literal or a statement.
#[derive(Debug, Clone, Copy, PartialEq, Eq, Structural)]
pub enum Keyword {
    True,
    False,
    While,
    If,
    ElseIf,
    Else,
    Var,
}

pub open spec fn keyword_of(w: Seq<char>) -> Option<Keyword> {
    if w == "sann"@ {
        Some(Keyword::True)
    } else if w == "usann"@ {
        Some(Keyword::False)
    } else if w == "når"@ {
        Some(Keyword::While)
    } else if w == "hvis"@ {
        Some(Keyword::If)
    } else if w == "ellvis"@ {
        Some(Keyword::ElseIf)
    } else if w == "ellers"@ {
        Some(Keyword::Else)
    } else if w == "var"@ {
        Some(Keyword::Var)
    } else {
        None
    }
}

/// The instruction and result type of a two-operand operator on operands of
/// types `a` and `b`, where the operator supports them.
pub open spec fn typed_binary(k: OpWord, a: Type, b: Type) -> Option<(Op, Type)> {
    match (k, a, b) {
        (OpWord::Plus, Type::Int, Type::Int) => Some((Op::SumInt, Type::Int)),
        (OpWord::Plus, Type::Str, Type::Str) => Some((Op::ConcatStr, Type::Str)),
        (OpWord::Minus, Type::Int, Type::Int) => Some((Op::SubInt, Type::Int)),
        (OpWord::Times, Type::Int, Type::Int) => Some((Op::MultInt, Type::Int)),
        (OpWord::Divide, Type::Int, Type::Int) => Some((Op::DivInt, Type::Int)),
        (OpWord::Modulo, Type::Int, Type::Int) => Some((Op::ModInt, Type::Int)),
        (OpWord::Equal, Type::Int, Type::Int) => Some((Op::EqInt, Type::Bool)),
        (OpWord::Less, Type::Int, Type::Int) => Some((Op::LtInt, Type::Bool)),
        (OpWord::Greater, Type::Int, Type::Int) => Some((Op::GtInt, Type::Bool)),
        (OpWord::LessEq, Type::Int, Type::Int) => Some((Op::LqInt, Type::Bool)),
        (OpWord::GreaterEq, Type::Int, Type::Int) => Some((Op::GqInt, Type::Bool)),
        (OpWord::And, Type::Bool, Type::Bool) => Some((Op::AndBool, Type::Bool)),
        _ => None,
    }
}

/// How many operands the operator named by `k` takes.
pub open spec fn word_arity(k: OpWord) -> nat {
    match k {
        OpWord::Dup | OpWord::Drop | OpWord::Print => 1,
        _ => 2,
    }
}

/// The instruction that the operator word `w` (of kind `k`) compiles to on
/// the type stack `ts`, and the type stack after it.
pub open spec fn compile_operator(k: OpWord, w: Seq<char>, ts: Seq<Type>) -> Result<
    (Instr, Seq<Type>),
    CompileFault,
> {
    let n = ts.len();
    if n < word_arity(k) {
        Err(CompileFault::TypeError { operator: w, operand_types: ts })
    } else {
        match k {
            OpWord::Dup => Ok(
                (Instr::Operator { op: Op::Dup, arity: 1 }, ts.push(ts[n - 1])),
            ),
            OpWord::Drop => Ok((Instr::Operator { op: Op::Drop, arity: 1 }, ts.drop_last())),
            OpWord::Print => Ok((Instr::Operator { op: Op::Println, arity: 1 }, ts.drop_last())),
            OpWord::Swap => Ok(
                (
                    Instr::Operator { op: Op::Swap, arity: 2 },
                    ts.subrange(0, n - 2).push(ts[n - 1]).push(ts[n - 2]),
                ),
            ),
            OpWord::Over => Ok(
                (Instr::Operator { op: Op::Over, arity: 2 }, ts.push(ts[n - 2])),
            ),
            _ => match typed_binary(k, ts[n - 2], ts[n - 1]) {
                Some((op, t)) => Ok(
                    (Instr::Operator { op, arity: 2 }, ts.subrange(0, n - 2).push(t)),
                ),
                None => Err(
                    CompileFault::TypeError {
                        operator: w,
                        operand_types: ts.subrange(n - 2, n as int),
                    },
                ),
            },
        }
    }
}

/// What has been compiled so far: the instructions, the type stack, and the
/// type bound to each name.
pub struct Compiled {
    pub ast: Seq<Instr>,
    pub ts: Seq<Type>,
    pub env: Seq<(Seq<char>, Type)>,
}

/// A fresh compilation of a nested text, starting from the type stack `ts`
/// and the bindings `env`.
pub open spec fn nested(ts: Seq<Type>, env: Seq<(Seq<char>, Type)>) -> Compiled {
    Compiled { ast: Seq::empty(), ts, env }
}

/// Compiles `code` from the type stack `ts` with the bindings `env`.
pub open spec fn compile(code: Seq<char>, ts: Seq<Type>, env: Seq<(Seq<char>, Type)>) -> Result<
    Compiled,
    CompileFault,
>
    decreases code.len(), code.len() + 1, 3int,
{
    parse_from(code, 0, nested(ts, env))
}

/// Compiles the rest of `code` from index `pos`, after what `st` holds.
pub open spec fn parse_from(code: Seq<char>, pos: int, st: Compiled) -> Result<
    Compiled,
    CompileFault,
>
    decreases code.len(), code.len() - pos, 2int,
{
    if pos < 0 || pos >= code.len() {
        Ok(st)
    } else {
        match parse_item(code, pos, st) {
            Err(e) => Err(e),
            // Every item moves forward within the text; the test states it
            // so that the recursion visibly ends.
            Ok((next, st2)) => if pos < next <= code.len() {
                parse_from(code, next, st2)
            } else {
                Ok(st2)
            },
        }
    }
}

/// Compiles the item that starts at `pos`: the index after it, and what has
/// been compiled with it.
pub open spec fn parse_item(code: Seq<char>, pos: int, st: Compiled) -> Result<
    (int, Compiled),
    CompileFault,
>
    decreases code.len(), code.len() - pos, 1int,
{
    if pos < 0 || pos >= code.len() {
        Ok((pos + 1, st))
    } else {
        let c = code[pos];
        if is_space(c) {
            Ok((pos + 1, st))
        } else if is_digit(c) || (c == '-' && pos + 1 < code.len() && is_digit(code[pos + 1])) {
            let start = if c == '-' {
                pos + 1
            } else {
                pos
            };
            let end = digits_end(code, start);
            let mag = digits_value(code.subrange(start, end));
            let v = if c == '-' {
                -mag
            } else {
                mag
            };
            if v < i64::MIN || v > i64::MAX {
                Err(CompileFault::NumberOutOfRange)
            } else {
                Ok(
                    (
                        end,
                        Compiled {
                            ast: st.ast.push(Instr::PushInt(v as i64)),
                            ts: st.ts.push(Type::Int),
                            ..st
                        },
                    ),
                )
            }
        } else if c == '"' {
            let close = find_char(code, pos + 1, '"');
            if close >= code.len() {
                Err(CompileFault::UnterminatedString)
            } else {
                Ok(
                    (
                        close + 1,
                        Compiled {
                            ast: st.ast.push(Instr::PushStr(code.subrange(pos + 1, close))),
                            ts: st.ts.push(Type::Str),
                            ..st
                        },
                    ),
                )
            }
        } else {
            let end = word_end(code, pos);
            let w = code.subrange(pos, end);
            match op_word(w) {
                Some(k) => match compile_operator(k, w, st.ts) {
                    Ok((ins, ts2)) => Ok((end, Compiled { ast: st.ast.push(ins), ts: ts2, ..st })),
                    Err(e) => Err(e),
                },
                None => match keyword_of(w) {
                    Some(kw) => parse_keyword(code, pos, end, kw, st),
                    None => match lookup(st.env, w) {
                        Some(t) => Ok(
                            (
                                end,
                                Compiled {
                                    ast: st.ast.push(Instr::Identifier(w)),
                                    ts: st.ts.push(t),
                                    ..st
                                },
                            ),
                        ),
                        None => Err(CompileFault::UnknownIdentifier(w)),
                    },
                },
            }
        }
    }
}

/// The characters of `code` from `from` up to `to`, where those are bounds
/// within it.
pub open spec fn text(code: Seq<char>, from: int, to: int) -> Seq<char> {
    if 0 <= from <= to <= code.len() {
        code.subrange(from, to)
    } else {
        Seq::empty()
    }
}

/// Whether the last instruction compiled closes a conditional.
pub open spec fn ends_conditional(ast: Seq<Instr>) -> bool {
    ast.len() > 0 && ast.last() is EndOfIf
}

/// The code that a conditional (`If`), an arm after it (`ElseIf`) or a loop
/// (`While`) compiles to, from its condition `c` and its block `b`.
pub open spec fn emit_branch(kw: Keyword, c: Seq<Instr>, b: Seq<Instr>) -> Seq<Instr> {
    match kw {
        Keyword::While => c + seq![Instr::JumpIfFalse(b.len() + 1int)] + b + seq![
            Instr::Jump(-(c.len() + b.len() + 2int)),
        ],
        Keyword::ElseIf => seq![Instr::Jump(c.len() + b.len() + 1int)] + c + seq![
            Instr::JumpIfFalse(b.len() + 1int),
        ] + b + seq![Instr::EndOfIf],
        _ => c + seq![Instr::JumpIfFalse(b.len() + 1int)] + b + seq![Instr::EndOfIf],
    }
}

/// The text of a binding's value that starts at `i`: a block, or the rest of
/// the line. Gives the text's bounds and the index after it.
pub open spec fn binding_text(code: Seq<char>, i: int) -> Option<(int, int, int)> {
    // A value always follows a keyword, a name and `=`, so `i` is past the
    // start of the text.
    if i < 1 {
        None
    } else if i < code.len() && code[i] == '{' {
        match block_end(code, i + 1, 1) {
            Some(close) => Some((i + 1, close, close + 1)),
            None => None,
        }
    } else {
        let e = find_char(code, i, '\n');
        Some((i, e, e))
    }
}

/// Compiles the statement that the keyword `kw` (the word from `pos` to
/// `end`) starts.
pub open spec fn parse_keyword(code: Seq<char>, pos: int, end: int, kw: Keyword, st: Compiled) -> Result<
    (int, Compiled),
    CompileFault,
>
    decreases code.len(), code.len() - pos, 0int,
{
    // The keyword lies within the text whenever this is reached.
    if !(0 <= pos < end <= code.len()) {
        Err(CompileFault::MissingBlock)
    } else {
        match kw {
            Keyword::True => Ok(
                (
                    end,
                    Compiled {
                        ast: st.ast.push(Instr::PushBool(true)),
                        ts: st.ts.push(Type::Bool),
                        ..st
                    },
                ),
            ),
            Keyword::False => Ok(
                (
                    end,
                    Compiled {
                        ast: st.ast.push(Instr::PushBool(false)),
                        ts: st.ts.push(Type::Bool),
                        ..st
                    },
                ),
            ),
            Keyword::Else => {
                let open = skip_space(code, end);
                if !ends_conditional(st.ast) {
                    Err(CompileFault::MisplacedElse)
                } else if open < 0 || open >= code.len() || code[open] != '{' {
                    Err(CompileFault::MissingBlock)
                } else {
                    match block_end(code, open + 1, 1) {
                        None => Err(CompileFault::UnterminatedBlock),
                        Some(close) => match compile(
                            text(code, open + 1, close),
                            st.ts,
                            st.env,
                        ) {
                            Err(e) => Err(e),
                            Ok(b) => if b.ts != st.ts {
                                Err(CompileFault::BlockStackError)
                            } else {
                                Ok(
                                    (
                                        close + 1,
                                        Compiled {
                                            ast: st.ast.drop_last() + seq![Instr::Jump(b.ast.len() as int)]
                                                + b.ast,
                                            ts: st.ts,
                                            env: b.env,
                                        },
                                    ),
                                )
                            },
                        },
                    }
                }
            },
            Keyword::Var => {
                let name_start = skip_space(code, end);
                let name_end = word_end(code, name_start);
                let name = code.subrange(name_start, name_end);
                let eq = skip_space(code, name_end);
                if name_start >= code.len() || op_word(name) is Some || keyword_of(name) is Some {
                    Err(CompileFault::MalformedBinding)
                } else if eq < 0 || eq >= code.len() || code[eq] != '=' {
                    Err(CompileFault::MalformedBinding)
                } else {
                    match binding_text(code, skip_space(code, eq + 1)) {
                        None => Err(CompileFault::UnterminatedBlock),
                        Some((from, to, next)) => match compile(
                            text(code, from, to),
                            st.ts,
                            st.env,
                        ) {
                            Err(e) => Err(e),
                            Ok(v) => if v.ts.len() != st.ts.len() + 1 || v.ts.drop_last() != st.ts {
                                Err(CompileFault::MalformedBinding)
                            } else {
                                let t = v.ts.last();
                                match lookup(v.env, name) {
                                    Some(t0) if t0 != t => Err(CompileFault::RebindingError(name)),
                                    _ => Ok(
                                        (
                                            next,
                                            Compiled {
                                                ast: st.ast + seq![Instr::DefineConst(name)] + v.ast
                                                    + seq![Instr::Return(name)],
                                                ts: st.ts,
                                                env: store(v.env, name, t),
                                            },
                                        ),
                                    ),
                                }
                            },
                        },
                    }
                }
            },
            _ => {
                let open = find_char(code, end, '{');
                if kw is ElseIf && !ends_conditional(st.ast) {
                    Err(CompileFault::MisplacedElse)
                } else if open < 0 || open >= code.len() {
                    Err(CompileFault::MissingBlock)
                } else {
                    match compile(text(code, end, open), st.ts, st.env) {
                        Err(e) => Err(e),
                        Ok(c) => if c.ts != st.ts.push(Type::Bool) {
                            Err(CompileFault::ConditionError)
                        } else {
                            match block_end(code, open + 1, 1) {
                                None => Err(CompileFault::UnterminatedBlock),
                                Some(close) => match compile(
                                    text(code, open + 1, close),
                                    st.ts,
                                    c.env,
                                ) {
                                    Err(e) => Err(e),
                                    Ok(b) => if b.ts != st.ts {
                                        Err(CompileFault::BlockStackError)
                                    } else {
                                        let kept = if kw is ElseIf {
                                            st.ast.drop_last()
                                        } else {
                                            st.ast
                                        };
                                        Ok(
                                            (
                                                close + 1,
                                                Compiled {
                                                    ast: kept + emit_branch(kw, c.ast, b.ast),
                                                    ts: st.ts,
                                                    env: b.env,
                                                },
                                            ),
                                        )
                                    },
                                },
                            }
                        },
                    }
                }
            },
        }
    }
}

} // verus!
