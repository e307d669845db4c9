use vstd::prelude::*;
use crate::grammar::{
    binding_text, block_end, compile, compile_operator, digits_end, digits_value, emit_branch,
    ends_conditional, find_char, is_digit, is_space, keyword_of, nested, op_word, parse_from,
    parse_item, parse_keyword, skip_space, text, typed_binary, word_arity, word_end, CompileFault,
    Compiled, Keyword, OpWord,
};
use crate::utils::{
    find_entry, lemma_first_match, lemma_no_match, lookup, program_of, push_char, store, Instr,
    JumpPointer, Node, Op, Type,
};

verus! {

/// The longest source text, in characters, that the compiler takes.
pub const MAX_SOURCE_LEN: usize = 0x3fff_ffff;

/// Why compilation stopped.
#[derive(Debug, Clone)]
pub enum CompileError {
    /// The operator does not take operands of these types, or the stack
    /// holds fewer operands than it takes.
    TypeError { operator: String, operand_types: Vec<Type> },
    /// A condition does not leave exactly one `Bool` on the type stack.
    ConditionError,
    /// A block leaves the type stack other than it found it.
    BlockStackError,
    /// A block is not closed.
    UnterminatedBlock,
    /// A statement that needs a block has none.
    MissingBlock,
    /// A string literal is not closed.
    UnterminatedString,
    /// An `ellvis` or `ellers` that does not follow a conditional.
    MisplacedElse,
    /// A `var` statement without a name, without `=`, or whose value does
    /// not leave exactly one value.
    MalformedBinding,
    /// A name bound again with a value of another type.
    RebindingError(String),
    /// A name that no binding has introduced.
    UnknownIdentifier(String),
    /// An integer literal that does not fit in 64 bits.
    NumberOutOfRange,
}

impl View for CompileError {
    type V = CompileFault;

    open spec fn view(&self) -> CompileFault {
        match self {
            CompileError::TypeError { operator, operand_types } => CompileFault::TypeError {
                operator: operator@,
                operand_types: operand_types@,
            },
            CompileError::ConditionError => CompileFault::ConditionError,
            CompileError::BlockStackError => CompileFault::BlockStackError,
            CompileError::UnterminatedBlock => CompileFault::UnterminatedBlock,
            CompileError::MissingBlock => CompileFault::MissingBlock,
            CompileError::UnterminatedString => CompileFault::UnterminatedString,
            CompileError::MisplacedElse => CompileFault::MisplacedElse,
            CompileError::MalformedBinding => CompileFault::MalformedBinding,
            CompileError::RebindingError(s) => CompileFault::RebindingError(s@),
            CompileError::UnknownIdentifier(s) => CompileFault::UnknownIdentifier(s@),
            CompileError::NumberOutOfRange => CompileFault::NumberOutOfRange,
        }
    }
}

/// What a compiler run over one source text has produced.
pub struct Parser {
    /// The instructions compiled.
    pub ast: Vec<Node>,
    /// The types that the stack will hold after the instructions run.
    pub type_stack: Vec<Type>,
    /// The type bound to each name.
    pub bindings: Vec<(String, Type)>,
}

pub open spec fn env_view(b: Seq<(String, Type)>) -> Seq<(Seq<char>, Type)> {
    b.map_values(|e: (String, Type)| (e.0@, e.1))
}

impl View for Parser {
    type V = Compiled;

    open spec fn view(&self) -> Compiled {
        Compiled {
            ast: program_of(self.ast@),
            ts: self.type_stack@,
            env: env_view(self.bindings@),
        }
    }
}

/// The characters of `code` from `from` up to `to`, as a string.
pub(crate) fn text_string(code: &Vec<char>, from: usize, to: usize) -> (r: String)
    requires
        from <= to <= code@.len(),
    ensures
        r@ == code@.subrange(from as int, to as int),
{
    let mut s = String::new();
    let mut i = from;
    while i < to
        invariant
            from <= i <= to <= code@.len(),
            s@ == code@.subrange(from as int, i as int),
        decreases to - i,
    {
        push_char(&mut s, code[i]);
        i = i + 1;
        assert(s@ =~= code@.subrange(from as int, i as int));
    }
    s
}

/// The characters of `code` from `from` up to `to`.
pub(crate) fn slice_chars(code: &Vec<char>, from: usize, to: usize) -> (r: Vec<char>)
    requires
        from <= to <= code@.len(),
    ensures
        r@ == code@.subrange(from as int, to as int),
{
    let mut v: Vec<char> = Vec::new();
    let mut i = from;
    while i < to
        invariant
            from <= i <= to <= code@.len(),
            v@ == code@.subrange(from as int, i as int),
        decreases to - i,
    {
        v.push(code[i]);
        i = i + 1;
        assert(v@ =~= code@.subrange(from as int, i as int));
    }
    v
}

fn copy_types(v: &Vec<Type>) -> (r: Vec<Type>)
    ensures
        r@ == v@,
{
    let mut r: Vec<Type> = Vec::new();
    let mut i: usize = 0;
    while i < v.len()
        invariant
            i <= v@.len(),
            r@ == v@.subrange(0, i as int),
        decreases v@.len() - i,
    {
        r.push(v[i]);
        i = i + 1;
        assert(r@ =~= v@.subrange(0, i as int));
    }
    assert(r@ =~= v@);
    r
}

fn copy_bindings(v: &Vec<(String, Type)>) -> (r: Vec<(String, Type)>)
    ensures
        env_view(r@) == env_view(v@),
{
    let mut r: Vec<(String, Type)> = Vec::new();
    let mut i: usize = 0;
    while i < v.len()
        invariant
            i <= v@.len(),
            env_view(r@) == env_view(v@).subrange(0, i as int),
        decreases v@.len() - i,
    {
        let name = v[i].0.clone();
        let ghost before = env_view(r@);
        r.push((name, v[i].1));
        assert(env_view(r@) =~= before.push((v@[i as int].0@, v@[i as int].1)));
        i = i + 1;
        assert(env_view(r@) =~= env_view(v@).subrange(0, i as int));
    }
    assert(env_view(r@) =~= env_view(v@));
    r
}

/// Binds `name` to the type `t`.
fn bind_type(env: &mut Vec<(String, Type)>, name: &String, t: Type)
    ensures
        env_view(final(env)@) == store(env_view(old(env)@), name@, t),
{
    let ghost before = env_view(env@);
    match find_entry(env, name) {
        Some(i) => {
            proof {
                lemma_first_match(before, name@, i as int, t);
            }
            env.set(i, (name.clone(), t));
            assert(env_view(env@) =~= before.update(i as int, (name@, t)));
        },
        None => {
            proof {
                lemma_no_match(before, name@, t);
            }
            env.push((name.clone(), t));
            assert(env_view(env@) =~= before.push((name@, t)));
        },
    }
}

/// The type bound to `name`.
fn lookup_type(env: &Vec<(String, Type)>, name: &String) -> (r: Option<Type>)
    ensures
        r == lookup(env_view(env@), name@),
{
    match find_entry(env, name) {
        Some(i) => {
            proof {
                lemma_first_match(env_view(env@), name@, i as int, Type::Int);
            }
            Some(env[i].1)
        },
        None => {
            proof {
                lemma_no_match(env_view(env@), name@, Type::Int);
            }
            None
        },
    }
}

pub fn is_space_char(c: char) -> (r: bool)
    ensures
        r == is_space(c),
{
    let u = c as u32;
    (0x09 <= u && u <= 0x0d) || u == 0x20 || u == 0x85 || u == 0xa0 || u == 0x1680 || (0x2000
        <= u && u <= 0x200a) || u == 0x2028 || u == 0x2029 || u == 0x202f || u == 0x205f || u
        == 0x3000
}

fn is_digit_char(c: char) -> (r: bool)
    ensures
        r == is_digit(c),
{
    '0' <= c && c <= '9'
}

/// Whether `word` spells `lit`.
pub(crate) fn word_eq(word: &Vec<char>, lit: &str) -> (r: bool)
    ensures
        r == (word@ == lit@),
{
    let n = lit.unicode_len();
    if word.len() != n {
        return false;
    }
    let mut i: usize = 0;
    while i < n
        invariant
            n == lit@.len(),
            word@.len() == n,
            i <= n,
            forall|j: int| 0 <= j < i ==> word@[j] == lit@[j],
        decreases n - i,
    {
        if word[i] != lit.get_char(i) {
            return false;
        }
        i = i + 1;
    }
    assert(word@ =~= lit@);
    true
}

fn word_end_at(code: &Vec<char>, from: usize) -> (r: usize)
    requires
        from <= code@.len(),
    ensures
        r == word_end(code@, from as int),
        from <= r <= code@.len(),
{
    let mut i = from;
    while i < code.len() && !is_space_char(code[i])
        invariant
            from <= i <= code@.len(),
            word_end(code@, i as int) == word_end(code@, from as int),
        decreases code@.len() - i,
    {
        i = i + 1;
    }
    i
}

fn skip_space_at(code: &Vec<char>, from: usize) -> (r: usize)
    requires
        from <= code@.len(),
    ensures
        r == skip_space(code@, from as int),
        from <= r <= code@.len(),
        r < code@.len() ==> !is_space(code@[r as int]),
{
    let mut i = from;
    while i < code.len() && is_space_char(code[i])
        invariant
            from <= i <= code@.len(),
            skip_space(code@, i as int) == skip_space(code@, from as int),
        decreases code@.len() - i,
    {
        i = i + 1;
    }
    i
}

fn digits_end_at(code: &Vec<char>, from: usize) -> (r: usize)
    requires
        from <= code@.len(),
    ensures
        r == digits_end(code@, from as int),
        from <= r <= code@.len(),
        forall|j: int| from <= j < r ==> is_digit(#[trigger] code@[j]),
{
    let mut i = from;
    while i < code.len() && is_digit_char(code[i])
        invariant
            from <= i <= code@.len(),
            digits_end(code@, i as int) == digits_end(code@, from as int),
            forall|j: int| from <= j < i ==> is_digit(#[trigger] code@[j]),
        decreases code@.len() - i,
    {
        i = i + 1;
    }
    i
}

pub(crate) fn find_char_at(code: &Vec<char>, from: usize, c: char) -> (r: usize)
    requires
        from <= code@.len(),
    ensures
        r == find_char(code@, from as int, c),
        from <= r <= code@.len(),
{
    let mut i = from;
    while i < code.len() && code[i] != c
        invariant
            from <= i <= code@.len(),
            find_char(code@, i as int, c) == find_char(code@, from as int, c),
        decreases code@.len() - i,
    {
        i = i + 1;
    }
    i
}

/// The index of the `}` that closes the block whose text starts at `from`.
fn block_end_at(code: &Vec<char>, from: usize) -> (r: Option<usize>)
    requires
        1 <= from <= code@.len(),
    ensures
        match block_end(code@, from as int, 1) {
            Some(k) => r == Some(k as usize) && from <= k < code@.len(),
            None => r is None,
        },
{
    let mut i = from;
    let mut depth: usize = 1;
    while i < code.len()
        invariant
            1 <= from <= i <= code@.len(),
            1 <= depth <= i - from + 1,
            block_end(code@, i as int, depth as nat) == block_end(code@, from as int, 1),
        decreases code@.len() - i,
    {
        let c = code[i];
        if c == '{' {
            depth = depth + 1;
        } else if c == '}' {
            if depth <= 1 {
                return Some(i);
            }
            depth = depth - 1;
        }
        i = i + 1;
    }
    None
}

/// The number that the digits of `code` from `from` up to `to` spell, where
/// it is at most 2^63.
pub(crate) fn digits_number(code: &Vec<char>, from: usize, to: usize) -> (r: Option<u64>)
    requires
        from <= to <= code@.len(),
        forall|j: int| from <= j < to ==> is_digit(#[trigger] code@[j]),
    ensures
        match r {
            Some(v) => v as int == digits_value(code@.subrange(from as int, to as int)) && v
                <= 0x8000_0000_0000_0000u64,
            None => digits_value(code@.subrange(from as int, to as int)) > 0x8000_0000_0000_0000u64,
        },
{
    let mut acc: u64 = 0;
    let mut big = false;
    let mut i = from;
    assert(code@.subrange(from as int, from as int) =~= Seq::<char>::empty());
    while i < to
        invariant
            from <= i <= to <= code@.len(),
            forall|j: int| from <= j < to ==> is_digit(#[trigger] code@[j]),
            !big ==> acc as int == digits_value(code@.subrange(from as int, i as int)) && acc
                <= 0x8000_0000_0000_0000u64,
            big ==> digits_value(code@.subrange(from as int, i as int)) > 0x8000_0000_0000_0000u64,
        decreases to - i,
    {
        let ghost prefix = code@.subrange(from as int, i as int);
        let ghost longer = code@.subrange(from as int, i + 1);
        assert(longer.drop_last() =~= prefix);
        assert(longer.last() == code@[i as int]);
        assert(is_digit(code@[i as int]));
        let d = (code[i] as u32 - '0' as u32) as u64;
        assert(digits_value(longer) == digits_value(prefix) * 10 + d);
        if !big {
            let next: u128 = acc as u128 * 10 + d as u128;
            if next > 0x8000_0000_0000_0000u128 {
                big = true;
            } else {
                acc = next as u64;
            }
        }
        i = i + 1;
    }
    if big {
        None
    } else {
        Some(acc)
    }
}

fn op_word_of(w: &Vec<char>) -> (r: Option<OpWord>)
    ensures
        r == op_word(w@),
{
    if word_eq(w, "+") {
        Some(OpWord::Plus)
    } else if word_eq(w, "-") {
        Some(OpWord::Minus)
    } else if word_eq(w, "*") {
        Some(OpWord::Times)
    } else if word_eq(w, "/") {
        Some(OpWord::Divide)
    } else if word_eq(w, "%") {
        Some(OpWord::Modulo)
    } else if word_eq(w, "==") {
        Some(OpWord::Equal)
    } else if word_eq(w, "<") {
        Some(OpWord::Less)
    } else if word_eq(w, ">") {
        Some(OpWord::Greater)
    } else if word_eq(w, "<=") {
        Some(OpWord::LessEq)
    } else if word_eq(w, ">=") {
        Some(OpWord::GreaterEq)
    } else if word_eq(w, "og") {
        Some(OpWord::And)
    } else if word_eq(w, "dup") {
        Some(OpWord::Dup)
    } else if word_eq(w, "slipp") {
        Some(OpWord::Drop)
    } else if word_eq(w, "snu") {
        Some(OpWord::Swap)
    } else if word_eq(w, "over") {
        Some(OpWord::Over)
    } else if word_eq(w, "skrivnl") {
        Some(OpWord::Print)
    } else {
        None
    }
}

fn keyword_of_word(w: &Vec<char>) -> (r: Option<Keyword>)
    ensures
        r == keyword_of(w@),
{
    if word_eq(w, "sann") {
        Some(Keyword::True)
    } else if word_eq(w, "usann") {
        Some(Keyword::False)
    } else if word_eq(w, "når") {
        Some(Keyword::While)
    } else if word_eq(w, "hvis") {
        Some(Keyword::If)
    } else if word_eq(w, "ellvis") {
        Some(Keyword::ElseIf)
    } else if word_eq(w, "ellers") {
        Some(Keyword::Else)
    } else if word_eq(w, "var") {
        Some(Keyword::Var)
    } else {
        None
    }
}

fn binary_of(k: OpWord, a: Type, b: Type) -> (r: Option<(Op, Type)>)
    ensures
        r == typed_binary(k, a, b),
{
    match (k, a, b) {
        (OpWord::Plus, Type::Int, Type::Int) => Some((Op::SumInt, Type::Int)),
        (OpWord::Plus, Type::Str, Type::Str) => Some((Op::ConcatStr, Type::Str)),
        (OpWord::Minus, Type::Int, Type::Int) => Some((Op::SubInt, Type::Int)),
        (OpWord::Times, Type::Int, Type::Int) => Some((Op::MultInt, Type::Int)),
        (OpWord::Divide, Type::Int, Type::Int) => Some((Op::DivInt, Type::Int)),
        (OpWord::Modulo, Type::Int, Type::Int) => Some((Op::ModInt, Type::Int)),
        (OpWord::Equal, Type::Int, Type::Int) => Some((Op::EqInt, Type::Bool)),
        (OpWord::Less, Type::Int, Type::Int) => Some((Op::LtInt, Type::Bool)),
        (OpWord::Greater, Type::Int, Type::Int) => Some((Op::GtInt, Type::Bool)),
        (OpWord::LessEq, Type::Int, Type::Int) => Some((Op::LqInt, Type::Bool)),
        (OpWord::GreaterEq, Type::Int, Type::Int) => Some((Op::GqInt, Type::Bool)),
        (OpWord::And, Type::Bool, Type::Bool) => Some((Op::AndBool, Type::Bool)),
        _ => None,
    }
}


fn types_eq(a: &Vec<Type>, b: &Vec<Type>) -> (r: bool)
    ensures
        r == (a@ == b@),
{
    if a.len() != b.len() {
        return false;
    }
    let mut i: usize = 0;
    while i < a.len()
        invariant
            a@.len() == b@.len(),
            i <= a@.len(),
            forall|j: int| 0 <= j < i ==> a@[j] == b@[j],
        decreases a@.len() - i,
    {
        if a[i] != b[i] {
            return false;
        }
        i = i + 1;
    }
    assert(a@ =~= b@);
    true
}

/// Whether `longer` is `base` with one more type on top.
fn extends_by_one(longer: &Vec<Type>, base: &Vec<Type>) -> (r: bool)
    ensures
        r == (longer@.len() == base@.len() + 1 && longer@.drop_last() == base@),
{
    if longer.len() == 0 || longer.len() - 1 != base.len() {
        return false;
    }
    let mut i: usize = 0;
    while i < base.len()
        invariant
            longer@.len() == base@.len() + 1,
            i <= base@.len(),
            forall|j: int| 0 <= j < i ==> longer@[j] == base@[j],
        decreases base@.len() - i,
    {
        if longer[i] != base[i] {
            assert(longer@.drop_last()[i as int] != base@[i as int]);
            return false;
        }
        i = i + 1;
    }
    assert(longer@.drop_last() =~= base@);
    true
}

/// Whether `longer` is `base` with a `Bool` on top.
fn is_condition_stack(longer: &Vec<Type>, base: &Vec<Type>) -> (r: bool)
    ensures
        r == (longer@ == base@.push(Type::Bool)),
{
    if !extends_by_one(longer, base) {
        proof {
            if longer@ == base@.push(Type::Bool) {
                assert(longer@.drop_last() =~= base@);
            }
        }
        return false;
    }
    let n = longer.len();
    let r = longer[n - 1] == Type::Bool;
    proof {
        if r {
            assert(longer@ =~= base@.push(Type::Bool));
        }
    }
    r
}

/// How a statement compiler that started at `pos` on `before` and left
/// `after` and `r` meets the outcome `expected` that the rules give.
pub open spec fn item_done(
    expected: Result<(int, Compiled), CompileFault>,
    code_len: int,
    pos: int,
    before: Parser,
    after: Parser,
    r: Result<usize, CompileError>,
) -> bool {
    match expected {
        Ok((next, st)) => r is Ok && r->Ok_0 == next && after@ == st && pos < next <= code_len
            && after.ast@.len() + pos <= before.ast@.len() + next,
        Err(e) => r is Err && r->Err_0@ == e,
    }
}

/// Compiles `code` from the type stack `ts` with the bindings `env`.
fn parse_chars(code: &Vec<char>, ts: Vec<Type>, env: Vec<(String, Type)>) -> (r: Result<
    Parser,
    CompileError,
>)
    requires
        code@.len() <= MAX_SOURCE_LEN,
    ensures
        match compile(code@, ts@, env_view(env@)) {
            Ok(c) => r is Ok && r->Ok_0@ == c && r->Ok_0.ast@.len() <= code@.len(),
            Err(e) => r is Err && r->Err_0@ == e,
        },
    decreases code@.len(), 3nat,
{
    let ghost expected = compile(code@, ts@, env_view(env@));
    let ghost start = nested(ts@, env_view(env@));
    assert(expected == parse_from(code@, 0, start));
    let mut p = Parser { ast: Vec::new(), type_stack: ts, bindings: env };
    assert(program_of(p.ast@) =~= Seq::<Instr>::empty());
    assert(p@ == start);
    let mut pos: usize = 0;
    while pos < code.len()
        invariant
            code@.len() <= MAX_SOURCE_LEN,
            pos <= code@.len(),
            p.ast@.len() <= pos,
            parse_from(code@, pos as int, p@) == expected,
            expected == compile(code@, ts@, env_view(env@)),
        decreases code@.len() - pos,
    {
        let ghost before = p@;
        match p.parse_item(code, pos) {
            Ok(next) => {
                pos = next;
            },
            Err(e) => {
                assert(parse_from(code@, pos as int, before) == Err::<Compiled, CompileFault>(e@));
                return Err(e);
            },
        }
    }
    Ok(p)
}

/// Compiles the text of `code` from `from` up to `to`, from the type stack
/// `ts` with the bindings `env`.
fn compile_text(code: &Vec<char>, from: usize, to: usize, ts: &Vec<Type>, env: Vec<(String, Type)>) -> (r: Result<Parser, CompileError>)
    requires
        1 <= from <= to <= code@.len(),
        code@.len() <= MAX_SOURCE_LEN,
    ensures
        match compile(text(code@, from as int, to as int), ts@, env_view(env@)) {
            Ok(c) => r is Ok && r->Ok_0@ == c && r->Ok_0.ast@.len() <= to - from,
            Err(e) => r is Err && r->Err_0@ == e,
        },
    decreases code@.len(), 0nat,
{
    let sub = slice_chars(code, from, to);
    parse_chars(&sub, copy_types(ts), env)
}

impl Parser {
    /// Compiles `code`, starting from the type stack `context` (empty where
    /// there is none) and no bindings.
    pub fn parse(code: &Vec<char>, context: Option<Vec<Type>>) -> (r: Result<Parser, CompileError>)
        requires
            code@.len() <= MAX_SOURCE_LEN,
        ensures
            match compile(
                code@,
                match context {
                    Some(c) => c@,
                    None => Seq::empty(),
                },
                Seq::empty(),
            ) {
                Ok(c) => r is Ok && r->Ok_0@ == c,
                Err(e) => r is Err && r->Err_0@ == e,
            },
    {
        let ts = match context {
            Some(c) => c,
            None => Vec::new(),
        };
        let env: Vec<(String, Type)> = Vec::new();
        assert(env_view(env@) =~= Seq::<(Seq<char>, Type)>::empty());
        parse_chars(code, ts, env)
    }

    fn ends_with_marker(&self) -> (r: bool)
        ensures
            r == ends_conditional(self@.ast),
    {
        let n = self.ast.len();
        n > 0 && matches!(self.ast[n - 1], Node::EndOfIf)
    }

    /// Compiles the operator `k`, spelled `w`.
    fn apply_operator(&mut self, k: OpWord, w: &Vec<char>) -> (r: Result<(), CompileError>)
        ensures
            match compile_operator(k, w@, old(self)@.ts) {
                Ok((ins, ts)) => r is Ok && final(self)@ == Compiled {
                    ast: old(self)@.ast.push(ins),
                    ts,
                    ..old(self)@
                } && final(self).ast@.len() == old(self).ast@.len() + 1,
                Err(e) => r is Err && r->Err_0@ == e,
            },
    {
        let ghost old_ast = self@.ast;
        let ghost ts0 = self.type_stack@;
        let n = self.type_stack.len();
        let arity: usize = match k {
            OpWord::Dup | OpWord::Drop | OpWord::Print => 1,
            _ => 2,
        };
        if n < arity {
            let operator = text_string(w, 0, w.len());
            assert(operator@ =~= w@);
            return Err(CompileError::TypeError { operator, operand_types: copy_types(&self.type_stack) });
        }
        let node = match k {
            OpWord::Dup => {
                let t = self.type_stack[n - 1];
                self.type_stack.push(t);
                Node::Operator { op: Op::Dup, arity: 1 }
            },
            OpWord::Drop => {
                self.type_stack.pop();
                Node::Operator { op: Op::Drop, arity: 1 }
            },
            OpWord::Print => {
                self.type_stack.pop();
                Node::Operator { op: Op::Println, arity: 1 }
            },
            OpWord::Swap => {
                let b = self.type_stack.pop().unwrap();
                let a = self.type_stack.pop().unwrap();
                self.type_stack.push(b);
                self.type_stack.push(a);
                assert(self.type_stack@ =~= ts0.subrange(0, n - 2).push(ts0[n - 1]).push(ts0[n - 2]));
                Node::Operator { op: Op::Swap, arity: 2 }
            },
            OpWord::Over => {
                let a = self.type_stack[n - 2];
                self.type_stack.push(a);
                Node::Operator { op: Op::Over, arity: 2 }
            },
            _ => {
                let a = self.type_stack[n - 2];
                let b = self.type_stack[n - 1];
                match binary_of(k, a, b) {
                    Some((op, t)) => {
                        self.type_stack.pop();
                        self.type_stack.pop();
                        self.type_stack.push(t);
                        assert(self.type_stack@ =~= ts0.subrange(0, n - 2).push(t));
                        Node::Operator { op, arity: 2 }
                    },
                    None => {
                        let operator = text_string(w, 0, w.len());
                        assert(operator@ =~= w@);
                        let operand_types = vec![a, b];
                        assert(operand_types@ =~= ts0.subrange(n - 2, n as int));
                        return Err(CompileError::TypeError { operator, operand_types });
                    },
                }
            },
        };
        self.ast.push(node);
        assert(program_of(self.ast@) =~= old_ast.push(node@));
        Ok(())
    }

    /// Appends the code of a conditional, an arm after one, or a loop, with
    /// the condition `cond_ast` and the block `body_ast`.
    fn emit_branch_code(&mut self, kw: Keyword, cond_ast: Vec<Node>, body_ast: Vec<Node>)
        requires
            kw is If || kw is ElseIf || kw is While,
            cond_ast@.len() + body_ast@.len() + 2 <= MAX_SOURCE_LEN,
            kw is ElseIf ==> old(self).ast@.len() > 0,
        ensures
            final(self).type_stack == old(self).type_stack,
            final(self).bindings == old(self).bindings,
            program_of(final(self).ast@) == (if kw is ElseIf {
                old(self)@.ast.drop_last()
            } else {
                old(self)@.ast
            }) + emit_branch(kw, program_of(cond_ast@), program_of(body_ast@)),
            final(self).ast@.len() == old(self).ast@.len() + cond_ast@.len() + body_ast@.len() + 2,
    {
        let ghost c_ast = program_of(cond_ast@);
        let ghost b_ast = program_of(body_ast@);
        let mut cond_ast = cond_ast;
        let mut body_ast = body_ast;
        let clen = cond_ast.len();
        let blen = body_ast.len();
        if kw == Keyword::ElseIf {
            self.ast.pop();
        }
        let ghost kept = program_of(self.ast@);
        assert(kept =~= if kw is ElseIf {
            old(self)@.ast.drop_last()
        } else {
            old(self)@.ast
        });
        if kw == Keyword::While {
            self.ast.append(&mut cond_ast);
            self.ast.push(Node::JumpIfFalse(JumpPointer::new((blen + 1) as isize)));
            self.ast.append(&mut body_ast);
            self.ast.push(Node::Jump(JumpPointer::new(-((clen + blen + 2) as isize))));
        } else {
            if kw == Keyword::ElseIf {
                self.ast.push(Node::Jump(JumpPointer::new((clen + blen + 1) as isize)));
            }
            self.ast.append(&mut cond_ast);
            self.ast.push(Node::JumpIfFalse(JumpPointer::new((blen + 1) as isize)));
            self.ast.append(&mut body_ast);
            self.ast.push(Node::EndOfIf);
        }
        assert(program_of(self.ast@) =~= kept + emit_branch(kw, c_ast, b_ast));
    }
}

impl Parser {
    /// Compiles the item of `code` at `pos`; gives the index after it.
    fn parse_item(&mut self, code: &Vec<char>, pos: usize) -> (r: Result<usize, CompileError>)
        requires
            pos < code@.len(),
            code@.len() <= MAX_SOURCE_LEN,
        ensures
            item_done(parse_item(code@, pos as int, old(self)@), code@.len() as int, pos as int, *old(self), *final(self), r),
        decreases code@.len(), 2nat,
    {
        let ghost old_ast = self@.ast;
        let len = code.len();
        let c = code[pos];
        if is_space_char(c) {
            return Ok(pos + 1);
        }
        if is_digit_char(c) || (c == '-' && pos + 1 < len && is_digit_char(code[pos + 1])) {
            let neg = c == '-';
            let start = if neg {
                pos + 1
            } else {
                pos
            };
            assert(digits_end(code@, start as int) == digits_end(code@, start + 1));
            let end = digits_end_at(code, start + 1);
            assert forall|j: int| start <= j < end implies is_digit(#[trigger] code@[j]) by {
                if j > start {
                    assert(is_digit(code@[j]));
                }
            }
            match digits_number(code, start, end) {
                None => Err(CompileError::NumberOutOfRange),
                Some(mag) => {
                    let v: i64 = if neg {
                        if mag == 0x8000_0000_0000_0000u64 {
                            i64::MIN
                        } else {
                            -(mag as i64)
                        }
                    } else {
                        if mag == 0x8000_0000_0000_0000u64 {
                            return Err(CompileError::NumberOutOfRange);
                        }
                        mag as i64
                    };
                    self.ast.push(Node::PushInt(v));
                    self.type_stack.push(Type::Int);
                    assert(program_of(self.ast@) =~= old_ast.push(Instr::PushInt(v)));
                    Ok(end)
                },
            }
        } else if c == '"' {
            let close = find_char_at(code, pos + 1, '"');
            if close >= len {
                return Err(CompileError::UnterminatedString);
            }
            let s = text_string(code, pos + 1, close);
            let ghost sv = s@;
            self.ast.push(Node::PushStr(s));
            self.type_stack.push(Type::Str);
            assert(program_of(self.ast@) =~= old_ast.push(Instr::PushStr(sv)));
            Ok(close + 1)
        } else {
            assert(word_end(code@, pos as int) == word_end(code@, pos + 1));
            let end = word_end_at(code, pos + 1);
            let w = slice_chars(code, pos, end);
            match op_word_of(&w) {
                Some(k) => {
                    match self.apply_operator(k, &w) {
                        Ok(()) => Ok(end),
                        Err(e) => Err(e),
                    }
                },
                None => match keyword_of_word(&w) {
                    Some(Keyword::True) => {
                        self.ast.push(Node::PushBool(true));
                        self.type_stack.push(Type::Bool);
                        assert(program_of(self.ast@) =~= old_ast.push(Instr::PushBool(true)));
                        Ok(end)
                    },
                    Some(Keyword::False) => {
                        self.ast.push(Node::PushBool(false));
                        self.type_stack.push(Type::Bool);
                        assert(program_of(self.ast@) =~= old_ast.push(Instr::PushBool(false)));
                        Ok(end)
                    },
                    Some(Keyword::Else) => self.parse_else(code, pos, end),
                    Some(Keyword::Var) => self.parse_var(code, pos, end),
                    Some(kw) => self.parse_branch(code, pos, end, kw),
                    None => {
                        let name = text_string(code, pos, end);
                        match lookup_type(&self.bindings, &name) {
                            Some(t) => {
                                let ghost nv = name@;
                                self.ast.push(Node::Identifier(name));
                                self.type_stack.push(t);
                                assert(program_of(self.ast@) =~= old_ast.push(Instr::Identifier(nv)));
                                Ok(end)
                            },
                            None => Err(CompileError::UnknownIdentifier(name)),
                        }
                    },
                },
            }
        }
    }

    /// Compiles an `ellers` block; the keyword spans `pos` to `end`.
    fn parse_else(&mut self, code: &Vec<char>, pos: usize, end: usize) -> (r: Result<usize, CompileError>)
        requires
            pos < end <= code@.len(),
            code@.len() <= MAX_SOURCE_LEN,
        ensures
            item_done(parse_keyword(code@, pos as int, end as int, Keyword::Else, old(self)@), code@.len() as int, pos as int, *old(self), *final(self), r),
        decreases code@.len(), 1nat,
    {
        let ghost st = self@;
        let len = code.len();
        let open = skip_space_at(code, end);
        if !self.ends_with_marker() {
            return Err(CompileError::MisplacedElse);
        }
        if open >= len || code[open] != '{' {
            return Err(CompileError::MissingBlock);
        }
        let close = match block_end_at(code, open + 1) {
            Some(k) => k,
            None => {
                return Err(CompileError::UnterminatedBlock);
            },
        };
        let body = match compile_text(code, open + 1, close, &self.type_stack, copy_bindings(&self.bindings)) {
            Ok(b) => b,
            Err(e) => {
                return Err(e);
            },
        };
        if !types_eq(&body.type_stack, &self.type_stack) {
            return Err(CompileError::BlockStackError);
        }
        let Parser { ast: mut body_ast, bindings: body_bindings, .. } = body;
        let ghost b_ast = program_of(body_ast@);
        let blen = body_ast.len();
        self.ast.pop();
        self.ast.push(Node::Jump(JumpPointer::new(blen as isize)));
        self.ast.append(&mut body_ast);
        self.bindings = body_bindings;
        assert(program_of(self.ast@) =~= st.ast.drop_last() + seq![Instr::Jump(blen as int)] + b_ast);
        Ok(close + 1)
    }

    /// Compiles a `hvis`, `ellvis` or `når` statement; the keyword spans
    /// `pos` to `end`.
    fn parse_branch(&mut self, code: &Vec<char>, pos: usize, end: usize, kw: Keyword) -> (r: Result<usize, CompileError>)
        requires
            pos < end <= code@.len(),
            code@.len() <= MAX_SOURCE_LEN,
            kw is If || kw is ElseIf || kw is While,
        ensures
            item_done(parse_keyword(code@, pos as int, end as int, kw, old(self)@), code@.len() as int, pos as int, *old(self), *final(self), r),
        decreases code@.len(), 1nat,
    {
        let len = code.len();
        let open = find_char_at(code, end, '{');
        if kw == Keyword::ElseIf && !self.ends_with_marker() {
            return Err(CompileError::MisplacedElse);
        }
        if open >= len {
            return Err(CompileError::MissingBlock);
        }
        let cond = match compile_text(code, end, open, &self.type_stack, copy_bindings(&self.bindings)) {
            Ok(c) => c,
            Err(e) => {
                return Err(e);
            },
        };
        if !is_condition_stack(&cond.type_stack, &self.type_stack) {
            return Err(CompileError::ConditionError);
        }
        let close = match block_end_at(code, open + 1) {
            Some(k) => k,
            None => {
                return Err(CompileError::UnterminatedBlock);
            },
        };
        let Parser { ast: cond_ast, bindings: cond_bindings, .. } = cond;
        let body = match compile_text(code, open + 1, close, &self.type_stack, cond_bindings) {
            Ok(b) => b,
            Err(e) => {
                return Err(e);
            },
        };
        if !types_eq(&body.type_stack, &self.type_stack) {
            return Err(CompileError::BlockStackError);
        }
        let Parser { ast: body_ast, bindings: body_bindings, .. } = body;
        self.emit_branch_code(kw, cond_ast, body_ast);
        self.bindings = body_bindings;
        Ok(close + 1)
    }

    /// Compiles a `var` binding; the keyword spans `pos` to `end`.
    fn parse_var(&mut self, code: &Vec<char>, pos: usize, end: usize) -> (r: Result<usize, CompileError>)
        requires
            pos < end <= code@.len(),
            code@.len() <= MAX_SOURCE_LEN,
        ensures
            item_done(parse_keyword(code@, pos as int, end as int, Keyword::Var, old(self)@), code@.len() as int, pos as int, *old(self), *final(self), r),
        decreases code@.len(), 1nat,
    {
        let ghost st = self@;
        let len = code.len();
        let name_start = skip_space_at(code, end);
        let name_end = word_end_at(code, name_start);
        let name_chars = slice_chars(code, name_start, name_end);
        if name_start >= len || op_word_of(&name_chars).is_some() || keyword_of_word(
            &name_chars,
        ).is_some() {
            return Err(CompileError::MalformedBinding);
        }
        let eq = skip_space_at(code, name_end);
        if eq >= len || code[eq] != '=' {
            return Err(CompileError::MalformedBinding);
        }
        let vstart = skip_space_at(code, eq + 1);
        let (from, to, next) = if vstart < len && code[vstart] == '{' {
            match block_end_at(code, vstart + 1) {
                Some(close) => (vstart + 1, close, close + 1),
                None => {
                    return Err(CompileError::UnterminatedBlock);
                },
            }
        } else {
            let e = find_char_at(code, vstart, '\n');
            (vstart, e, e)
        };
        assert(binding_text(code@, vstart as int) == Some((from as int, to as int, next as int)));
        let value = match compile_text(code, from, to, &self.type_stack, copy_bindings(&self.bindings)) {
            Ok(v) => v,
            Err(e) => {
                return Err(e);
            },
        };
        if !extends_by_one(&value.type_stack, &self.type_stack) {
            return Err(CompileError::MalformedBinding);
        }
        let t = value.type_stack[value.type_stack.len() - 1];
        let name = text_string(code, name_start, name_end);
        match lookup_type(&value.bindings, &name) {
            Some(t0) => {
                if t0 != t {
                    return Err(CompileError::RebindingError(name));
                }
            },
            None => {},
        }
        let Parser { ast: mut value_ast, bindings: mut value_bindings, .. } = value;
        let ghost v_ast = program_of(value_ast@);
        bind_type(&mut value_bindings, &name, t);
        let ghost nv = name@;
        self.ast.push(Node::DefineConst(name.clone()));
        self.ast.append(&mut value_ast);
        self.ast.push(Node::Return(name));
        self.bindings = value_bindings;
        assert(program_of(self.ast@) =~= st.ast + seq![Instr::DefineConst(nv)] + v_ast + seq![
            Instr::Return(nv),
        ]);
        Ok(next)
    }
}

} // verus!
