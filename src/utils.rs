use vstd::prelude::*;

verus! {

/// The operators that an `Operator` instruction can apply.
#[derive(Debug, Clone, Copy, PartialEq, Eq, Structural)]
pub enum Op {
    SumInt,
    SubInt,
    MultInt,
    DivInt,
    ModInt,
    ConcatStr,
    EqInt,
    LtInt,
    GtInt,
    LqInt,
    GqInt,
    AndBool,
    Dup,
    Drop,
    Swap,
    Over,
    Println,
}

/// The number of operands that `op` takes off the stack.
pub open spec fn op_arity(op: Op) -> nat {
    match op {
        Op::Dup | Op::Drop | Op::Println => 1,
        _ => 2,
    }
}

/// A relative jump, counted in instructions from the jump itself.
pub struct JumpPointer {
    offset: isize,
}

impl View for JumpPointer {
    type V = int;

    closed spec fn view(&self) -> int {
        self.offset as int
    }
}

impl JumpPointer {
    pub fn new(offset: isize) -> (r: JumpPointer)
        ensures
            r@ == offset as int,
    {
        JumpPointer { offset }
    }

    pub fn offset(&self) -> (r: isize)
        ensures
            r as int == self@,
    {
        self.offset
    }

    /// The position `offset` instructions away from `current_pos`.
    pub fn resolve(&self, current_pos: usize) -> (r: usize)
        requires
            0 <= current_pos + self@ <= usize::MAX,
        ensures
            r == current_pos + self@,
    {
        if self.offset >= 0 {
            current_pos + self.offset as usize
        } else {
            let back = (-(self.offset as i128)) as usize;
            current_pos - back
        }
    }
}

/// A runtime value.
#[derive(Debug, Clone)]
pub enum Value {
    Null,
    Int(i64),
    Bool(bool),
    Str(String),
}

/// What a runtime value is, with its text as a sequence of characters.
pub enum ValueModel {
    Null,
    Int(i64),
    Bool(bool),
    Str(Seq<char>),
}

impl View for Value {
    type V = ValueModel;

    open spec fn view(&self) -> ValueModel {
        match self {
            Value::Null => ValueModel::Null,
            Value::Int(n) => ValueModel::Int(*n),
            Value::Bool(b) => ValueModel::Bool(*b),
            Value::Str(s) => ValueModel::Str(s@),
        }
    }
}

impl Value {
    /// A copy of this value.
    pub fn duplicate(&self) -> (r: Value)
        ensures
            r@ == self@,
    {
        match self {
            Value::Null => Value::Null,
            Value::Int(n) => Value::Int(*n),
            Value::Bool(b) => Value::Bool(*b),
            Value::Str(s) => Value::Str(s.clone()),
        }
    }
}

/// A compile-time type: what a stack slot will hold at run time.
#[derive(Debug, Clone, Copy, PartialEq, Eq, Structural)]
pub enum Type {
    Int,
    Bool,
    Str,
}

/// One instruction of a compiled program.
pub enum Node {
    PushInt(i64),
    PushBool(bool),
    PushStr(String),
    Operator { op: Op, arity: usize },
    Identifier(String),
    Jump(JumpPointer),
    JumpIfFalse(JumpPointer),
    EndOfIf,
    DefineConst(String),
    Return(String),
}

/// What an instruction is, with names as sequences of characters and jump
/// offsets as integers.
pub enum Instr {
    PushInt(i64),
    PushBool(bool),
    PushStr(Seq<char>),
    Operator { op: Op, arity: nat },
    Identifier(Seq<char>),
    Jump(int),
    JumpIfFalse(int),
    EndOfIf,
    DefineConst(Seq<char>),
    Return(Seq<char>),
}

impl View for Node {
    type V = Instr;

    open spec fn view(&self) -> Instr {
        match self {
            Node::PushInt(n) => Instr::PushInt(*n),
            Node::PushBool(b) => Instr::PushBool(*b),
            Node::PushStr(s) => Instr::PushStr(s@),
            Node::Operator { op, arity } => Instr::Operator { op: *op, arity: *arity as nat },
            Node::Identifier(s) => Instr::Identifier(s@),
            Node::Jump(j) => Instr::Jump(j@),
            Node::JumpIfFalse(j) => Instr::JumpIfFalse(j@),
            Node::EndOfIf => Instr::EndOfIf,
            Node::DefineConst(s) => Instr::DefineConst(s@),
            Node::Return(s) => Instr::Return(s@),
        }
    }
}

/// The instructions of a program, as a sequence of models.
pub open spec fn program_of(ast: Seq<Node>) -> Seq<Instr> {
    ast.map_values(|n: Node| n@)
}

/// The value bound to `name` in a store of entries: the first entry with
/// that key.
pub open spec fn lookup<T>(entries: Seq<(Seq<char>, T)>, name: Seq<char>) -> Option<T>
    decreases entries.len(),
{
    if entries.len() == 0 {
        None
    } else if entries[0].0 == name {
        Some(entries[0].1)
    } else {
        lookup(entries.drop_first(), name)
    }
}

/// The store after binding `name` to `v`: the entry with that key is
/// overwritten, or a new entry is added at the end.
pub open spec fn store<T>(entries: Seq<(Seq<char>, T)>, name: Seq<char>, v: T) -> Seq<(Seq<char>, T)>
    decreases entries.len(),
{
    if entries.len() == 0 {
        seq![(name, v)]
    } else if entries[0].0 == name {
        entries.update(0, (name, v))
    } else {
        seq![entries[0]] + store(entries.drop_first(), name, v)
    }
}

/// The state of the virtual machine.
pub struct Runtime {
    pub stack: Vec<Value>,
    pub mem: Vec<(String, Value)>,
    pub op_counter: usize,
}

/// The entries of a name store, with keys as sequences of characters.
pub open spec fn mem_view(m: Seq<(String, Value)>) -> Seq<(Seq<char>, ValueModel)> {
    m.map_values(|e: (String, Value)| (e.0@, e.1@))
}

/// What the state of the virtual machine is.
pub struct RuntimeModel {
    pub stack: Seq<ValueModel>,
    pub mem: Seq<(Seq<char>, ValueModel)>,
    pub pc: int,
}

impl View for Runtime {
    type V = RuntimeModel;

    open spec fn view(&self) -> RuntimeModel {
        RuntimeModel {
            stack: self.stack@.map_values(|v: Value| v@),
            mem: mem_view(self.mem@),
            pc: self.op_counter as int,
        }
    }
}

} // verus!

verus! {

/// Where `lookup` finds the first entry with the key at index `i`, it reads
/// that entry, and `store` overwrites it in place.
pub proof fn lemma_first_match<T>(entries: Seq<(Seq<char>, T)>, name: Seq<char>, i: int, v: T)
    requires
        0 <= i < entries.len(),
        entries[i].0 == name,
        forall|j: int| 0 <= j < i ==> entries[j].0 != name,
    ensures
        lookup(entries, name) == Some(entries[i].1),
        store(entries, name, v) == entries.update(i, (name, v)),
    decreases i,
{
    if i > 0 {
        let rest = entries.drop_first();
        assert forall|j: int| 0 <= j < i - 1 implies rest[j].0 != name by {
            assert(rest[j] == entries[j + 1]);
        }
        lemma_first_match(rest, name, i - 1, v);
        assert(seq![entries[0]] + rest.update(i - 1, (name, v)) =~= entries.update(i, (name, v)));
    }
}

/// Where no entry has the key, `lookup` finds nothing and `store` appends.
pub proof fn lemma_no_match<T>(entries: Seq<(Seq<char>, T)>, name: Seq<char>, v: T)
    requires
        forall|j: int| 0 <= j < entries.len() ==> entries[j].0 != name,
    ensures
        lookup(entries, name) == None::<T>,
        store(entries, name, v) == entries.push((name, v)),
    decreases entries.len(),
{
    if entries.len() > 0 {
        let rest = entries.drop_first();
        assert forall|j: int| 0 <= j < rest.len() implies rest[j].0 != name by {
            assert(rest[j] == entries[j + 1]);
        }
        lemma_no_match(rest, name, v);
        assert(seq![entries[0]] + rest.push((name, v)) =~= entries.push((name, v)));
    }
}

/// After binding `name` to `v`, looking `name` up gives `v`, and every other
/// name keeps what it had.
pub proof fn lemma_store_lookup<T>(entries: Seq<(Seq<char>, T)>, name: Seq<char>, v: T, other: Seq<char>)
    ensures
        lookup(store(entries, name, v), name) == Some(v),
        other != name ==> lookup(store(entries, name, v), other) == lookup(entries, other),
    decreases entries.len(),
{
    if entries.len() > 0 && entries[0].0 != name {
        let s = store(entries, name, v);
        lemma_store_lookup(entries.drop_first(), name, v, other);
        assert(s.drop_first() =~= store(entries.drop_first(), name, v));
    } else if entries.len() > 0 {
        let s = store(entries, name, v);
        assert(s.drop_first() =~= entries.drop_first());
        if other != name {
            assert(lookup(s, other) == lookup(s.drop_first(), other));
            assert(lookup(entries, other) == lookup(entries.drop_first(), other));
        }
    } else {
        let s = store(entries, name, v);
        assert(s.drop_first() =~= Seq::<(Seq<char>, T)>::empty());
        if other != name {
            assert(lookup(s, other) == lookup(s.drop_first(), other));
            assert(lookup(s.drop_first(), other) == None::<T>);
        }
    }
}

/// Relies on `String::push`: the character is appended.
#[verifier::external_body]
pub(crate) fn push_char(s: &mut String, c: char)
    ensures
        final(s)@ == old(s)@.push(c),
{
    s.push(c)
}

/// The index of the first entry whose key is `name`, if any.
pub fn find_entry<T>(entries: &Vec<(String, T)>, name: &String) -> (r: Option<usize>)
    ensures
        match r {
            Some(i) => i < entries@.len() && entries@[i as int].0@ == name@ && forall|j: int|
                0 <= j < i ==> entries@[j].0@ != name@,
            None => forall|j: int| 0 <= j < entries@.len() ==> entries@[j].0@ != name@,
        },
{
    let mut i: usize = 0;
    while i < entries.len()
        invariant
            i <= entries@.len(),
            forall|j: int| 0 <= j < i ==> entries@[j].0@ != name@,
        decreases entries@.len() - i,
    {
        if entries[i].0 == *name {
            return Some(i);
        }
        i = i + 1;
    }
    None
}

} // verus!
