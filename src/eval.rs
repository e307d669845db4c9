use vstd::prelude::*;
use crate::utils::{
    find_entry, lemma_first_match, lemma_no_match, lookup, mem_view, op_arity, program_of, store, Instr,
    JumpPointer, Node, Op, Runtime, RuntimeModel, Value, ValueModel,
};

verus! {

/// Why the virtual machine stopped on a program.
#[derive(Debug, Clone)]
pub enum RuntimeError {
    /// An identifier was loaded that no binding has given a value.
    UnboundName(String),
    /// An operand did not have the kind of value its instruction needs.
    TypeMismatch,
    /// An instruction needed more operands than the stack held.
    StackUnderflow,
    /// A division or remainder by zero.
    DivisionByZero,
    /// An integer result that does not fit in 64 bits.
    Overflow,
    /// A jump to a position before the start of the program.
    InvalidJump,
}

/// What a runtime error is, with a name as a sequence of characters.
pub enum Fault {
    UnboundName(Seq<char>),
    TypeMismatch,
    StackUnderflow,
    DivisionByZero,
    Overflow,
    InvalidJump,
}

impl View for RuntimeError {
    type V = Fault;

    open spec fn view(&self) -> Fault {
        match self {
            RuntimeError::UnboundName(s) => Fault::UnboundName(s@),
            RuntimeError::TypeMismatch => Fault::TypeMismatch,
            RuntimeError::StackUnderflow => Fault::StackUnderflow,
            RuntimeError::DivisionByZero => Fault::DivisionByZero,
            RuntimeError::Overflow => Fault::Overflow,
            RuntimeError::InvalidJump => Fault::InvalidJump,
        }
    }
}

pub open spec fn int_or_overflow(r: Option<i64>) -> Result<ValueModel, Fault> {
    match r {
        Some(n) => Ok(ValueModel::Int(n)),
        None => Err(Fault::Overflow),
    }
}

/// The value that a two-operand operator computes from `a` and `b`.
pub open spec fn binary_result(op: Op, a: ValueModel, b: ValueModel) -> Result<ValueModel, Fault> {
    match (a, b) {
        (ValueModel::Int(x), ValueModel::Int(y)) => match op {
            Op::SumInt => int_or_overflow(x.checked_add(y)),
            Op::SubInt => int_or_overflow(x.checked_sub(y)),
            Op::MultInt => int_or_overflow(x.checked_mul(y)),
            Op::DivInt => if y == 0 {
                Err(Fault::DivisionByZero)
            } else {
                int_or_overflow(x.checked_div(y))
            },
            Op::ModInt => if y == 0 {
                Err(Fault::DivisionByZero)
            } else {
                int_or_overflow(x.checked_rem(y))
            },
            Op::EqInt => Ok(ValueModel::Bool(x == y)),
            Op::LtInt => Ok(ValueModel::Bool(x < y)),
            Op::GtInt => Ok(ValueModel::Bool(x > y)),
            Op::LqInt => Ok(ValueModel::Bool(x <= y)),
            Op::GqInt => Ok(ValueModel::Bool(x >= y)),
            _ => Err(Fault::TypeMismatch),
        },
        (ValueModel::Str(x), ValueModel::Str(y)) => if op == Op::ConcatStr {
            Ok(ValueModel::Str(x + y))
        } else {
            Err(Fault::TypeMismatch)
        },
        (ValueModel::Bool(x), ValueModel::Bool(y)) => if op == Op::AndBool {
            Ok(ValueModel::Bool(x && y))
        } else {
            Err(Fault::TypeMismatch)
        },
        _ => Err(Fault::TypeMismatch),
    }
}

/// What applying `op` to its operands `args` (in source order) does: the
/// values it pushes, and the value it prints, if any.
pub open spec fn apply_op(op: Op, args: Seq<ValueModel>) -> Result<
    (Seq<ValueModel>, Option<ValueModel>),
    Fault,
> {
    if args.len() != op_arity(op) {
        Err(Fault::TypeMismatch)
    } else {
        match op {
            Op::Dup => Ok((seq![args[0], args[0]], None)),
            Op::Drop => Ok((Seq::empty(), None)),
            Op::Println => Ok((Seq::empty(), Some(args[0]))),
            Op::Swap => Ok((seq![args[1], args[0]], None)),
            Op::Over => Ok((seq![args[0], args[1], args[0]], None)),
            _ => match binary_result(op, args[0], args[1]) {
                Ok(v) => Ok((seq![v], None)),
                Err(e) => Err(e),
            },
        }
    }
}

/// The state after a jump whose target is `target`: execution resumes at the
/// instruction after the target.
pub open spec fn jump_to(st: RuntimeModel, stack: Seq<ValueModel>, target: int) -> Result<
    (RuntimeModel, Option<ValueModel>),
    Fault,
> {
    if target + 1 < 0 || target + 1 > usize::MAX {
        Err(Fault::InvalidJump)
    } else {
        Ok((RuntimeModel { stack, pc: target + 1, ..st }, None))
    }
}

/// What the instruction at `st.pc` does: the next state and the value it
/// prints, if any.
pub open spec fn step(prog: Seq<Instr>, st: RuntimeModel) -> Result<
    (RuntimeModel, Option<ValueModel>),
    Fault,
>
    recommends
        0 <= st.pc < prog.len(),
{
    let n = st.stack.len();
    let next = RuntimeModel { pc: st.pc + 1, ..st };
    match prog[st.pc] {
        Instr::PushInt(x) => Ok((RuntimeModel { stack: st.stack.push(ValueModel::Int(x)), ..next }, None)),
        Instr::PushBool(b) => Ok(
            (RuntimeModel { stack: st.stack.push(ValueModel::Bool(b)), ..next }, None),
        ),
        Instr::PushStr(s) => Ok((RuntimeModel { stack: st.stack.push(ValueModel::Str(s)), ..next }, None)),
        Instr::Operator { op, arity } => if arity > n {
            Err(Fault::StackUnderflow)
        } else {
            match apply_op(op, st.stack.subrange(n - arity, n as int)) {
                Ok((pushed, out)) => Ok(
                    (RuntimeModel { stack: st.stack.subrange(0, n - arity) + pushed, ..next }, out),
                ),
                Err(e) => Err(e),
            }
        },
        Instr::Identifier(name) => match lookup(st.mem, name) {
            Some(v) => Ok((RuntimeModel { stack: st.stack.push(v), ..next }, None)),
            None => Err(Fault::UnboundName(name)),
        },
        Instr::Jump(off) => jump_to(st, st.stack, st.pc + off),
        Instr::JumpIfFalse(off) => if n == 0 {
            Err(Fault::StackUnderflow)
        } else {
            match st.stack[n - 1] {
                ValueModel::Bool(false) => jump_to(st, st.stack.drop_last(), st.pc + off),
                ValueModel::Bool(true) => Ok((RuntimeModel { stack: st.stack.drop_last(), ..next }, None)),
                _ => Err(Fault::TypeMismatch),
            }
        },
        Instr::EndOfIf => Ok((next, None)),
        Instr::DefineConst(name) => Ok(
            (RuntimeModel { mem: store(st.mem, name, ValueModel::Null), ..next }, None),
        ),
        Instr::Return(name) => if n == 0 {
            Err(Fault::StackUnderflow)
        } else {
            Ok(
                (
                    RuntimeModel {
                        stack: st.stack.drop_last(),
                        mem: store(st.mem, name, st.stack[n - 1]),
                        ..next
                    },
                    None,
                ),
            )
        },
    }
}

/// The outcome of running a program for at most `fuel` steps from `st`: the
/// last state, what was printed, and `Ok(true)` where the program ran to its
/// end, `Ok(false)` where the steps ran out first, `Err` where an instruction
/// failed (the state is then the one before that instruction).
pub open spec fn run(prog: Seq<Instr>, st: RuntimeModel, fuel: nat) -> (
    RuntimeModel,
    Seq<ValueModel>,
    Result<bool, Fault>,
)
    decreases fuel,
{
    if st.pc >= prog.len() {
        (st, Seq::empty(), Ok(true))
    } else if fuel == 0 {
        (st, Seq::empty(), Ok(false))
    } else {
        match step(prog, st) {
            Err(e) => (st, Seq::empty(), Err(e)),
            Ok((next, out)) => {
                let (last, rest, status) = run(prog, next, (fuel - 1) as nat);
                (last, printed(out) + rest, status)
            },
        }
    }
}

pub open spec fn printed(out: Option<ValueModel>) -> Seq<ValueModel> {
    match out {
        Some(v) => seq![v],
        None => Seq::empty(),
    }
}

pub open spec fn initial_state() -> RuntimeModel {
    RuntimeModel { stack: Seq::empty(), mem: Seq::empty(), pc: 0 }
}

pub open spec fn opt_view(o: Option<Value>) -> Option<ValueModel> {
    match o {
        Some(v) => Some(v@),
        None => None,
    }
}

/// The result of running a program.
pub struct Execution {
    /// The state in which the machine stopped.
    pub runtime: Runtime,
    /// The values printed, in order.
    pub output: Vec<Value>,
    /// `Ok(true)` where the program ran to its end, `Ok(false)` where the
    /// allowed steps ran out first.
    pub result: Result<bool, RuntimeError>,
}

pub open spec fn values_of(v: Seq<Value>) -> Seq<ValueModel> {
    v.map_values(|x: Value| x@)
}

pub open spec fn result_view(r: Result<bool, RuntimeError>) -> Result<bool, Fault> {
    match r {
        Ok(b) => Ok(b),
        Err(e) => Err(e@),
    }
}

fn int_value(r: Option<i64>) -> (v: Result<Value, RuntimeError>)
    ensures
        match int_or_overflow(r) {
            Ok(x) => v is Ok && v->Ok_0@ == x,
            Err(e) => v is Err && v->Err_0@ == e,
        },
{
    match r {
        Some(n) => Ok(Value::Int(n)),
        None => Err(RuntimeError::Overflow),
    }
}

/// Computes a two-operand operator on `a` and `b`.
pub fn binary(op: Op, a: &Value, b: &Value) -> (r: Result<Value, RuntimeError>)
    ensures
        match binary_result(op, a@, b@) {
            Ok(x) => r is Ok && r->Ok_0@ == x,
            Err(e) => r is Err && r->Err_0@ == e,
        },
{
    match (a, b) {
        (Value::Int(x), Value::Int(y)) => {
            let (x, y) = (*x, *y);
            match op {
                Op::SumInt => int_value(x.checked_add(y)),
                Op::SubInt => int_value(x.checked_sub(y)),
                Op::MultInt => int_value(x.checked_mul(y)),
                Op::DivInt => if y == 0 {
                    Err(RuntimeError::DivisionByZero)
                } else {
                    int_value(x.checked_div(y))
                },
                Op::ModInt => if y == 0 {
                    Err(RuntimeError::DivisionByZero)
                } else {
                    int_value(x.checked_rem(y))
                },
                Op::EqInt => Ok(Value::Bool(x == y)),
                Op::LtInt => Ok(Value::Bool(x < y)),
                Op::GtInt => Ok(Value::Bool(x > y)),
                Op::LqInt => Ok(Value::Bool(x <= y)),
                Op::GqInt => Ok(Value::Bool(x >= y)),
                _ => Err(RuntimeError::TypeMismatch),
            }
        },
        (Value::Str(x), Value::Str(y)) => if op == Op::ConcatStr {
            Ok(Value::Str(x.clone().concat(y.as_str())))
        } else {
            Err(RuntimeError::TypeMismatch)
        },
        (Value::Bool(x), Value::Bool(y)) => if op == Op::AndBool {
            Ok(Value::Bool(*x && *y))
        } else {
            Err(RuntimeError::TypeMismatch)
        },
        _ => Err(RuntimeError::TypeMismatch),
    }
}

/// Applies `op` to its operands `args`, in source order.
pub fn apply(op: Op, args: &Vec<Value>) -> (r: Result<(Vec<Value>, Option<Value>), RuntimeError>)
    ensures
        match apply_op(op, values_of(args@)) {
            Ok((pushed, out)) => r is Ok && values_of(r->Ok_0.0@) == pushed && opt_view(r->Ok_0.1)
                == out,
            Err(e) => r is Err && r->Err_0@ == e,
        },
{
    let ghost args_m = values_of(args@);
    let arity: usize = match op {
        Op::Dup | Op::Drop | Op::Println => 1,
        _ => 2,
    };
    if args.len() != arity {
        return Err(RuntimeError::TypeMismatch);
    }
    assert(args_m[0] == args@[0]@);
    assert(arity == 2 ==> args_m[1] == args@[1]@);
    match op {
        Op::Dup => {
            let r = vec![args[0].duplicate(), args[0].duplicate()];
            assert(values_of(r@) =~= seq![args_m[0], args_m[0]]);
            Ok((r, None))
        },
        Op::Drop => {
            let r: Vec<Value> = Vec::new();
            assert(values_of(r@) =~= Seq::<ValueModel>::empty());
            Ok((r, None))
        },
        Op::Println => {
            let r: Vec<Value> = Vec::new();
            assert(values_of(r@) =~= Seq::<ValueModel>::empty());
            Ok((r, Some(args[0].duplicate())))
        },
        Op::Swap => {
            let r = vec![args[1].duplicate(), args[0].duplicate()];
            assert(values_of(r@) =~= seq![args_m[1], args_m[0]]);
            Ok((r, None))
        },
        Op::Over => {
            let r = vec![args[0].duplicate(), args[1].duplicate(), args[0].duplicate()];
            assert(values_of(r@) =~= seq![args_m[0], args_m[1], args_m[0]]);
            Ok((r, None))
        },
        _ => {
            let v = binary(op, &args[0], &args[1])?;
            let r = vec![v];
            assert(values_of(r@) =~= seq![r@[0]@]);
            Ok((r, None))
        },
    }
}


/// Binds `name` to `v` in the name store.
fn bind(mem: &mut Vec<(String, Value)>, name: &String, v: Value)
    ensures
        mem_view(final(mem)@) == store(mem_view(old(mem)@), name@, v@),
{
    let ghost before = mem_view(mem@);
    let ghost entry = (name@, v@);
    match find_entry(mem, name) {
        Some(i) => {
            proof {
                lemma_first_match(before, name@, i as int, v@);
            }
            mem.set(i, (name.clone(), v));
            assert(mem_view(mem@) =~= before.update(i as int, entry));
        },
        None => {
            proof {
                lemma_no_match(before, name@, v@);
            }
            mem.push((name.clone(), v));
            assert(mem_view(mem@) =~= before.push(entry));
        },
    }
}

impl Runtime {
    /// A machine with an empty stack and store, about to run the first
    /// instruction.
    pub fn new() -> (r: Runtime)
        ensures
            r@ == initial_state(),
    {
        let r = Runtime { stack: Vec::new(), mem: Vec::new(), op_counter: 0 };
        assert(r@.stack =~= Seq::<ValueModel>::empty());
        assert(r@.mem =~= Seq::<(Seq<char>, ValueModel)>::empty());
        r
    }

    /// Moves the pointer as the jump `j` at the current instruction says,
    /// leaving the stack and store as they are.
    fn jump(&mut self, j: &JumpPointer) -> (r: Result<Option<Value>, RuntimeError>)
        requires
            old(self).op_counter < usize::MAX,
        ensures
            match jump_to(old(self)@, old(self)@.stack, old(self)@.pc + j@) {
                Ok((st, out)) => r is Ok && final(self)@ == st && opt_view(r->Ok_0) == out,
                Err(e) => r is Err && r->Err_0@ == e && final(self)@ == old(self)@,
            },
    {
        let target: i128 = self.op_counter as i128 + j.offset() as i128 + 1;
        if target < 0 || target > usize::MAX as i128 {
            Err(RuntimeError::InvalidJump)
        } else {
            self.op_counter = j.resolve(self.op_counter + 1);
            Ok(None)
        }
    }

    /// Runs the instruction at the pointer. On an error the state is left
    /// as it was.
    pub fn step(&mut self, ast: &Vec<Node>) -> (r: Result<Option<Value>, RuntimeError>)
        requires
            old(self).op_counter < ast@.len(),
        ensures
            match step(program_of(ast@), old(self)@) {
                Ok((st, out)) => r is Ok && final(self)@ == st && opt_view(r->Ok_0) == out,
                Err(e) => r is Err && r->Err_0@ == e && final(self)@ == old(self)@,
            },
    {
        let ghost st = self@;
        let ghost n = self.stack@.len();
        let pc = self.op_counter;
        let len = ast.len();
        assert(pc + 1 <= len);
        assert(program_of(ast@)[pc as int] == ast@[pc as int]@);
        match &ast[pc] {
            Node::PushInt(x) => {
                self.stack.push(Value::Int(*x));
                self.op_counter = pc + 1;
                assert(self@.stack =~= st.stack.push(ValueModel::Int(*x)));
                Ok(None)
            },
            Node::PushBool(b) => {
                self.stack.push(Value::Bool(*b));
                self.op_counter = pc + 1;
                assert(self@.stack =~= st.stack.push(ValueModel::Bool(*b)));
                Ok(None)
            },
            Node::PushStr(s) => {
                self.stack.push(Value::Str(s.clone()));
                self.op_counter = pc + 1;
                assert(self@.stack =~= st.stack.push(ValueModel::Str(s@)));
                Ok(None)
            },
            Node::Operator { op, arity } => {
                if *arity > self.stack.len() {
                    return Err(RuntimeError::StackUnderflow);
                }
                let split = self.stack.len() - *arity;
                let mut args = self.stack.split_off(split);
                assert(values_of(args@) =~= st.stack.subrange(split as int, n as int));
                assert(self@.stack =~= st.stack.subrange(0, split as int));
                match apply(*op, &args) {
                    Ok((pushed, out)) => {
                        let mut pushed = pushed;
                        let ghost kept = self@.stack;
                        let ghost new_vals = values_of(pushed@);
                        self.stack.append(&mut pushed);
                        self.op_counter = pc + 1;
                        assert(self@.stack =~= kept + new_vals);
                        Ok(out)
                    },
                    Err(e) => {
                        self.stack.append(&mut args);
                        assert(self@.stack =~= st.stack);
                        assert(self@ == st);
                        Err(e)
                    },
                }
            },
            Node::Identifier(name) => {
                match find_entry(&self.mem, name) {
                    Some(i) => {
                        proof {
                            lemma_first_match(st.mem, name@, i as int, ValueModel::Null);
                        }
                        let v = self.mem[i].1.duplicate();
                        self.stack.push(v);
                        self.op_counter = pc + 1;
                        assert(self@.stack =~= st.stack.push(st.mem[i as int].1));
                        Ok(None)
                    },
                    None => {
                        proof {
                            lemma_no_match(st.mem, name@, ValueModel::Null);
                        }
                        Err(RuntimeError::UnboundName(name.clone()))
                    },
                }
            },
            Node::Jump(j) => self.jump(j),
            Node::JumpIfFalse(j) => {
                if self.stack.len() == 0 {
                    return Err(RuntimeError::StackUnderflow);
                }
                match &self.stack[self.stack.len() - 1] {
                    Value::Bool(b) => {
                        let b = *b;
                        let ghost popped = st.stack.drop_last();
                        let r = self.jump(j);
                        if b {
                            self.op_counter = pc + 1;
                        }
                        if r.is_ok() || b {
                            self.stack.pop();
                            assert(self@.stack =~= popped);
                            Ok(None)
                        } else {
                            self.op_counter = pc;
                            r
                        }
                    },
                    _ => Err(RuntimeError::TypeMismatch),
                }
            },
            Node::EndOfIf => {
                self.op_counter = pc + 1;
                Ok(None)
            },
            Node::DefineConst(name) => {
                bind(&mut self.mem, name, Value::Null);
                self.op_counter = pc + 1;
                Ok(None)
            },
            Node::Return(name) => {
                match self.stack.pop() {
                    Some(v) => {
                        assert(st.stack[n - 1] == v@);
                        bind(&mut self.mem, name, v);
                        self.op_counter = pc + 1;
                        assert(self@.stack =~= st.stack.drop_last());
                        Ok(None)
                    },
                    None => Err(RuntimeError::StackUnderflow),
                }
            },
        }
    }
}

/// Runs the program `ast` from an empty machine for at most `max_steps`
/// instructions.
pub fn eval(ast: &Vec<Node>, max_steps: u64) -> (r: Execution)
    ensures
        r.runtime@ == run(program_of(ast@), initial_state(), max_steps as nat).0,
        values_of(r.output@) == run(program_of(ast@), initial_state(), max_steps as nat).1,
        result_view(r.result) == run(program_of(ast@), initial_state(), max_steps as nat).2,
{
    let ghost prog = program_of(ast@);
    let mut rt = Runtime::new();
    let mut output: Vec<Value> = Vec::new();
    let mut fuel: u64 = max_steps;
    loop
        invariant
            prog == program_of(ast@),
            run(prog, initial_state(), max_steps as nat).0 == run(prog, rt@, fuel as nat).0,
            run(prog, initial_state(), max_steps as nat).1 == values_of(output@) + run(
                prog,
                rt@,
                fuel as nat,
            ).1,
            run(prog, initial_state(), max_steps as nat).2 == run(prog, rt@, fuel as nat).2,
        decreases fuel,
    {
        if rt.op_counter >= ast.len() {
            assert(run(prog, rt@, fuel as nat) == (rt@, Seq::<ValueModel>::empty(), Ok::<bool, Fault>(true)));
            assert(values_of(output@) + Seq::<ValueModel>::empty() =~= values_of(output@));
            return Execution { runtime: rt, output, result: Ok(true) };
        }
        if fuel == 0 {
            assert(run(prog, rt@, fuel as nat) == (rt@, Seq::<ValueModel>::empty(), Ok::<bool, Fault>(false)));
            assert(values_of(output@) + Seq::<ValueModel>::empty() =~= values_of(output@));
            return Execution { runtime: rt, output, result: Ok(false) };
        }
        let ghost before = rt@;
        let ghost old_out = values_of(output@);
        match rt.step(ast) {
            Err(e) => {
                assert(run(prog, rt@, fuel as nat) == (rt@, Seq::<ValueModel>::empty(), Err::<bool, Fault>(e@)));
                assert(values_of(output@) + Seq::<ValueModel>::empty() =~= values_of(output@));
                return Execution { runtime: rt, output, result: Err(e) };
            },
            Ok(out) => {
                let ghost o = opt_view(out);
                let ghost rest = run(prog, rt@, (fuel - 1) as nat).1;
                if let Some(v) = out {
                    output.push(v);
                    assert(values_of(output@) =~= old_out + printed(o));
                } else {
                    assert(values_of(output@) =~= old_out + printed(o));
                }
                assert(old_out + (printed(o) + rest) =~= values_of(output@) + rest);
                assert(run(prog, before, fuel as nat).1 == printed(o) + rest);
                fuel = fuel - 1;
            },
        }
    }
}

} // verus!
