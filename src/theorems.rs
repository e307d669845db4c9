use vstd::prelude::*;
use crate::eval::{apply_op, printed, run, step, Fault};
use crate::grammar::{compile_operator, emit_branch, op_word, Keyword, OpWord};
use crate::utils::{lemma_store_lookup, lookup, store, Instr, Op, RuntimeModel, Type, ValueModel};

verus! {

/// Whether the value `v` is of the type `t`.
pub open spec fn has_type(v: ValueModel, t: Type) -> bool {
    match (v, t) {
        (ValueModel::Int(_), Type::Int) => true,
        (ValueModel::Bool(_), Type::Bool) => true,
        (ValueModel::Str(_), Type::Str) => true,
        _ => false,
    }
}

/// Whether the operand stack `s` holds, slot by slot, values of the types
/// in `ts`.
pub open spec fn stack_typed(s: Seq<ValueModel>, ts: Seq<Type>) -> bool {
    s.len() == ts.len() && forall|i: int| 0 <= i < s.len() ==> has_type(#[trigger] s[i], ts[i])
}

/// Operators keep the operand stack in step with the type stack: where the
/// operand stack matches the type stack before an operator, the instruction
/// it compiles to either leaves a stack that matches the type stack after
/// it, or stops on a division by zero or an overflow.
pub proof fn lemma_operator_keeps_types(
    k: OpWord,
    w: Seq<char>,
    ts: Seq<Type>,
    prog: Seq<Instr>,
    st: RuntimeModel,
)
    requires
        stack_typed(st.stack, ts),
        0 <= st.pc < prog.len(),
        compile_operator(k, w, ts) is Ok,
        prog[st.pc] == compile_operator(k, w, ts)->Ok_0.0,
    ensures
        match step(prog, st) {
            Ok((next, _)) => stack_typed(next.stack, compile_operator(k, w, ts)->Ok_0.1)
                && next.pc == st.pc + 1 && next.mem == st.mem,
            Err(e) => e is DivisionByZero || e is Overflow,
        },
{
    let n = ts.len();
    let s = st.stack;
    let ts2 = compile_operator(k, w, ts)->Ok_0.1;
    match step(prog, st) {
        Ok((next, _)) => {
            let arity: int = if k is Dup || k is Drop || k is Print {
                1
            } else {
                2
            };
            let args = s.subrange(n - arity, n as int);
            assert(has_type(s[n - 1], ts[n - 1]));
            if arity == 2 {
                assert(has_type(s[n - 2], ts[n - 2]));
            }
            assert forall|i: int| 0 <= i < next.stack.len() implies has_type(
                #[trigger] next.stack[i],
                ts2[i],
            ) by {
                if i < n - arity {
                    assert(has_type(s[i], ts[i]));
                }
            }
        },
        Err(e) => {
            assert(has_type(s[n - 1], ts[n - 1]));
            if n >= 2 {
                assert(has_type(s[n - 2], ts[n - 2]));
            }
        },
    }
}

/// `dup` names the duplicating operator; it puts a second copy of the top
/// type on the type stack, and its instruction a second copy of the top
/// value on the operand stack.
pub proof fn lemma_dup(ts: Seq<Type>, prog: Seq<Instr>, st: RuntimeModel)
    requires
        ts.len() > 0,
        st.stack.len() > 0,
        0 <= st.pc < prog.len(),
        prog[st.pc] == (Instr::Operator { op: Op::Dup, arity: 1 }),
    ensures
        op_word("dup"@) == Some(OpWord::Dup),
        compile_operator(OpWord::Dup, "dup"@, ts) == Ok::<(Instr, Seq<Type>), crate::grammar::CompileFault>(
            (Instr::Operator { op: Op::Dup, arity: 1 }, ts.push(ts.last())),
        ),
        step(prog, st) == Ok::<(RuntimeModel, Option<ValueModel>), Fault>(
            (RuntimeModel { stack: st.stack.push(st.stack.last()), pc: st.pc + 1, ..st }, None),
        ),
{
    reveal_strlit("dup");
    reveal_strlit("+");
    reveal_strlit("-");
    reveal_strlit("*");
    reveal_strlit("/");
    reveal_strlit("%");
    reveal_strlit("==");
    reveal_strlit("<");
    reveal_strlit(">");
    reveal_strlit("<=");
    reveal_strlit(">=");
    reveal_strlit("og");
    assert("dup"@ != "+"@) by {
        assert("dup"@.len() != "+"@.len());
    }
    assert("dup"@ != "-"@) by {
        assert("dup"@.len() != "-"@.len());
    }
    assert("dup"@ != "*"@) by {
        assert("dup"@.len() != "*"@.len());
    }
    assert("dup"@ != "/"@) by {
        assert("dup"@.len() != "/"@.len());
    }
    assert("dup"@ != "%"@) by {
        assert("dup"@.len() != "%"@.len());
    }
    assert("dup"@ != "=="@) by {
        assert("dup"@.len() != "=="@.len());
    }
    assert("dup"@ != "<"@) by {
        assert("dup"@.len() != "<"@.len());
    }
    assert("dup"@ != ">"@) by {
        assert("dup"@.len() != ">"@.len());
    }
    assert("dup"@ != "<="@) by {
        assert("dup"@.len() != "<="@.len());
    }
    assert("dup"@ != ">="@) by {
        assert("dup"@.len() != ">="@.len());
    }
    assert("dup"@ != "og"@) by {
        assert("dup"@.len() != "og"@.len());
    }
    let n = st.stack.len();
    let (next, _) = step(prog, st)->Ok_0;
    assert(st.stack.subrange(n - 1, n as int) =~= seq![st.stack.last()]);
    assert(st.stack.subrange(0, n - 1) + seq![st.stack.last(), st.stack.last()] =~= st.stack.push(
        st.stack.last(),
    ));
}

/// `snu` names the swapping operator; it exchanges the top two types, and
/// its instruction the top two values.
pub proof fn lemma_swap(ts: Seq<Type>, prog: Seq<Instr>, st: RuntimeModel)
    requires
        ts.len() >= 2,
        st.stack.len() >= 2,
        0 <= st.pc < prog.len(),
        prog[st.pc] == (Instr::Operator { op: Op::Swap, arity: 2 }),
    ensures
        op_word("snu"@) == Some(OpWord::Swap),
        compile_operator(OpWord::Swap, "snu"@, ts) == Ok::<(Instr, Seq<Type>), crate::grammar::CompileFault>(
            (
                Instr::Operator { op: Op::Swap, arity: 2 },
                ts.subrange(0, ts.len() - 2).push(ts[ts.len() - 1]).push(ts[ts.len() - 2]),
            ),
        ),
        step(prog, st) == Ok::<(RuntimeModel, Option<ValueModel>), Fault>(
            (
                RuntimeModel {
                    stack: st.stack.subrange(0, st.stack.len() - 2).push(
                        st.stack[st.stack.len() - 1],
                    ).push(st.stack[st.stack.len() - 2]),
                    pc: st.pc + 1,
                    ..st
                },
                None,
            ),
        ),
{
    reveal_strlit("snu");
    reveal_strlit("+");
    reveal_strlit("-");
    reveal_strlit("*");
    reveal_strlit("/");
    reveal_strlit("%");
    reveal_strlit("==");
    reveal_strlit("<");
    reveal_strlit(">");
    reveal_strlit("<=");
    reveal_strlit(">=");
    reveal_strlit("og");
    reveal_strlit("dup");
    reveal_strlit("slipp");
    assert("snu"@ != "+"@) by {
        assert("snu"@.len() != "+"@.len());
    }
    assert("snu"@ != "-"@) by {
        assert("snu"@.len() != "-"@.len());
    }
    assert("snu"@ != "*"@) by {
        assert("snu"@.len() != "*"@.len());
    }
    assert("snu"@ != "/"@) by {
        assert("snu"@.len() != "/"@.len());
    }
    assert("snu"@ != "%"@) by {
        assert("snu"@.len() != "%"@.len());
    }
    assert("snu"@ != "=="@) by {
        assert("snu"@.len() != "=="@.len());
    }
    assert("snu"@ != "<"@) by {
        assert("snu"@.len() != "<"@.len());
    }
    assert("snu"@ != ">"@) by {
        assert("snu"@.len() != ">"@.len());
    }
    assert("snu"@ != "<="@) by {
        assert("snu"@.len() != "<="@.len());
    }
    assert("snu"@ != ">="@) by {
        assert("snu"@.len() != ">="@.len());
    }
    assert("snu"@ != "og"@) by {
        assert("snu"@.len() != "og"@.len());
    }
    assert("snu"@ != "dup"@) by {
        assert("snu"@[0] != "dup"@[0]);
    }
    assert("snu"@ != "slipp"@) by {
        assert("snu"@.len() != "slipp"@.len());
    }
    let s = st.stack;
    let n = s.len();
    assert(s.subrange(n - 2, n as int) =~= seq![s[n - 2], s[n - 1]]);
    assert(s.subrange(0, n - 2) + seq![s[n - 1], s[n - 2]] =~= s.subrange(0, n - 2).push(
        s[n - 1],
    ).push(s[n - 2]));
}

/// `slipp` drops the top type, and its instruction the top value; `over`
/// copies the second type, and its instruction the second value, onto the
/// top.
pub proof fn lemma_drop_over(ts: Seq<Type>, prog: Seq<Instr>, st: RuntimeModel)
    requires
        ts.len() >= 2,
        st.stack.len() >= 2,
        0 <= st.pc < prog.len(),
    ensures
        compile_operator(OpWord::Drop, "slipp"@, ts)->Ok_0.1 == ts.drop_last(),
        compile_operator(OpWord::Over, "over"@, ts)->Ok_0.1 == ts.push(ts[ts.len() - 2]),
        prog[st.pc] == (Instr::Operator { op: Op::Drop, arity: 1 }) ==> step(prog, st)
            == Ok::<(RuntimeModel, Option<ValueModel>), Fault>(
            (RuntimeModel { stack: st.stack.drop_last(), pc: st.pc + 1, ..st }, None),
        ),
        prog[st.pc] == (Instr::Operator { op: Op::Over, arity: 2 }) ==> step(prog, st)
            == Ok::<(RuntimeModel, Option<ValueModel>), Fault>(
            (
                RuntimeModel {
                    stack: st.stack.push(st.stack[st.stack.len() - 2]),
                    pc: st.pc + 1,
                    ..st
                },
                None,
            ),
        ),
{
    let s = st.stack;
    let n = s.len();
    assert(s.subrange(0, n - 1) + Seq::<ValueModel>::empty() =~= s.drop_last());
    assert(s.subrange(n - 2, n as int) =~= seq![s[n - 2], s[n - 1]]);
    assert(s.subrange(0, n - 2) + seq![s[n - 2], s[n - 1], s[n - 2]] =~= s.push(s[n - 2]));
}

/// A conditional whose condition left `false` skips its block and the
/// marker after it; one whose condition left `true` enters its block.
pub proof fn lemma_if_skips_or_enters(
    prog: Seq<Instr>,
    at: int,
    c: Seq<Instr>,
    b: Seq<Instr>,
    st: RuntimeModel,
)
    requires
        0 <= at,
        at + c.len() + b.len() + 2 <= prog.len() <= usize::MAX,
        prog.subrange(at, at + c.len() + b.len() + 2) == emit_branch(Keyword::If, c, b),
        st.pc == at + c.len(),
        st.stack.len() > 0,
    ensures
        st.stack.last() == ValueModel::Bool(false) ==> step(prog, st) == Ok::<
            (RuntimeModel, Option<ValueModel>),
            Fault,
        >((RuntimeModel { stack: st.stack.drop_last(), pc: at + c.len() + b.len() + 2, ..st }, None)),
        st.stack.last() == ValueModel::Bool(true) ==> step(prog, st) == Ok::<
            (RuntimeModel, Option<ValueModel>),
            Fault,
        >((RuntimeModel { stack: st.stack.drop_last(), pc: st.pc + 1, ..st }, None)),
{
    let code = emit_branch(Keyword::If, c, b);
    assert(prog[st.pc] == code[c.len() as int]);
}

/// A conditional with an `ellers` block runs exactly one of its two blocks:
/// `false` jumps to the start of the second block, `true` enters the first,
/// and the jump that ends the first block lands after the second.
pub proof fn lemma_if_else_exclusive(
    prog: Seq<Instr>,
    at: int,
    c: Seq<Instr>,
    b1: Seq<Instr>,
    b2: Seq<Instr>,
    st: RuntimeModel,
    st2: RuntimeModel,
)
    requires
        0 <= at,
        at + c.len() + b1.len() + b2.len() + 2 <= prog.len() <= usize::MAX,
        prog.subrange(at, at + c.len() + b1.len() + b2.len() + 2) == emit_branch(
            Keyword::If,
            c,
            b1,
        ).drop_last() + seq![Instr::Jump(b2.len() as int)] + b2,
        st.pc == at + c.len(),
        st.stack.len() > 0,
        st2.pc == at + c.len() + 1 + b1.len(),
    ensures
        st.stack.last() == ValueModel::Bool(false) ==> step(prog, st) == Ok::<
            (RuntimeModel, Option<ValueModel>),
            Fault,
        >((RuntimeModel { stack: st.stack.drop_last(), pc: at + c.len() + b1.len() + 2, ..st }, None)),
        st.stack.last() == ValueModel::Bool(true) ==> step(prog, st) == Ok::<
            (RuntimeModel, Option<ValueModel>),
            Fault,
        >((RuntimeModel { stack: st.stack.drop_last(), pc: at + c.len() + 1, ..st }, None)),
        step(prog, st2) == Ok::<(RuntimeModel, Option<ValueModel>), Fault>(
            (RuntimeModel { pc: at + c.len() + b1.len() + b2.len() + 2, ..st2 }, None),
        ),
{
    let code = emit_branch(Keyword::If, c, b1).drop_last() + seq![Instr::Jump(b2.len() as int)]
        + b2;
    assert(prog[st.pc] == code[c.len() as int]);
    assert(prog[st2.pc] == code[c.len() + 1 + b1.len() as int]);
}

/// A loop whose condition left `false` goes on after the loop; one whose
/// condition left `true` enters its block, and the jump that ends the block
/// goes back to the first instruction of the condition.
pub proof fn lemma_while_loops(
    prog: Seq<Instr>,
    at: int,
    c: Seq<Instr>,
    b: Seq<Instr>,
    st: RuntimeModel,
    st2: RuntimeModel,
)
    requires
        0 <= at,
        at + c.len() + b.len() + 2 <= prog.len() <= usize::MAX,
        prog.subrange(at, at + c.len() + b.len() + 2) == emit_branch(Keyword::While, c, b),
        st.pc == at + c.len(),
        st.stack.len() > 0,
        st2.pc == at + c.len() + 1 + b.len(),
    ensures
        st.stack.last() == ValueModel::Bool(false) ==> step(prog, st) == Ok::<
            (RuntimeModel, Option<ValueModel>),
            Fault,
        >((RuntimeModel { stack: st.stack.drop_last(), pc: at + c.len() + b.len() + 2, ..st }, None)),
        st.stack.last() == ValueModel::Bool(true) ==> step(prog, st) == Ok::<
            (RuntimeModel, Option<ValueModel>),
            Fault,
        >((RuntimeModel { stack: st.stack.drop_last(), pc: at + c.len() + 1, ..st }, None)),
        step(prog, st2) == Ok::<(RuntimeModel, Option<ValueModel>), Fault>(
            (RuntimeModel { pc: at, ..st2 }, None),
        ),
{
    let code = emit_branch(Keyword::While, c, b);
    assert(prog[st.pc] == code[c.len() as int]);
    assert(prog[st2.pc] == code[c.len() + 1 + b.len() as int]);
}

/// `Return(name)` stores the top value under `name`, and an
/// `Identifier(name)` right after it pushes that value back.
pub proof fn lemma_bind_then_load(prog: Seq<Instr>, st: RuntimeModel, name: Seq<char>)
    requires
        0 <= st.pc,
        st.pc + 1 < prog.len(),
        prog[st.pc] == Instr::Return(name),
        prog[st.pc + 1] == Instr::Identifier(name),
        st.stack.len() > 0,
    ensures
        ({
            let bound = RuntimeModel {
                stack: st.stack.drop_last(),
                mem: store(st.mem, name, st.stack.last()),
                pc: st.pc + 1,
            };
            &&& step(prog, st) == Ok::<(RuntimeModel, Option<ValueModel>), Fault>((bound, None))
            &&& lookup(bound.mem, name) == Some(st.stack.last())
            &&& step(prog, bound) == Ok::<(RuntimeModel, Option<ValueModel>), Fault>(
                (RuntimeModel { stack: st.stack, pc: st.pc + 2, ..bound }, None),
            )
        }),
{
    lemma_store_lookup(st.mem, name, st.stack.last(), name);
    assert(st.stack.drop_last().push(st.stack.last()) =~= st.stack);
}

/// Binding a name again overwrites it: the last value stored is the one
/// found, and other names keep theirs.
pub proof fn lemma_rebind_overwrites(
    mem: Seq<(Seq<char>, ValueModel)>,
    name: Seq<char>,
    first: ValueModel,
    second: ValueModel,
    other: Seq<char>,
)
    ensures
        lookup(store(store(mem, name, first), name, second), name) == Some(second),
        other != name ==> lookup(store(store(mem, name, first), name, second), other) == lookup(
            mem,
            other,
        ),
{
    lemma_store_lookup(store(mem, name, first), name, second, other);
    lemma_store_lookup(mem, name, first, other);
}

/// Whether every instruction of `prog` is a push or an operator.
pub open spec fn straight_line(prog: Seq<Instr>) -> bool {
    forall|i: int|
        0 <= i < prog.len() ==> match #[trigger] prog[i] {
            Instr::PushInt(_) | Instr::PushBool(_) | Instr::PushStr(_) | Instr::Operator { .. } => true,
            _ => false,
        }
}

/// What a push or an operator does to the stack `s`: the new stack and the
/// value printed, if any.
pub open spec fn eval_instr(ins: Instr, s: Seq<ValueModel>) -> Result<
    (Seq<ValueModel>, Option<ValueModel>),
    Fault,
> {
    match ins {
        Instr::PushInt(n) => Ok((s.push(ValueModel::Int(n)), None)),
        Instr::PushBool(b) => Ok((s.push(ValueModel::Bool(b)), None)),
        Instr::PushStr(t) => Ok((s.push(ValueModel::Str(t)), None)),
        Instr::Operator { op, arity } => if arity > s.len() {
            Err(Fault::StackUnderflow)
        } else {
            match apply_op(op, s.subrange(s.len() - arity, s.len() as int)) {
                Ok((pushed, out)) => Ok((s.subrange(0, s.len() - arity) + pushed, out)),
                Err(e) => Err(e),
            }
        },
        _ => Err(Fault::InvalidJump),
    }
}

/// Evaluates the instructions of `prog` one after the other, left to right,
/// from the stack `s`: the final stack and the values printed.
pub open spec fn eval_left_to_right(prog: Seq<Instr>, s: Seq<ValueModel>) -> Result<
    (Seq<ValueModel>, Seq<ValueModel>),
    Fault,
>
    decreases prog.len(),
{
    if prog.len() == 0 {
        Ok((s, Seq::empty()))
    } else {
        match eval_instr(prog[0], s) {
            Err(e) => Err(e),
            Ok((s1, out)) => match eval_left_to_right(prog.drop_first(), s1) {
                Ok((s2, outs)) => Ok((s2, printed(out) + outs)),
                Err(e) => Err(e),
            },
        }
    }
}

/// On a program of pushes and operators, the machine computes what
/// evaluating the instructions left to right computes: the same final stack
/// and the same printed values, or the same error.
pub proof fn lemma_straight_line_run(prog: Seq<Instr>, i: int, st: RuntimeModel, fuel: nat)
    requires
        straight_line(prog),
        0 <= i <= prog.len(),
        st.pc == i,
        fuel >= prog.len() - i,
    ensures
        match eval_left_to_right(prog.subrange(i, prog.len() as int), st.stack) {
            Ok((s2, outs)) => run(prog, st, fuel) == (
                RuntimeModel { stack: s2, pc: prog.len() as int, ..st },
                outs,
                Ok::<bool, Fault>(true),
            ),
            Err(e) => run(prog, st, fuel).2 == Err::<bool, Fault>(e),
        },
    decreases prog.len() - i,
{
    let rest = prog.subrange(i, prog.len() as int);
    if i == prog.len() {
        assert(rest.len() == 0);
    } else {
        assert(rest[0] == prog[i]);
        assert(rest.drop_first() =~= prog.subrange(i + 1, prog.len() as int));
        match step(prog, st) {
            Ok((next, out)) => {
                lemma_straight_line_run(prog, i + 1, next, (fuel - 1) as nat);
            },
            Err(e) => {},
        }
    }
}

/// A two-operand operator whose operands are of different types is
/// rejected with a type error that names the operator and the two types.
pub proof fn lemma_mixed_operands_rejected(k: OpWord, w: Seq<char>, ts: Seq<Type>)
    requires
        ts.len() >= 2,
        !(k is Dup || k is Drop || k is Print || k is Swap || k is Over),
        ts[ts.len() - 2] != ts[ts.len() - 1],
    ensures
        compile_operator(k, w, ts) == Err::<(Instr, Seq<Type>), crate::grammar::CompileFault>(
            crate::grammar::CompileFault::TypeError {
                operator: w,
                operand_types: ts.subrange(ts.len() - 2, ts.len() as int),
            },
        ),
{
}

/// Running a stretch `seg` of pushes and operators that starts at the
/// pointer, and evaluates without error, is running from the state after it:
/// the same end, with the stretch's printed values first.
pub proof fn lemma_segment_run(prog: Seq<Instr>, seg: Seq<Instr>, st: RuntimeModel, fuel: nat)
    requires
        0 <= st.pc,
        st.pc + seg.len() <= prog.len(),
        prog.subrange(st.pc, st.pc + seg.len()) == seg,
        straight_line(seg),
        fuel >= seg.len(),
        eval_left_to_right(seg, st.stack) is Ok,
    ensures
        ({
            let (s2, outs) = eval_left_to_right(seg, st.stack)->Ok_0;
            let mid = RuntimeModel { stack: s2, pc: st.pc + seg.len(), ..st };
            let (last, printed_all, status) = run(prog, st, fuel);
            let (last2, printed_rest, status2) = run(prog, mid, (fuel - seg.len()) as nat);
            last == last2 && printed_all == outs + printed_rest && status == status2
        }),
    decreases seg.len(),
{
    if seg.len() == 0 {
        let mid = RuntimeModel { stack: st.stack, pc: st.pc, ..st };
        assert(mid == st);
        assert(Seq::<ValueModel>::empty() + run(prog, st, fuel).1 =~= run(prog, st, fuel).1);
    } else {
        assert(prog[st.pc] == seg[0]);
        let rest = seg.drop_first();
        assert(prog.subrange(st.pc + 1, st.pc + 1 + rest.len()) =~= rest);
        assert forall|i: int| 0 <= i < rest.len() implies match #[trigger] rest[i] {
            Instr::PushInt(_) | Instr::PushBool(_) | Instr::PushStr(_) | Instr::Operator { .. } => true,
            _ => false,
        } by {
            assert(rest[i] == seg[i + 1]);
        }
        let (next, out) = step(prog, st)->Ok_0;
        lemma_segment_run(prog, rest, next, (fuel - 1) as nat);
        let (s2, outs) = eval_left_to_right(seg, st.stack)->Ok_0;
        let (s1, out1) = eval_instr(seg[0], st.stack)->Ok_0;
        let outs_rest = eval_left_to_right(rest, s1)->Ok_0.1;
        let mid = RuntimeModel { stack: s2, pc: st.pc + seg.len(), ..st };
        let tail = run(prog, mid, (fuel - seg.len()) as nat).1;
        assert(printed(out1) + (outs_rest + tail) =~= (printed(out1) + outs_rest) + tail);
    }
}

/// What a loop with condition `c` and block `b` does from the stack `s`
/// when its condition holds `n` times and then fails: the stack it ends
/// with and the values printed, or `None` where it does not behave so.
pub open spec fn loop_outcome(c: Seq<Instr>, b: Seq<Instr>, s: Seq<ValueModel>, n: nat) -> Option<
    (Seq<ValueModel>, Seq<ValueModel>),
>
    decreases n,
{
    match eval_left_to_right(c, s) {
        Ok((sc, oc)) => if n == 0 {
            if sc == s.push(ValueModel::Bool(false)) {
                Some((s, oc))
            } else {
                None
            }
        } else if sc == s.push(ValueModel::Bool(true)) {
            match eval_left_to_right(b, s) {
                Ok((sb, ob)) => match loop_outcome(c, b, sb, (n - 1) as nat) {
                    Some((sf, of)) => Some((sf, oc + ob + of)),
                    None => None,
                },
                Err(_) => None,
            }
        } else {
            None
        },
        Err(_) => None,
    }
}

/// A loop whose condition holds `n` times and then fails runs its block
/// exactly `n` times and then goes on past the loop: the machine ends with
/// the stack and the printed values of `n` rounds of condition and block and
/// one last condition.
pub proof fn lemma_while_runs_body_n_times(
    c: Seq<Instr>,
    b: Seq<Instr>,
    n: nat,
    st: RuntimeModel,
    fuel: nat,
)
    requires
        straight_line(c),
        straight_line(b),
        st.pc == 0,
        loop_outcome(c, b, st.stack, n) is Some,
        c.len() + b.len() + 2 <= usize::MAX,
        fuel >= (n + 1) * (c.len() + b.len() + 2),
    ensures
        ({
            let prog = emit_branch(Keyword::While, c, b);
            let (sf, outs) = loop_outcome(c, b, st.stack, n)->Some_0;
            run(prog, st, fuel) == (
                RuntimeModel { stack: sf, pc: prog.len() as int, ..st },
                outs,
                Ok::<bool, Fault>(true),
            )
        }),
    decreases n,
{
    let prog = emit_branch(Keyword::While, c, b);
    let k = c.len() + b.len() + 2;
    assert(prog.len() == k);
    assert(prog.subrange(0, c.len() as int) =~= c);
    assert(fuel >= k) by (nonlinear_arith)
        requires
            fuel >= (n + 1) * k,
            k >= 2,
    ;
    let (sc, oc) = eval_left_to_right(c, st.stack)->Ok_0;
    lemma_segment_run(prog, c, st, fuel);
    let at_jump = RuntimeModel { stack: sc, pc: c.len() as int, ..st };
    let f1 = (fuel - c.len()) as nat;
    assert(prog[c.len() as int] == Instr::JumpIfFalse(b.len() + 1int));
    lemma_if_branches_of_loop(prog, c, b, at_jump);
    if n == 0 {
        let done = RuntimeModel { stack: st.stack, pc: k as int, ..st };
        assert(sc == st.stack.push(ValueModel::Bool(false)));
        assert(sc.drop_last() =~= st.stack);
        assert(step(prog, at_jump) == Ok::<(RuntimeModel, Option<ValueModel>), Fault>((done, None)));
        assert(run(prog, done, (f1 - 1) as nat) == (done, Seq::<ValueModel>::empty(), Ok::<bool, Fault>(true)));
        assert(printed(None) + Seq::<ValueModel>::empty() =~= Seq::<ValueModel>::empty());
        assert(run(prog, at_jump, f1) == (done, Seq::<ValueModel>::empty(), Ok::<bool, Fault>(true)));
        assert(oc + Seq::<ValueModel>::empty() =~= oc);
    } else {
        let (sb, ob) = eval_left_to_right(b, st.stack)->Ok_0;
        let in_body = RuntimeModel { stack: st.stack, pc: c.len() + 1int, ..st };
        assert(sc.drop_last() =~= st.stack);
        let f2 = (f1 - 1) as nat;
        assert(prog.subrange(c.len() + 1int, c.len() + 1 + b.len() as int) =~= b);
        assert(f2 >= b.len());
        lemma_segment_run(prog, b, in_body, f2);
        let at_back = RuntimeModel { stack: sb, pc: c.len() + 1 + b.len() as int, ..st };
        let f3 = (f2 - b.len()) as nat;
        assert(prog[c.len() + 1 + b.len() as int] == Instr::Jump(-(c.len() + b.len() + 2int)));
        let again = RuntimeModel { stack: sb, pc: 0, ..st };
        assert(step(prog, at_back) == Ok::<(RuntimeModel, Option<ValueModel>), Fault>((again, None)));
        let f4 = (f3 - 1) as nat;
        assert(f4 >= n * k) by (nonlinear_arith)
            requires
                f4 == fuel - k,
                fuel >= (n + 1) * k,
        ;
        lemma_while_runs_body_n_times(c, b, (n - 1) as nat, again, f4);
        let (sf, of) = loop_outcome(c, b, sb, (n - 1) as nat)->Some_0;
        assert(run(prog, at_back, f3).1 == Seq::<ValueModel>::empty() + of);
        assert(Seq::<ValueModel>::empty() + of =~= of);
        assert(oc + (ob + of) =~= oc + ob + of);
    }
}

/// The conditional jump of a loop placed at the start of the program: on
/// `false` past the loop, on `true` into its block.
proof fn lemma_if_branches_of_loop(prog: Seq<Instr>, c: Seq<Instr>, b: Seq<Instr>, st: RuntimeModel)
    requires
        prog == emit_branch(Keyword::While, c, b),
        prog.len() <= usize::MAX,
        st.pc == c.len(),
        st.stack.len() > 0,
    ensures
        st.stack.last() == ValueModel::Bool(false) ==> step(prog, st) == Ok::<
            (RuntimeModel, Option<ValueModel>),
            Fault,
        >((RuntimeModel { stack: st.stack.drop_last(), pc: prog.len() as int, ..st }, None)),
        st.stack.last() == ValueModel::Bool(true) ==> step(prog, st) == Ok::<
            (RuntimeModel, Option<ValueModel>),
            Fault,
        >((RuntimeModel { stack: st.stack.drop_last(), pc: st.pc + 1, ..st }, None)),
{
    assert(prog.subrange(0, c.len() + b.len() + 2int) =~= prog);
    lemma_while_loops(prog, 0, c, b, st, RuntimeModel { pc: c.len() + 1 + b.len() as int, ..st });
}

/// A conditional, as the whole program, whose condition leaves `false`
/// ends with the stack it started from and prints only what the condition
/// printed; one whose condition leaves `true` runs its block once.
pub proof fn lemma_if_runs_block_when_true(c: Seq<Instr>, b: Seq<Instr>, st: RuntimeModel, fuel: nat)
    requires
        straight_line(c),
        straight_line(b),
        st.pc == 0,
        c.len() + b.len() + 2 <= usize::MAX,
        fuel >= c.len() + b.len() + 2,
        eval_left_to_right(c, st.stack) is Ok,
        eval_left_to_right(c, st.stack)->Ok_0.0 == st.stack.push(ValueModel::Bool(false))
            || (eval_left_to_right(c, st.stack)->Ok_0.0 == st.stack.push(ValueModel::Bool(true))
            && eval_left_to_right(b, st.stack) is Ok),
    ensures
        ({
            let prog = emit_branch(Keyword::If, c, b);
            let (sc, oc) = eval_left_to_right(c, st.stack)->Ok_0;
            if sc.last() == ValueModel::Bool(false) {
                run(prog, st, fuel) == (
                    RuntimeModel { pc: prog.len() as int, ..st },
                    oc,
                    Ok::<bool, Fault>(true),
                )
            } else {
                let (sb, ob) = eval_left_to_right(b, st.stack)->Ok_0;
                run(prog, st, fuel) == (
                    RuntimeModel { stack: sb, pc: prog.len() as int, ..st },
                    oc + ob,
                    Ok::<bool, Fault>(true),
                )
            }
        }),
{
    let prog = emit_branch(Keyword::If, c, b);
    let n = c.len() + b.len() + 2;
    assert(prog.len() == n);
    assert(prog.subrange(0, c.len() as int) =~= c);
    let (sc, oc) = eval_left_to_right(c, st.stack)->Ok_0;
    lemma_segment_run(prog, c, st, fuel);
    let at_jump = RuntimeModel { stack: sc, pc: c.len() as int, ..st };
    let f1 = (fuel - c.len()) as nat;
    assert(prog.subrange(0, n as int) =~= prog);
    lemma_if_skips_or_enters(prog, 0, c, b, at_jump);
    assert(sc.drop_last() =~= st.stack);
    if sc.last() == ValueModel::Bool(false) {
        let done = RuntimeModel { pc: n as int, ..st };
        assert(run(prog, done, (f1 - 1) as nat) == (done, Seq::<ValueModel>::empty(), Ok::<bool, Fault>(true)));
        assert(printed(None) + Seq::<ValueModel>::empty() =~= Seq::<ValueModel>::empty());
        assert(oc + Seq::<ValueModel>::empty() =~= oc);
    } else {
        let (sb, ob) = eval_left_to_right(b, st.stack)->Ok_0;
        let in_block = RuntimeModel { pc: c.len() + 1int, ..st };
        let f2 = (f1 - 1) as nat;
        assert(prog.subrange(c.len() + 1int, c.len() + 1 + b.len() as int) =~= b);
        lemma_segment_run(prog, b, in_block, f2);
        let at_end = RuntimeModel { stack: sb, pc: c.len() + 1 + b.len() as int, ..st };
        let f3 = (f2 - b.len()) as nat;
        assert(prog[c.len() + 1 + b.len() as int] == Instr::EndOfIf);
        let done = RuntimeModel { stack: sb, pc: n as int, ..st };
        assert(step(prog, at_end) == Ok::<(RuntimeModel, Option<ValueModel>), Fault>((done, None)));
        assert(run(prog, done, (f3 - 1) as nat) == (done, Seq::<ValueModel>::empty(), Ok::<bool, Fault>(true)));
        assert(printed(None) + Seq::<ValueModel>::empty() =~= Seq::<ValueModel>::empty());
        assert(run(prog, at_end, f3).1 =~= Seq::<ValueModel>::empty());
        assert(run(prog, in_block, f2).1 =~= ob);
        assert(printed(None) + ob =~= ob);
    }
}

/// A conditional with an `ellers` block, as the whole program, runs exactly
/// one of its blocks: the first where the condition leaves `true`, the
/// second where it leaves `false`; the stack and the printed values are
/// those of the condition and that one block.
pub proof fn lemma_if_else_runs_one_block(
    c: Seq<Instr>,
    b1: Seq<Instr>,
    b2: Seq<Instr>,
    st: RuntimeModel,
    fuel: nat,
)
    requires
        straight_line(c),
        straight_line(b1),
        straight_line(b2),
        st.pc == 0,
        c.len() + b1.len() + b2.len() + 2 <= usize::MAX,
        fuel >= c.len() + b1.len() + b2.len() + 2,
        eval_left_to_right(c, st.stack) is Ok,
        eval_left_to_right(c, st.stack)->Ok_0.0 == st.stack.push(ValueModel::Bool(false))
            || eval_left_to_right(c, st.stack)->Ok_0.0 == st.stack.push(ValueModel::Bool(true)),
        eval_left_to_right(b1, st.stack) is Ok,
        eval_left_to_right(b2, st.stack) is Ok,
    ensures
        ({
            let prog = emit_branch(Keyword::If, c, b1).drop_last() + seq![Instr::Jump(b2.len() as int)]
                + b2;
            let (sc, oc) = eval_left_to_right(c, st.stack)->Ok_0;
            let (s1, o1) = eval_left_to_right(b1, st.stack)->Ok_0;
            let (s2, o2) = eval_left_to_right(b2, st.stack)->Ok_0;
            run(prog, st, fuel) == if sc.last() == ValueModel::Bool(true) {
                (RuntimeModel { stack: s1, pc: prog.len() as int, ..st }, oc + o1, Ok::<bool, Fault>(true))
            } else {
                (RuntimeModel { stack: s2, pc: prog.len() as int, ..st }, oc + o2, Ok::<bool, Fault>(true))
            }
        }),
{
    let prog = emit_branch(Keyword::If, c, b1).drop_last() + seq![Instr::Jump(b2.len() as int)] + b2;
    let n = c.len() + b1.len() + b2.len() + 2;
    assert(prog.len() == n);
    assert(prog.subrange(0, c.len() as int) =~= c);
    let (sc, oc) = eval_left_to_right(c, st.stack)->Ok_0;
    lemma_segment_run(prog, c, st, fuel);
    let at_jump = RuntimeModel { stack: sc, pc: c.len() as int, ..st };
    let f1 = (fuel - c.len()) as nat;
    let at_else_jump = RuntimeModel { pc: c.len() + 1 + b1.len() as int, ..st };
    assert(prog.subrange(0, n as int) =~= prog);
    lemma_if_else_exclusive(prog, 0, c, b1, b2, at_jump, at_else_jump);
    assert(sc.drop_last() =~= st.stack);
    let f2 = (f1 - 1) as nat;
    if sc.last() == ValueModel::Bool(true) {
        let (s1, o1) = eval_left_to_right(b1, st.stack)->Ok_0;
        let in_first = RuntimeModel { pc: c.len() + 1int, ..st };
        assert(prog.subrange(c.len() + 1int, c.len() + 1 + b1.len() as int) =~= b1);
        lemma_segment_run(prog, b1, in_first, f2);
        let at_end = RuntimeModel { stack: s1, pc: c.len() + 1 + b1.len() as int, ..st };
        let f3 = (f2 - b1.len()) as nat;
        lemma_if_else_exclusive(prog, 0, c, b1, b2, at_jump, at_end);
        let done = RuntimeModel { stack: s1, pc: n as int, ..st };
        assert(run(prog, done, (f3 - 1) as nat) == (done, Seq::<ValueModel>::empty(), Ok::<bool, Fault>(true)));
        assert(printed(None) + Seq::<ValueModel>::empty() =~= Seq::<ValueModel>::empty());
        assert(run(prog, at_end, f3).1 =~= Seq::<ValueModel>::empty());
        assert(run(prog, in_first, f2).1 =~= o1);
        assert(printed(None) + o1 =~= o1);
    } else {
        let (s2, o2) = eval_left_to_right(b2, st.stack)->Ok_0;
        let in_second = RuntimeModel { pc: c.len() + b1.len() + 2int, ..st };
        assert(prog.subrange(c.len() + b1.len() + 2int, n as int) =~= b2);
        lemma_segment_run(prog, b2, in_second, f2);
        let done = RuntimeModel { stack: s2, pc: n as int, ..st };
        assert(run(prog, done, (f2 - b2.len()) as nat) == (done, Seq::<ValueModel>::empty(), Ok::<bool, Fault>(true)));
        assert(run(prog, in_second, f2).1 =~= o2);
        assert(printed(None) + o2 =~= o2);
    }
}

} // verus!
