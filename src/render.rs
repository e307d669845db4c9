use vstd::prelude::*;
use crate::utils::{push_char, Instr, JumpPointer, Node, Op, Value, ValueModel};

verus! {

/// The decimal digit for `d`, where `d` is below ten.
pub open spec fn digit_char(d: int) -> char {
    (d + '0' as int) as char
}

/// The decimal digits of the natural number `n`, most significant first.
pub open spec fn digits_of(n: nat) -> Seq<char>
    decreases n,
{
    if n < 10 {
        seq![digit_char(n as int)]
    } else {
        digits_of(n / 10) + seq![digit_char(n as int % 10)]
    }
}

/// How an integer is written: its decimal digits, after a `-` where it is
/// negative.
pub open spec fn decimal(n: int) -> Seq<char> {
    if n < 0 {
        seq!['-'] + digits_of((-n) as nat)
    } else {
        digits_of(n as nat)
    }
}

/// How a value is printed: an integer in decimal, a boolean as `sann` or
/// `usann`, a string as it is.
pub open spec fn display_of(v: ValueModel) -> Seq<char> {
    match v {
        ValueModel::Null => "null"@,
        ValueModel::Int(n) => decimal(n as int),
        ValueModel::Bool(b) => if b {
            "sann"@
        } else {
            "usann"@
        },
        ValueModel::Str(s) => s,
    }
}

/// The name under which an operator is listed.
pub open spec fn op_name(op: Op) -> Seq<char> {
    match op {
        Op::SumInt => "SumInt"@,
        Op::SubInt => "SubInt"@,
        Op::MultInt => "MultInt"@,
        Op::DivInt => "DivInt"@,
        Op::ModInt => "ModInt"@,
        Op::ConcatStr => "ConcatStr"@,
        Op::EqInt => "EqInt"@,
        Op::LtInt => "LtInt"@,
        Op::GtInt => "GtInt"@,
        Op::LqInt => "LqInt"@,
        Op::GqInt => "GqInt"@,
        Op::AndBool => "AndBool"@,
        Op::Dup => "Dup"@,
        Op::Drop => "Drop"@,
        Op::Swap => "Swap"@,
        Op::Over => "Over"@,
        Op::Println => "Println"@,
    }
}

/// How an instruction is listed.
pub open spec fn listing_of(ins: Instr) -> Seq<char> {
    match ins {
        Instr::PushInt(n) => decimal(n as int),
        Instr::PushBool(b) => if b {
            "true"@
        } else {
            "false"@
        },
        Instr::PushStr(s) => seq!['"'] + s + seq!['"'],
        Instr::Operator { op, .. } => op_name(op),
        Instr::Identifier(s) => s,
        Instr::Jump(off) => "Jmp("@ + decimal(off) + ")"@,
        Instr::JumpIfFalse(off) => "Jnt("@ + decimal(off) + ")"@,
        Instr::EndOfIf => "EndOfIf"@,
        Instr::DefineConst(s) => "DefConst("@ + s + ")"@,
        Instr::Return(_) => "Ret"@,
    }
}

fn push_digits(s: &mut String, n: u64)
    ensures
        final(s)@ == old(s)@ + digits_of(n as nat),
    decreases n,
{
    let ghost before = s@;
    if n >= 10 {
        push_digits(s, n / 10);
    }
    let c = match n % 10 {
        0 => '0',
        1 => '1',
        2 => '2',
        3 => '3',
        4 => '4',
        5 => '5',
        6 => '6',
        7 => '7',
        8 => '8',
        _ => '9',
    };
    push_char(s, c);
    assert(c == digit_char(n as int % 10));
    if n >= 10 {
        assert(s@ =~= before + digits_of(n as nat));
    } else {
        assert(s@ =~= before + digits_of(n as nat));
    }
}

/// The decimal text of `n`.
pub fn decimal_text(n: i64) -> (r: String)
    ensures
        r@ == decimal(n as int),
{
    let mut s = String::new();
    if n < 0 {
        push_char(&mut s, '-');
        let m = (-(n as i128)) as u64;
        push_digits(&mut s, m);
    } else {
        push_digits(&mut s, n as u64);
    }
    assert(s@ =~= decimal(n as int));
    s
}

fn append(s: String, t: &str) -> (r: String)
    ensures
        r@ == s@ + t@,
{
    s.concat(t)
}

impl Value {
    /// The text that printing this value writes.
    pub fn to_text(&self) -> (r: String)
        ensures
            r@ == display_of(self@),
    {
        match self {
            Value::Null => "null".to_owned(),
            Value::Int(n) => decimal_text(*n),
            Value::Bool(b) => if *b {
                "sann".to_owned()
            } else {
                "usann".to_owned()
            },
            Value::Str(s) => s.clone(),
        }
    }
}

impl JumpPointer {
    /// The offset, in decimal.
    pub fn to_text(&self) -> (r: String)
        ensures
            r@ == decimal(self@),
    {
        decimal_text(self.offset() as i64)
    }
}

pub fn op_text(op: Op) -> (r: String)
    ensures
        r@ == op_name(op),
{
    match op {
        Op::SumInt => "SumInt".to_owned(),
        Op::SubInt => "SubInt".to_owned(),
        Op::MultInt => "MultInt".to_owned(),
        Op::DivInt => "DivInt".to_owned(),
        Op::ModInt => "ModInt".to_owned(),
        Op::ConcatStr => "ConcatStr".to_owned(),
        Op::EqInt => "EqInt".to_owned(),
        Op::LtInt => "LtInt".to_owned(),
        Op::GtInt => "GtInt".to_owned(),
        Op::LqInt => "LqInt".to_owned(),
        Op::GqInt => "GqInt".to_owned(),
        Op::AndBool => "AndBool".to_owned(),
        Op::Dup => "Dup".to_owned(),
        Op::Drop => "Drop".to_owned(),
        Op::Swap => "Swap".to_owned(),
        Op::Over => "Over".to_owned(),
        Op::Println => "Println".to_owned(),
    }
}

impl Node {
    /// How this instruction is listed.
    pub fn to_text(&self) -> (r: String)
        ensures
            r@ == listing_of(self@),
    {
        match self {
            Node::PushInt(n) => decimal_text(*n),
            Node::PushBool(b) => if *b {
                "true".to_owned()
            } else {
                "false".to_owned()
            },
            Node::PushStr(s) => {
                let mut t = String::new();
                push_char(&mut t, '"');
                let t = append(t, s.as_str());
                let mut t = t;
                push_char(&mut t, '"');
                assert(t@ =~= seq!['"'] + s@ + seq!['"']);
                t
            },
            Node::Operator { op, .. } => op_text(*op),
            Node::Identifier(s) => s.clone(),
            Node::Jump(j) => {
                let t = append("Jmp(".to_owned(), j.to_text().as_str());
                append(t, ")")
            },
            Node::JumpIfFalse(j) => {
                let t = append("Jnt(".to_owned(), j.to_text().as_str());
                append(t, ")")
            },
            Node::EndOfIf => "EndOfIf".to_owned(),
            Node::DefineConst(s) => {
                let t = append("DefConst(".to_owned(), s.as_str());
                append(t, ")")
            },
            Node::Return(_) => "Ret".to_owned(),
        }
    }
}

} // verus!
