use vstd::prelude::*;
use crate::ast::Operator;

verus! {

/// A routine of the standard library.
#[derive(Clone, Copy, Debug, PartialEq, Eq, Structural)]
pub enum Builtin {
    Print,
    Read,
    Int,
    Real,
    Add,
    Sub,
    Mul,
    Div,
    Pow,
    Rem,
    IsEq,
    Neq,
    Gt,
    GtEq,
    Lt,
    LtEq,
    Abs,
    Round,
    Ceil,
    Floor,
    Ln,
    Log10,
    Log,
    Sin,
    Cos,
    Tan,
    Sqrt,
    Cbrt,
    Nrt,
    Graph,
    Transpose,
    Determinant,
    Adj,
    Inverse,
}

/// The number of routines of the standard library.
pub const BUILTINS: usize = 34;

/// The table of the standard library: the name under which each routine is
/// called.
pub open spec fn library() -> Seq<(Seq<char>, Builtin)> {
    seq![
        ("print"@, Builtin::Print),
        ("read"@, Builtin::Read),
        ("int"@, Builtin::Int),
        ("real"@, Builtin::Real),
        ("add"@, Builtin::Add),
        ("sub"@, Builtin::Sub),
        ("mul"@, Builtin::Mul),
        ("div"@, Builtin::Div),
        ("pow"@, Builtin::Pow),
        ("rem"@, Builtin::Rem),
        ("is_eq"@, Builtin::IsEq),
        ("neq"@, Builtin::Neq),
        ("gt"@, Builtin::Gt),
        ("gteq"@, Builtin::GtEq),
        ("lt"@, Builtin::Lt),
        ("lteq"@, Builtin::LtEq),
        ("abs"@, Builtin::Abs),
        ("round"@, Builtin::Round),
        ("ceil"@, Builtin::Ceil),
        ("floor"@, Builtin::Floor),
        ("ln"@, Builtin::Ln),
        ("log10"@, Builtin::Log10),
        ("log"@, Builtin::Log),
        ("sin"@, Builtin::Sin),
        ("cos"@, Builtin::Cos),
        ("tan"@, Builtin::Tan),
        ("sqrt"@, Builtin::Sqrt),
        ("cbrt"@, Builtin::Cbrt),
        ("nrt"@, Builtin::Nrt),
        ("graph"@, Builtin::Graph),
        ("transpose"@, Builtin::Transpose),
        ("determinant"@, Builtin::Determinant),
        ("adj"@, Builtin::Adj),
        ("inverse"@, Builtin::Inverse),
    ]
}

/// The routine of the first entry of the table, from the one at `from` on,
/// that has the name `name`.
pub open spec fn lookup(name: Seq<char>, from: int) -> Option<Builtin>
    decreases library().len() - from,
{
    if from < 0 || from >= library().len() {
        None
    } else if library()[from].0 == name {
        Some(library()[from].1)
    } else {
        lookup(name, from + 1)
    }
}

/// The routine that is called by `name`, if there is one.
pub open spec fn builtin_of(name: Seq<char>) -> Option<Builtin> {
    lookup(name, 0)
}

/// The number of values that a routine takes. `print` takes as many as
/// there are; `graph` takes one argument, and takes it unevaluated.
pub open spec fn arity(routine: Builtin) -> Option<nat> {
    match routine {
        Builtin::Print => None,
        Builtin::Read => Some(0),
        Builtin::Add => Some(2),
        Builtin::Sub => Some(2),
        Builtin::Mul => Some(2),
        Builtin::Div => Some(2),
        Builtin::Pow => Some(2),
        Builtin::Rem => Some(2),
        Builtin::IsEq => Some(2),
        Builtin::Neq => Some(2),
        Builtin::Gt => Some(2),
        Builtin::GtEq => Some(2),
        Builtin::Lt => Some(2),
        Builtin::LtEq => Some(2),
        Builtin::Log => Some(2),
        Builtin::Nrt => Some(2),
        _ => Some(1),
    }
}

/// The routine that carries out a binary operator.
pub open spec fn routine_of(op: Operator) -> Builtin {
    match op {
        Operator::Add => Builtin::Add,
        Operator::Sub => Builtin::Sub,
        Operator::Mul => Builtin::Mul,
        Operator::Div => Builtin::Div,
        Operator::Modulo => Builtin::Rem,
        Operator::Pow => Builtin::Pow,
        Operator::IsEq => Builtin::IsEq,
        Operator::Gt => Builtin::Gt,
        Operator::Lt => Builtin::Lt,
        Operator::GtEq => Builtin::GtEq,
        Operator::LtEq => Builtin::LtEq,
    }
}

/// The entry of the table with the number `i`, if the table has that
/// many.
pub fn entry(i: usize) -> (e: Option<(String, Builtin)>)
    ensures
        match e {
            Some(e) => i < BUILTINS && (e.0@, e.1) == library()[i as int],
            None => i >= BUILTINS,
        },
{
    match i {
        0 => Some(("print".to_string(), Builtin::Print)),
        1 => Some(("read".to_string(), Builtin::Read)),
        2 => Some(("int".to_string(), Builtin::Int)),
        3 => Some(("real".to_string(), Builtin::Real)),
        4 => Some(("add".to_string(), Builtin::Add)),
        5 => Some(("sub".to_string(), Builtin::Sub)),
        6 => Some(("mul".to_string(), Builtin::Mul)),
        7 => Some(("div".to_string(), Builtin::Div)),
        8 => Some(("pow".to_string(), Builtin::Pow)),
        9 => Some(("rem".to_string(), Builtin::Rem)),
        10 => Some(("is_eq".to_string(), Builtin::IsEq)),
        11 => Some(("neq".to_string(), Builtin::Neq)),
        12 => Some(("gt".to_string(), Builtin::Gt)),
        13 => Some(("gteq".to_string(), Builtin::GtEq)),
        14 => Some(("lt".to_string(), Builtin::Lt)),
        15 => Some(("lteq".to_string(), Builtin::LtEq)),
        16 => Some(("abs".to_string(), Builtin::Abs)),
        17 => Some(("round".to_string(), Builtin::Round)),
        18 => Some(("ceil".to_string(), Builtin::Ceil)),
        19 => Some(("floor".to_string(), Builtin::Floor)),
        20 => Some(("ln".to_string(), Builtin::Ln)),
        21 => Some(("log10".to_string(), Builtin::Log10)),
        22 => Some(("log".to_string(), Builtin::Log)),
        23 => Some(("sin".to_string(), Builtin::Sin)),
        24 => Some(("cos".to_string(), Builtin::Cos)),
        25 => Some(("tan".to_string(), Builtin::Tan)),
        26 => Some(("sqrt".to_string(), Builtin::Sqrt)),
        27 => Some(("cbrt".to_string(), Builtin::Cbrt)),
        28 => Some(("nrt".to_string(), Builtin::Nrt)),
        29 => Some(("graph".to_string(), Builtin::Graph)),
        30 => Some(("transpose".to_string(), Builtin::Transpose)),
        31 => Some(("determinant".to_string(), Builtin::Determinant)),
        32 => Some(("adj".to_string(), Builtin::Adj)),
        33 => Some(("inverse".to_string(), Builtin::Inverse)),
        _ => None,
    }
}

impl Builtin {
    /// The routine that is called by `name`, if there is one.
    pub fn resolve(name: &String) -> (routine: Option<Builtin>)
        ensures
            routine == builtin_of(name@),
    {
        let mut i: usize = 0;
        while i < BUILTINS
            invariant
                i <= BUILTINS,
                library().len() == BUILTINS,
                builtin_of(name@) == lookup(name@, i as int),
            decreases BUILTINS - i,
        {
            if let Some((known, routine)) = entry(i) {
                if known == *name {
                    return Some(routine);
                }
            }
            i = i + 1;
        }
        None
    }

    /// The number of values that the routine takes, if it is fixed.
    pub fn arity(&self) -> (n: Option<usize>)
        ensures
            match n {
                Some(n) => arity(*self) == Some(n as nat),
                None => arity(*self) is None,
            },
    {
        match self {
            Builtin::Print => None,
            Builtin::Read => Some(0),
            Builtin::Add => Some(2),
            Builtin::Sub => Some(2),
            Builtin::Mul => Some(2),
            Builtin::Div => Some(2),
            Builtin::Pow => Some(2),
            Builtin::Rem => Some(2),
            Builtin::IsEq => Some(2),
            Builtin::Neq => Some(2),
            Builtin::Gt => Some(2),
            Builtin::GtEq => Some(2),
            Builtin::Lt => Some(2),
            Builtin::LtEq => Some(2),
            Builtin::Log => Some(2),
            Builtin::Nrt => Some(2),
            _ => Some(1),
        }
    }

    /// The routine that carries out a binary operator.
    pub fn of_operator(op: Operator) -> (routine: Builtin)
        ensures
            routine == routine_of(op),
    {
        match op {
            Operator::Add => Builtin::Add,
            Operator::Sub => Builtin::Sub,
            Operator::Mul => Builtin::Mul,
            Operator::Div => Builtin::Div,
            Operator::Modulo => Builtin::Rem,
            Operator::Pow => Builtin::Pow,
            Operator::IsEq => Builtin::IsEq,
            Operator::Gt => Builtin::Gt,
            Operator::Lt => Builtin::Lt,
            Operator::GtEq => Builtin::GtEq,
            Operator::LtEq => Builtin::LtEq,
        }
    }
}

} // verus!
