//! Planning the evaluation of a postfix expression: its tokens are split on
//! single spaces, each is read as an operand, a binary operator or a unary
//! function, and the operand stack is checked never to run short.
//! The arithmetic on the operands is left to the caller.

use vstd::prelude::*;
use vstd::string::StrSliceExecFns;
use crate::text::{split_spaces, split_spaces_exec, token_views};

verus! {

/// The binary operators a postfix expression may apply.
#[derive(PartialEq, Eq, Structural, Clone, Copy, Debug)]
pub enum BinaryOperator {
    Add,
    Subtract,
    Multiply,
    Divide,
    Power,
}

/// The unary functions a postfix expression may apply.
#[derive(PartialEq, Eq, Structural, Clone, Copy, Debug)]
pub enum UnaryFunction {
    Sin,
    Cos,
    Tan,
    Cotan,
}

/// One token of a postfix expression, read.
#[derive(Clone, Copy, Debug)]
pub enum Instruction<'a> {
    /// Push the literal written by the token.
    Operand(&'a str),
    /// Pop the right and then the left operand, push their combination.
    Binary(BinaryOperator),
    /// Pop one operand, push the function's value at it.
    Apply(UnaryFunction),
}

/// Why a postfix expression cannot be evaluated.
#[derive(PartialEq, Eq, Structural, Clone, Copy, Debug)]
pub enum EvaluationError {
    /// An operator or function found too few operands on the stack.
    StackUnderflow,
}

pub open spec fn binary_operator_of(t: Seq<char>) -> Option<BinaryOperator> {
    if t.len() != 1 {
        None
    } else if t[0] == '+' {
        Some(BinaryOperator::Add)
    } else if t[0] == '-' {
        Some(BinaryOperator::Subtract)
    } else if t[0] == '*' {
        Some(BinaryOperator::Multiply)
    } else if t[0] == '/' {
        Some(BinaryOperator::Divide)
    } else if t[0] == '^' {
        Some(BinaryOperator::Power)
    } else {
        None
    }
}

pub open spec fn unary_function_of(t: Seq<char>) -> Option<UnaryFunction> {
    if t == seq!['s', 'i', 'n'] {
        Some(UnaryFunction::Sin)
    } else if t == seq!['c', 'o', 's'] {
        Some(UnaryFunction::Cos)
    } else if t == seq!['t', 'a', 'n'] {
        Some(UnaryFunction::Tan)
    } else if t == seq!['c', 'o', 't', 'a', 'n'] {
        Some(UnaryFunction::Cotan)
    } else {
        None
    }
}

/// `i` is how the token `t` reads: an operator, else a function, else an
/// operand with the token's text.
pub open spec fn reads_as(i: Instruction, t: Seq<char>) -> bool {
    match binary_operator_of(t) {
        Some(op) => i == Instruction::Binary(op),
        None => match unary_function_of(t) {
            Some(f) => i == Instruction::Apply(f),
            None => i matches Instruction::Operand(s) && s@ == t,
        },
    }
}

/// The height of the operand stack after the tokens `ts`, starting from
/// `height`; `None` where an operator or function finds too few operands.
pub open spec fn stack_height(height: int, ts: Seq<Seq<char>>) -> Option<int>
    decreases ts.len(),
{
    if ts.len() == 0 {
        Some(height)
    } else if binary_operator_of(ts[0]) is Some {
        if height < 2 {
            None
        } else {
            stack_height(height - 1, ts.drop_first())
        }
    } else if unary_function_of(ts[0]) is Some {
        if height < 1 {
            None
        } else {
            stack_height(height, ts.drop_first())
        }
    } else {
        stack_height(height + 1, ts.drop_first())
    }
}

/// Reads one token.
pub fn read_token<'a>(t: &'a str) -> (r: Instruction<'a>)
    ensures
        reads_as(r, t@),
{
    let n = t.unicode_len();
    if n == 1 {
        let c = t.get_char(0);
        if c == '+' {
            return Instruction::Binary(BinaryOperator::Add);
        } else if c == '-' {
            return Instruction::Binary(BinaryOperator::Subtract);
        } else if c == '*' {
            return Instruction::Binary(BinaryOperator::Multiply);
        } else if c == '/' {
            return Instruction::Binary(BinaryOperator::Divide);
        } else if c == '^' {
            return Instruction::Binary(BinaryOperator::Power);
        }
    }
    let names: [(&str, UnaryFunction); 4] = [
        ("sin", UnaryFunction::Sin),
        ("cos", UnaryFunction::Cos),
        ("tan", UnaryFunction::Tan),
        ("cotan", UnaryFunction::Cotan),
    ];
    proof {
        reveal_strlit("sin");
        reveal_strlit("cos");
        reveal_strlit("tan");
        reveal_strlit("cotan");
        assert("sin"@ =~= seq!['s', 'i', 'n']);
        assert("cos"@ =~= seq!['c', 'o', 's']);
        assert("tan"@ =~= seq!['t', 'a', 'n']);
        assert("cotan"@ =~= seq!['c', 'o', 't', 'a', 'n']);
    }
    let mut k: usize = 0;
    while k < 4
        invariant
            k <= 4,
            names@ == seq![
                ("sin", UnaryFunction::Sin),
                ("cos", UnaryFunction::Cos),
                ("tan", UnaryFunction::Tan),
                ("cotan", UnaryFunction::Cotan),
            ],
            "sin"@ == seq!['s', 'i', 'n'],
            "cos"@ == seq!['c', 'o', 's'],
            "tan"@ == seq!['t', 'a', 'n'],
            "cotan"@ == seq!['c', 'o', 't', 'a', 'n'],
            forall|j: int| 0 <= j < k ==> names@[j].0@ != t@,
        decreases 4 - k,
    {
        if crate::text::str_eq(names[k].0, t) {
            return Instruction::Apply(names[k].1);
        }
        k = k + 1;
    }
    assert(unary_function_of(t@) is None) by {
        assert(names@[0].0@ != t@);
        assert(names@[1].0@ != t@);
        assert(names@[2].0@ != t@);
        assert(names@[3].0@ != t@);
    }
    Instruction::Operand(t)
}

/// Reads the tokens of `expression`, split on single spaces (none for the
/// empty string), and checks that no operator or function runs the operand
/// stack short.
pub fn plan<'a>(expression: &'a str) -> (r: Result<Vec<Instruction<'a>>, EvaluationError>)
    ensures
        match r {
            Ok(v) => stack_height(0, split_spaces(expression@)) is Some && v@.len() == split_spaces(
                expression@,
            ).len() && forall|i: int|
                0 <= i < v@.len() ==> reads_as(#[trigger] v@[i], split_spaces(expression@)[i]),
            Err(e) => e == EvaluationError::StackUnderflow && stack_height(
                0,
                split_spaces(expression@),
            ) is None,
        },
{
    let tokens = split_spaces_exec(expression);
    let ghost ts = split_spaces(expression@);
    let mut v: Vec<Instruction<'a>> = Vec::new();
    let mut height: usize = 0;
    let mut i: usize = 0;
    assert(ts.skip(0) =~= ts);
    while i < tokens.len()
        invariant
            ts == split_spaces(expression@),
            ts == token_views(tokens@),
            i <= tokens@.len(),
            height <= i,
            v@.len() == i,
            forall|j: int| 0 <= j < i ==> reads_as(#[trigger] v@[j], ts[j]),
            stack_height(0, ts) == stack_height(height as int, ts.skip(i as int)),
        decreases tokens@.len() - i,
    {
        let ins = read_token(tokens[i]);
        assert(tokens@[i as int]@ == ts[i as int]);
        assert(ts.skip(i as int).drop_first() =~= ts.skip(i + 1));
        assert(ts.skip(i as int)[0] == ts[i as int]);
        match ins {
            Instruction::Binary(_) => {
                if height < 2 {
                    return Err(EvaluationError::StackUnderflow);
                }
                height = height - 1;
            },
            Instruction::Apply(_) => {
                if height < 1 {
                    return Err(EvaluationError::StackUnderflow);
                }
            },
            Instruction::Operand(_) => {
                height = height + 1;
            },
        }
        v.push(ins);
        i = i + 1;
    }
    assert(ts.skip(i as int) =~= Seq::<Seq<char>>::empty());
    Ok(v)
}

} // verus!
