use rpn_calculator::{plan, BinaryOperator, EvaluationError, Instruction, ReversePolishNotationConverter, UnaryFunction};

/// Folds a planned postfix expression over `f64` operands.
fn evaluate(expression: &str) -> Result<f64, String> {
    let instructions = plan(expression).map_err(|e| format!("{:?}", e))?;
    let mut stack: Vec<f64> = Vec::new();
    for instruction in instructions {
        match instruction {
            Instruction::Operand(t) => {
                stack.push(t.parse::<f64>().map_err(|_| "Could not parse operand".to_string())?)
            }
            Instruction::Binary(op) => {
                let right = stack.pop().ok_or("Could not fetch operand2")?;
                let left = stack.pop().ok_or("Could not fetch operand1")?;
                stack.push(match op {
                    BinaryOperator::Add => left + right,
                    BinaryOperator::Subtract => left - right,
                    BinaryOperator::Multiply => left * right,
                    BinaryOperator::Divide => left / right,
                    BinaryOperator::Power => left.powf(right),
                });
            }
            Instruction::Apply(f) => {
                let x = stack.pop().ok_or("Could not fetch operand")?;
                stack.push(match f {
                    UnaryFunction::Sin => x.sin(),
                    UnaryFunction::Cos => x.cos(),
                    UnaryFunction::Tan => x.tan(),
                    UnaryFunction::Cotan => 1.0 / x.tan(),
                });
            }
        }
    }
    Ok(stack.pop().unwrap_or(0.0))
}

#[test]
fn test_formula_1() {
    let formula = "( 2 + 3 ) ^ ( 2 + 1 )".split(" ").collect();
    let converter: ReversePolishNotationConverter<'_> = ReversePolishNotationConverter::new();
    let reverse_polish_notation = converter.convert(formula).expect("Conversion failed");
    let result = evaluate(&reverse_polish_notation).expect("Parsing failed");
    assert_eq!(reverse_polish_notation, "2 3 + 2 1 + ^");
    assert_eq!(result, 125.0);
}

#[test]
fn test_formula_2() {
    let formula = "sin ( 2 )".split(" ").collect();
    let converter = ReversePolishNotationConverter::new();
    let reverse_polish_notation = converter.convert(formula).expect("Conversion failed");
    let result = evaluate(&reverse_polish_notation).expect("Parsing failed");
    assert_eq!(reverse_polish_notation, "2 sin");
    assert_eq!(result, f64::sin(2.0));
}

fn convert(tokens: &[&str]) -> Result<String, String> {
    ReversePolishNotationConverter::new().convert(tokens.to_vec())
}

#[test]
fn precedence_multiplication_before_addition() {
    assert_eq!(convert(&["2", "+", "3", "*", "4"]).unwrap(), "2 3 4 * +");
    assert_eq!(evaluate("2 3 4 * +").unwrap(), 14.0);
}

#[test]
fn power_is_right_associative() {
    let postfix = convert(&["2", "^", "3", "^", "2"]).unwrap();
    assert_eq!(postfix, "2 3 2 ^ ^");
    assert_eq!(evaluate(&postfix).unwrap(), 512.0);
}

#[test]
fn division_is_left_associative() {
    let postfix = convert(&["8", "/", "4", "/", "2"]).unwrap();
    assert_eq!(postfix, "8 4 / 2 /");
    assert_eq!(evaluate(&postfix).unwrap(), 1.0);
}

#[test]
fn subtraction_groups_to_the_right() {
    let postfix = convert(&["2", "-", "3", "-", "4"]).unwrap();
    assert_eq!(postfix, "2 3 4 - -");
    assert_eq!(evaluate(&postfix).unwrap(), 3.0);
}

#[test]
fn parenthesis_grouping() {
    let postfix = convert(&["(", "2", "+", "3", ")", "^", "(", "2", "+", "1", ")"]).unwrap();
    assert_eq!(postfix, "2 3 + 2 1 + ^");
    assert_eq!(evaluate(&postfix).unwrap(), 125.0);
}

#[test]
fn function_application() {
    let postfix = convert(&["sin", "(", "2", ")"]).unwrap();
    assert_eq!(postfix, "2 sin");
    assert_eq!(evaluate(&postfix).unwrap(), 2.0f64.sin());
}

#[test]
fn nested_functions_attach_to_their_groups() {
    let postfix = convert(&["cotan", "(", "cos", "(", "1", "+", "2", ")", ")", "*", "3"]).unwrap();
    assert_eq!(postfix, "1 2 + cos cotan 3 *");
    assert_eq!(evaluate(&postfix).unwrap(), 1.0 / 3.0f64.cos().tan() * 3.0);
}

#[test]
fn fully_parenthesized_expression_converts_to_postorder() {
    let postfix = convert(&["(", "(", "1", "+", "2", ")", "*", "tan", "(", "0", ")", ")"]).unwrap();
    assert_eq!(postfix, "1 2 + 0 tan *");
    assert_eq!(evaluate(&postfix).unwrap(), 0.0);
}

#[test]
fn conversion_is_deterministic() {
    let tokens = ["1", "-", "(", "2", "%", "3", ")"];
    assert_eq!(convert(&tokens), convert(&tokens));
    assert_eq!(convert(&tokens).unwrap(), "1 2 3 % -");
}

#[test]
fn empty_token_sequence_converts_to_empty_string() {
    assert_eq!(convert(&[]).unwrap(), "");
}

#[test]
fn unmatched_closing_parenthesis_is_an_error() {
    assert!(convert(&[")"]).is_err());
    assert!(convert(&["2", "+", "3", ")"]).is_err());
}

#[test]
fn unmatched_opening_parenthesis_is_drained() {
    assert_eq!(convert(&["(", "2", "+", "3"]).unwrap(), "2 3 + (");
}

#[test]
fn empty_expression_evaluates_to_zero() {
    assert_eq!(plan("").unwrap().len(), 0);
    assert_eq!(evaluate("").unwrap(), 0.0);
}

#[test]
fn division_by_zero_is_infinite() {
    assert_eq!(evaluate("1 0 /").unwrap(), f64::INFINITY);
}

#[test]
fn zero_to_the_zero_is_one() {
    assert_eq!(evaluate("0 0 ^").unwrap(), 1.0);
}

#[test]
fn operator_without_operands_underflows() {
    assert_eq!(plan("+").unwrap_err(), EvaluationError::StackUnderflow);
    assert_eq!(plan("1 +").unwrap_err(), EvaluationError::StackUnderflow);
    assert_eq!(plan("sin").unwrap_err(), EvaluationError::StackUnderflow);
}

#[test]
fn plan_reads_each_token() {
    let steps = plan("1.5 2 ^ cos").unwrap();
    assert_eq!(steps.len(), 4);
    assert!(matches!(steps[0], Instruction::Operand("1.5")));
    assert!(matches!(steps[1], Instruction::Operand("2")));
    assert!(matches!(steps[2], Instruction::Binary(BinaryOperator::Power)));
    assert!(matches!(steps[3], Instruction::Apply(UnaryFunction::Cos)));
}

#[test]
fn modulus_is_not_an_evaluator_operator() {
    let steps = plan("7 2 %").unwrap();
    assert!(matches!(steps[2], Instruction::Operand("%")));
    assert!(evaluate("7 2 %").is_err());
}

#[test]
fn double_space_leaves_an_empty_token() {
    let steps = plan("1  2").unwrap();
    assert_eq!(steps.len(), 3);
    assert!(matches!(steps[1], Instruction::Operand("")));
    assert!(evaluate("1  2").is_err());
}
