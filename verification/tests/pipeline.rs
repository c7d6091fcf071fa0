//! End-to-end runs of the compile-and-interpret pipeline with a numeric
//! helper backed by real IEEE-754 doubles.

use thorium::vm::{interpret, ArithOp, InterpretError, NumberOrder, NumberReply, NumberRequest};

fn num_helper(req: NumberRequest) -> NumberReply {
    match req {
        NumberRequest::Parse(s) => {
            NumberReply::Bits(s.parse::<f64>().unwrap_or(f64::NAN).to_bits())
        }
        NumberRequest::Arith(op, a, b) => {
            let x = f64::from_bits(a);
            let y = f64::from_bits(b);
            let r = match op {
                ArithOp::Add => x + y,
                ArithOp::Subtract => x - y,
                ArithOp::Multiply => x * y,
                ArithOp::Divide => x / y,
            };
            NumberReply::Bits(r.to_bits())
        }
        NumberRequest::Compare(a, b) => {
            let x = f64::from_bits(a);
            let y = f64::from_bits(b);
            NumberReply::Ordering(if x < y {
                NumberOrder::Less
            } else if x > y {
                NumberOrder::Greater
            } else if x == y {
                NumberOrder::Equal
            } else {
                NumberOrder::Unordered
            })
        }
        NumberRequest::Format(a) => NumberReply::Text(format!("{}", f64::from_bits(a))),
    }
}

fn run(src: &str) -> (Result<(), InterpretError>, Vec<String>, Vec<String>) {
    interpret(src.to_string(), &num_helper)
}

#[test]
fn empty_program_succeeds_silently() {
    let (result, out, err) = run("");
    assert_eq!(result, Ok(()));
    assert!(out.is_empty());
    assert!(err.is_empty());
}

#[test]
fn comments_and_whitespace_only_succeed() {
    let (result, out, err) = run("  // a comment\n\t\r\n// another\n   ");
    assert_eq!(result, Ok(()));
    assert!(out.is_empty());
    assert!(err.is_empty());
}

#[test]
fn precedence_multiplication_binds_tighter() {
    let (result, out, _) = run("print 1 + 2 * 3;");
    assert_eq!(result, Ok(()));
    assert_eq!(out, vec!["7".to_string()]);
}

#[test]
fn grouping_overrides_precedence() {
    let (result, out, _) = run("print (1 + 2) * 3;");
    assert_eq!(result, Ok(()));
    assert_eq!(out, vec!["9".to_string()]);
}

#[test]
fn global_string_roundtrip() {
    let (result, out, _) = run("var a = \"hi\"; print a;");
    assert_eq!(result, Ok(()));
    assert_eq!(out, vec!["hi".to_string()]);
}

#[test]
fn undefined_global_is_a_runtime_error() {
    let (result, out, err) = run("print a;");
    assert_eq!(result, Err(InterpretError::RuntimeError));
    assert!(out.is_empty());
    assert!(err.join("\n").contains("Undefined variable 'a'."));
}

#[test]
fn not_nil_is_true() {
    let (result, out, _) = run("print !nil;");
    assert_eq!(result, Ok(()));
    assert_eq!(out, vec!["true".to_string()]);
}

#[test]
fn comparison_then_equality() {
    let (result, out, _) = run("print 1 < 2 == true;");
    assert_eq!(result, Ok(()));
    assert_eq!(out, vec!["true".to_string()]);
}

#[test]
fn assignment_replaces_global() {
    let (result, out, _) = run("var x = 1; x = 2; print x;");
    assert_eq!(result, Ok(()));
    assert_eq!(out, vec!["2".to_string()]);
}

#[test]
fn negating_a_string_is_a_type_error() {
    let (result, _, err) = run("-\"a\";");
    assert_eq!(result, Err(InterpretError::RuntimeError));
    assert!(err.join("\n").contains("Operand must be a number"));
}

#[test]
fn too_many_constants_is_a_compile_error() {
    let mut src = String::from("1");
    for i in 2..=256 {
        src.push_str(&format!(" + {}", i));
    }
    src.push(';');
    let (result, out, err) = run(&src);
    assert_eq!(result, Err(InterpretError::CompileError));
    assert!(out.is_empty());
    assert!(err.join("\n").contains("Too many constants in one chunk"));
}

#[test]
fn the_full_pool_of_constants_still_compiles() {
    let mut src = String::from("print 0");
    for i in 1..=254 {
        src.push_str(&format!(" + {}", i));
    }
    src.push(';');
    let (result, out, _) = run(&src);
    assert_eq!(result, Ok(()));
    assert_eq!(out, vec![format!("{}", (0..=254).sum::<i32>())]);
}

#[test]
fn program_without_print_writes_nothing() {
    let (result, out, _) = run("var a = 1; a = a + 41; a;");
    assert_eq!(result, Ok(()));
    assert!(out.is_empty());
}

#[test]
fn addition_matches_ieee_formatting() {
    let (result, out, _) = run("print 1.5 + 2.25;");
    assert_eq!(result, Ok(()));
    assert_eq!(out, vec![format!("{}", 1.5f64 + 2.25f64)]);
}

#[test]
fn negation_is_ieee_sign_flip() {
    let (result, out, _) = run("print -0;");
    assert_eq!(result, Ok(()));
    assert_eq!(out, vec![format!("{}", -0.0f64)]);
}

#[test]
fn double_not_preserves_truthiness() {
    let (result, out, _) = run("print !!3; print !!nil; print !!\"\";");
    assert_eq!(result, Ok(()));
    assert_eq!(
        out,
        vec!["true".to_string(), "false".to_string(), "true".to_string()]
    );
}

#[test]
fn subtraction_is_left_associative() {
    let (result, out, _) = run("print 7 - 2 - 3;");
    assert_eq!(result, Ok(()));
    assert_eq!(out, vec!["2".to_string()]);
}

#[test]
fn division_by_zero_gives_infinity() {
    let (result, out, _) = run("print 1 / 0;");
    assert_eq!(result, Ok(()));
    assert_eq!(out, vec![format!("{}", 1.0f64 / 0.0f64)]);
}

#[test]
fn cross_kind_equality_is_false() {
    let (result, out, _) = run("print 1 == \"1\"; print nil == false; print \"a\" == \"a\";");
    assert_eq!(result, Ok(()));
    assert_eq!(
        out,
        vec!["false".to_string(), "false".to_string(), "true".to_string()]
    );
}

#[test]
fn redefining_a_global_is_allowed() {
    let (result, out, _) = run("var a = 1; var a = 2; print a;");
    assert_eq!(result, Ok(()));
    assert_eq!(out, vec!["2".to_string()]);
}

#[test]
fn assigning_an_undefined_global_fails() {
    let (result, _, err) = run("b = 1;");
    assert_eq!(result, Err(InterpretError::RuntimeError));
    assert!(err.join("\n").contains("Undefined variable 'b'."));
}

#[test]
fn comparing_a_string_is_a_type_error() {
    let (result, _, err) = run("print 1 < \"a\";");
    assert_eq!(result, Err(InterpretError::RuntimeError));
    assert!(err.join("\n").contains("Operand must be a number"));
}

#[test]
fn missing_expression_is_reported_with_location() {
    let (result, _, err) = run("print 1 +;");
    assert_eq!(result, Err(InterpretError::CompileError));
    assert!(err.join("\n").contains("[line 1] Error at ';': Expect expression."));
}

#[test]
fn unterminated_string_is_a_compile_error() {
    let (result, _, err) = run("\"abc");
    assert_eq!(result, Err(InterpretError::CompileError));
    assert!(err.join("\n").contains("Unterminated string."));
}

#[test]
fn unexpected_character_is_a_compile_error() {
    let (result, _, err) = run("@;");
    assert_eq!(result, Err(InterpretError::CompileError));
    assert!(err.join("\n").contains("Unexpected character."));
}

#[test]
fn invalid_assignment_target_is_reported() {
    let (result, _, err) = run("1 = 2;");
    assert_eq!(result, Err(InterpretError::CompileError));
    assert!(err.join("\n").contains("Invalid assignment target"));
}

#[test]
fn statements_print_in_order() {
    let (result, out, _) = run("print 1;\nprint 2;\nprint \"three\";");
    assert_eq!(result, Ok(()));
    assert_eq!(
        out,
        vec!["1".to_string(), "2".to_string(), "three".to_string()]
    );
}

#[test]
fn runtime_error_reports_the_line() {
    let (result, _, err) = run("var ok = 1;\nprint missing;");
    assert_eq!(result, Err(InterpretError::RuntimeError));
    assert!(err.join("\n").contains("[line 2] in script"));
}

#[test]
fn helper_answering_out_of_shape_is_a_runtime_error() {
    fn broken(_req: NumberRequest) -> NumberReply {
        NumberReply::Text("nonsense".to_string())
    }
    let (result, _, err) = interpret("print 1 + 2;".to_string(), &broken);
    assert_eq!(result, Err(InterpretError::RuntimeError));
    assert!(err.join("\n").contains("Invalid numeric helper reply."));
}

#[test]
fn a_leading_operator_cannot_start_a_statement() {
    let (result, out, err) = run("+ 1;");
    assert_eq!(result, Err(InterpretError::CompileError));
    assert!(out.is_empty());
    assert!(err.join("\n").contains("Expect expression."));

    let (result2, _, err2) = run("  // note\n; var a = 1;");
    assert_eq!(result2, Err(InterpretError::CompileError));
    assert!(!err2.is_empty());
}
