//! Whole-pipeline tests: source text in, printed output and diagnostics out.

use ritual::interpreter::Interpreter;
use ritual::run;

fn run_program(src: &str) -> (Vec<String>, Vec<String>) {
    let mut interpreter = Interpreter::new();
    run(src.to_string(), &mut interpreter);
    let output = interpreter.output.iter().map(|s| s.clone()).collect();
    let diagnostics = interpreter
        .reporter
        .entries
        .iter()
        .map(|d| d.message.clone())
        .collect();
    (output, diagnostics)
}

#[test]
fn prints_a_number() {
    let (out, diags) = run_program("$< 1\n");
    assert_eq!(out, vec!["1".to_string()]);
    assert_eq!(diags.len(), 0);
}

#[test]
fn empty_source_is_silent() {
    let (out, diags) = run_program("");
    assert_eq!(out.len(), 0);
    assert_eq!(diags.len(), 0);
}

#[test]
fn shadowing_does_not_leak() {
    let src = "offering x = 1\n{\noffering x = 2\n$< x\n}\n$< x\n";
    let (out, diags) = run_program(src);
    assert_eq!(out, vec!["2".to_string(), "1".to_string()]);
    assert_eq!(diags.len(), 0);
}

#[test]
fn and_short_circuits_past_division_by_zero() {
    let (out, diags) = run_program("$< false and (1/0)\n");
    assert_eq!(out, vec!["false".to_string()]);
    assert_eq!(diags.len(), 0);
}

#[test]
fn or_short_circuits_past_division_by_zero() {
    let (out, diags) = run_program("$< true or (1/0)\n");
    assert_eq!(out, vec!["true".to_string()]);
    assert_eq!(diags.len(), 0);
}

#[test]
fn division_by_zero_reports() {
    let (out, diags) = run_program("$< 1/0\n");
    assert_eq!(out.len(), 0);
    assert_eq!(diags, vec!["Division by zero.".to_string()]);
}

#[test]
fn string_plus_number_concatenates() {
    let (out, diags) = run_program("$< \"a\" + 1\n");
    assert_eq!(out, vec!["a1".to_string()]);
    assert_eq!(diags.len(), 0);
}

#[test]
fn number_plus_string_is_a_type_mismatch() {
    let (out, diags) = run_program("$< 1 + \"a\"\n");
    assert_eq!(out.len(), 0);
    assert_eq!(diags, vec!["Cannot add non-number to number.".to_string()]);
}

#[test]
fn postfix_increment_returns_the_new_value() {
    let (out, diags) = run_program("offering x = 5\n$< x++\n");
    assert_eq!(out, vec!["6".to_string()]);
    assert_eq!(diags.len(), 0);
}

#[test]
fn postfix_increment_writes_back() {
    // A line ending in `++` cannot end a statement, so parenthesize.
    let (out, _) = run_program("offering x = 5\n$< (x++)\n$< x\n");
    assert_eq!(out, vec!["6".to_string(), "6".to_string()]);
}

#[test]
fn postfix_decrement_returns_the_new_value() {
    let (out, _) = run_program("offering x = 5\n$< (x--)\n$< x\n");
    assert_eq!(out, vec!["4".to_string(), "4".to_string()]);
}

#[test]
fn undefined_variable_does_not_halt_the_session() {
    let (out, diags) = run_program("$< y\n$< 1\n");
    assert_eq!(out, vec!["1".to_string()]);
    assert_eq!(diags, vec!["Undefined variable.".to_string()]);
}

#[test]
fn recovery_after_a_malformed_statement() {
    let (out, diags) = run_program("offering = 5\n$< 1\n");
    assert_eq!(out, vec!["1".to_string()]);
    assert_eq!(diags.len(), 1);
    assert_eq!(diags[0], "Expected variable name.".to_string());
}

#[test]
fn string_concatenation_with_boolean_and_none() {
    let (out, _) = run_program("$< \"v=\" + true\n$< \"v=\" + none\n$< \"a\" + \"b\"\n");
    assert_eq!(
        out,
        vec!["v=true".to_string(), "v=none".to_string(), "ab".to_string()]
    );
}

#[test]
fn precedence_of_factor_over_term() {
    let (out, _) = run_program("$< 1 + 2 * 3\n");
    assert_eq!(out, vec!["7".to_string()]);
}

#[test]
fn grouping_overrides_precedence() {
    let (out, _) = run_program("$< (1 + 2) * 3\n");
    assert_eq!(out, vec!["9".to_string()]);
}

#[test]
fn division_truncates_toward_zero() {
    let (out, _) = run_program("$< 7 / 2\n$< -7 / 2\n");
    assert_eq!(out, vec!["3".to_string(), "-3".to_string()]);
}

#[test]
fn comparisons_yield_booleans() {
    let (out, _) = run_program("$< 1 < 2\n$< 2 <= 1\n$< 3 > 2\n$< 2 >= 3\n");
    assert_eq!(
        out,
        vec![
            "true".to_string(),
            "false".to_string(),
            "true".to_string(),
            "false".to_string()
        ]
    );
}

#[test]
fn structural_equality() {
    let (out, _) =
        run_program("$< 1 is 1\n$< \"a\" is \"a\"\n$< none is none\n$< 1 is \"1\"\n$< 1 is 2\n");
    assert_eq!(
        out,
        vec![
            "true".to_string(),
            "true".to_string(),
            "true".to_string(),
            "false".to_string(),
            "false".to_string()
        ]
    );
}

#[test]
fn unary_not_uses_truthiness() {
    let (out, _) = run_program("$< not none\n$< not 0\n$< not false\n$< not \"\"\n");
    assert_eq!(
        out,
        vec![
            "true".to_string(),
            "false".to_string(),
            "true".to_string(),
            "false".to_string()
        ]
    );
}

#[test]
fn unary_minus_negates() {
    let (out, _) = run_program("$< -5\n$< -(-5)\n");
    assert_eq!(out, vec!["-5".to_string(), "5".to_string()]);
}

#[test]
fn unary_minus_on_a_string_is_a_type_mismatch() {
    let (_, diags) = run_program("$< -\"a\"\n");
    assert_eq!(
        diags,
        vec!["Minus unary operator can only be used on numbers.".to_string()]
    );
}

#[test]
fn while_loop_counts() {
    let src = "offering i = 0\nwhile i < 3 {\n$< i\ni = i + 1\n}\n$< \"done\"\n";
    let (out, diags) = run_program(src);
    assert_eq!(
        out,
        vec![
            "0".to_string(),
            "1".to_string(),
            "2".to_string(),
            "done".to_string()
        ]
    );
    assert_eq!(diags.len(), 0);
}

#[test]
fn if_takes_the_then_branch() {
    let (out, _) = run_program("if true {\n$< 1\n}\n");
    assert_eq!(out, vec!["1".to_string()]);
}

#[test]
fn if_takes_the_else_branch() {
    let (out, _) = run_program("if false {\n$< 1\n} else {\n$< 2\n}\n");
    assert_eq!(out, vec!["2".to_string()]);
}

#[test]
fn if_with_falsy_condition_and_no_else_does_nothing() {
    let (out, diags) = run_program("if none {\n$< 1\n}\n$< 2\n");
    assert_eq!(out, vec!["2".to_string()]);
    assert_eq!(diags.len(), 0);
}

#[test]
fn chained_assignment_is_right_associative() {
    let src = "offering a = 1\noffering b = 2\n$< a = b = 3\n$< a\n$< b\n";
    let (out, _) = run_program(src);
    assert_eq!(
        out,
        vec!["3".to_string(), "3".to_string(), "3".to_string()]
    );
}

#[test]
fn assignment_to_an_undeclared_name_reports() {
    let (out, diags) = run_program("y = 5\n$< 2\n");
    assert_eq!(out, vec!["2".to_string()]);
    assert_eq!(diags, vec!["Undefined variable.".to_string()]);
}

#[test]
fn invalid_assignment_target_reports_but_parsing_continues() {
    let (out, diags) = run_program("$< 1 = 2\n");
    assert_eq!(out, vec!["1".to_string()]);
    assert_eq!(diags, vec!["Invalid assignment target.".to_string()]);
}

#[test]
fn addition_overflow_reports() {
    let (out, diags) = run_program("$< 9223372036854775807 + 1\n");
    assert_eq!(out.len(), 0);
    assert_eq!(diags, vec!["Number overflow.".to_string()]);
}

#[test]
fn brackets_let_an_expression_span_lines() {
    let (out, diags) = run_program("$< (1 +\n2)\n");
    assert_eq!(out, vec!["3".to_string()]);
    assert_eq!(diags.len(), 0);
}

#[test]
fn a_trailing_operator_continues_the_line() {
    let (out, diags) = run_program("$< 1 +\n2\n");
    assert_eq!(out, vec!["3".to_string()]);
    assert_eq!(diags.len(), 0);
}

#[test]
fn comments_run_to_the_end_of_the_line() {
    let (out, diags) = run_program("? a comment\n$< 1 ? trailing\n");
    assert_eq!(out, vec!["1".to_string()]);
    assert_eq!(diags.len(), 0);
}

#[test]
fn unterminated_string_is_reported() {
    let (out, diags) = run_program("$< \"abc");
    assert_eq!(out.len(), 0);
    assert!(diags.contains(&"Unterminated string.".to_string()));
}

#[test]
fn whole_number_literal_with_zero_fraction_is_kept() {
    let (out, diags) = run_program("$< 2.0\n");
    assert_eq!(out, vec!["2".to_string()]);
    assert_eq!(diags.len(), 0);
}

#[test]
fn fractional_literal_is_reported_and_dropped() {
    let (_, diags) = run_program("$< 2.5\n");
    assert!(diags.contains(&"Could not parse number!".to_string()));
}

#[test]
fn number_literal_too_large_is_reported() {
    let (_, diags) = run_program("$< 99999999999999999999\n");
    assert!(diags.contains(&"Could not parse number!".to_string()));
}

#[test]
fn logical_operators_return_the_deciding_operand() {
    let (out, _) = run_program("$< 1 and 2\n$< none or 3\n$< none and 2\n$< 4 or 5\n");
    assert_eq!(
        out,
        vec![
            "2".to_string(),
            "3".to_string(),
            "none".to_string(),
            "4".to_string()
        ]
    );
}

#[test]
fn session_state_persists_across_runs() {
    let mut interpreter = Interpreter::new();
    run("offering x = 41\n".to_string(), &mut interpreter);
    run("$< x + 1\n".to_string(), &mut interpreter);
    let out: Vec<String> = interpreter.output.iter().map(|s| s.clone()).collect();
    assert_eq!(out, vec!["42".to_string()]);
    assert_eq!(interpreter.reporter.entries.len(), 0);
}

#[test]
fn postfix_on_a_non_number_reports() {
    let (_, diags) = run_program("offering s = \"a\"\n$< s++\n");
    assert_eq!(
        diags,
        vec!["Postfix operators can only be used with numbers.".to_string()]
    );
}

#[test]
fn postfix_on_a_non_variable_reports() {
    let (_, diags) = run_program("$< 5++\n");
    assert_eq!(
        diags,
        vec!["Expected variable in postfix operator.".to_string()]
    );
}

#[test]
fn arithmetic_on_booleans_is_a_type_mismatch() {
    let (_, diags) = run_program("$< true * 2\n");
    assert_eq!(
        diags,
        vec!["Multiply binary operator can only be used on numbers.".to_string()]
    );
}

#[test]
fn error_in_a_block_aborts_the_statement_but_restores_scope() {
    let src = "offering x = 1\n{\noffering x = 2\n$< y\n}\n$< x\n";
    let (out, diags) = run_program(src);
    assert_eq!(out, vec!["1".to_string()]);
    assert_eq!(diags, vec!["Undefined variable.".to_string()]);
}

#[test]
fn assignment_reaches_the_enclosing_frame() {
    let src = "offering x = 1\n{\nx = 2\n}\n$< x\n";
    let (out, diags) = run_program(src);
    assert_eq!(out, vec!["2".to_string()]);
    assert_eq!(diags.len(), 0);
}

#[test]
fn multiplication_overflow_reports() {
    let (_, diags) = run_program("$< 4611686018427387904 * 4\n");
    assert_eq!(diags, vec!["Number overflow.".to_string()]);
}

#[test]
fn redeclaring_in_the_same_frame_overwrites() {
    let (out, diags) = run_program("offering x = 1
offering x = 2
$< x
");
    assert_eq!(out, vec!["2".to_string()]);
    assert_eq!(diags.len(), 0);
}

#[test]
fn declaration_without_initializer_is_none() {
    let (out, diags) = run_program("offering x
$< x
");
    assert_eq!(out, vec!["none".to_string()]);
    assert_eq!(diags.len(), 0);
}

#[test]
fn negative_division_pairs() {
    let (out, _) = run_program("$< -7 / -2\n$< 7 / -2\n");
    assert_eq!(out, vec!["3".to_string(), "-3".to_string()]);
}
