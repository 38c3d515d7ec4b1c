//! End-to-end tests: sources go through the scanner, the compiler and the
//! virtual machine, and the printed lines and exit codes come back out.

use grim::err::VmError;
use grim::value::Type;
use grim::vm::{interpret, Vm};

fn run_source(src: &str) -> Result<Vec<String>, (String, i32)> {
    let mut vm = Vm::new();
    run_on(&mut vm, src)
}

fn run_on(vm: &mut Vm, src: &str) -> Result<Vec<String>, (String, i32)> {
    match interpret(vm, src.as_bytes()) {
        Ok(()) => Ok(vm
            .take_output()
            .into_iter()
            .map(|l| String::from_utf8(l).unwrap())
            .collect()),
        Err(VmError { message, code }) => Err((String::from_utf8(message).unwrap(), code)),
    }
}

#[test]
fn print_integer_literal() {
    assert_eq!(run_source("print 42;").unwrap(), vec!["42"]);
}

#[test]
fn print_zero() {
    assert_eq!(run_source("print 0;").unwrap(), vec!["0"]);
}

#[test]
fn print_negated_literal() {
    assert_eq!(run_source("print -7;").unwrap(), vec!["-7"]);
}

#[test]
fn print_largest_number() {
    assert_eq!(run_source("print 2147483647;").unwrap(), vec!["2147483647"]);
}

#[test]
fn number_past_range_is_a_compile_error() {
    let (msg, code) = run_source("print 2147483648;").unwrap_err();
    assert_eq!(code, 65);
    assert!(msg.contains("Invalid number."), "{}", msg);
}

#[test]
fn arithmetic_precedence() {
    assert_eq!(run_source("print 2 + 3 * 4;").unwrap(), vec!["14"]);
}

#[test]
fn grouping_overrides_precedence() {
    assert_eq!(run_source("print (2 + 3) * 4;").unwrap(), vec!["20"]);
}

#[test]
fn subtraction_is_left_associative() {
    assert_eq!(run_source("print 10 - 3 - 2;").unwrap(), vec!["5"]);
}

#[test]
fn division_truncates() {
    assert_eq!(run_source("print 10 / 3;").unwrap(), vec!["3"]);
}

#[test]
fn division_truncates_toward_zero() {
    assert_eq!(run_source("print (0 - 7) / 2;").unwrap(), vec!["-3"]);
}

#[test]
fn division_by_zero_is_a_runtime_error() {
    let (msg, code) = run_source("print 1 / 0;").unwrap_err();
    assert_eq!(code, 70);
    assert_eq!(msg, "Division by zero.");
}

#[test]
fn addition_overflow_is_a_runtime_error() {
    let (msg, code) = run_source("print 2147483647 + 1;").unwrap_err();
    assert_eq!(code, 70);
    assert_eq!(msg, "Arithmetic overflow.");
}

#[test]
fn comparisons_and_desugaring() {
    assert_eq!(run_source("print 1 != 2;").unwrap(), vec!["true"]);
    assert_eq!(run_source("print 3 >= 3;").unwrap(), vec!["true"]);
    assert_eq!(run_source("print 1 <= 0;").unwrap(), vec!["false"]);
    assert_eq!(run_source("print 2 > 1;").unwrap(), vec!["true"]);
    assert_eq!(run_source("print 2 < 1;").unwrap(), vec!["false"]);
    assert_eq!(run_source("print 2 == 2;").unwrap(), vec!["true"]);
}

#[test]
fn literals_and_not() {
    assert_eq!(run_source("print true;").unwrap(), vec!["true"]);
    assert_eq!(run_source("print false;").unwrap(), vec!["false"]);
    assert_eq!(run_source("print nil;").unwrap(), vec!["nil"]);
    assert_eq!(run_source("print !nil;").unwrap(), vec!["true"]);
    assert_eq!(run_source("print !false;").unwrap(), vec!["true"]);
    assert_eq!(run_source("print !0;").unwrap(), vec!["false"]);
}

#[test]
fn negate_of_non_number_is_a_runtime_error() {
    let (msg, code) = run_source("print -true;").unwrap_err();
    assert_eq!(code, 70);
    assert_eq!(msg, "Expected number, found bool");
}

#[test]
fn string_equality_by_interning() {
    assert_eq!(run_source("print \"ab\" == \"ab\";").unwrap(), vec!["true"]);
    assert_eq!(run_source("print \"ab\" == \"ac\";").unwrap(), vec!["false"]);
}

#[test]
fn mixed_equality_is_false() {
    assert_eq!(run_source("print 1 == true;").unwrap(), vec!["false"]);
    assert_eq!(run_source("print nil == false;").unwrap(), vec!["false"]);
}

#[test]
fn string_concatenation() {
    assert_eq!(run_source("print \"foo\" + \"bar\";").unwrap(), vec!["foobar"]);
}

#[test]
fn concatenation_of_string_and_number_is_a_runtime_error() {
    let (msg, code) = run_source("print \"a\" + 1;").unwrap_err();
    assert_eq!(code, 70);
    assert_eq!(msg, "Operands must be two numbers or two strings");
}

#[test]
fn globals_define_assign_read() {
    assert_eq!(
        run_source("bind x = 10; x = x + 5; print x;").unwrap(),
        vec!["15"]
    );
}

#[test]
fn global_defaults_to_nil() {
    assert_eq!(run_source("bind x; print x;").unwrap(), vec!["nil"]);
}

#[test]
fn nil_slot_accepts_any_kind() {
    assert_eq!(run_source("bind x; x = 5; print x;").unwrap(), vec!["5"]);
}

#[test]
fn assignment_is_an_expression() {
    assert_eq!(
        run_source("bind x = 1; print x = 2; print x;").unwrap(),
        vec!["2", "2"]
    );
}

#[test]
fn kind_mismatch_keeps_old_value() {
    let mut vm = Vm::new();
    assert_eq!(run_on(&mut vm, "bind x = 10;").unwrap(), Vec::<String>::new());
    let (msg, code) = run_on(&mut vm, "x = true;").unwrap_err();
    assert_eq!(code, 70);
    assert_eq!(msg, "Type mismatch.");
    vm.reset_stack();
    assert_eq!(run_on(&mut vm, "print x;").unwrap(), vec!["10"]);
}

#[test]
fn undefined_variable_read_fails() {
    let (msg, code) = run_source("print y;").unwrap_err();
    assert_eq!(code, 70);
    assert_eq!(msg, "Undefined variable 'y'");
}

#[test]
fn undefined_variable_assignment_fails() {
    let (msg, code) = run_source("y = 1;").unwrap_err();
    assert_eq!(code, 70);
    assert_eq!(msg, "Undefined variable 'y'");
}

#[test]
fn globals_persist_across_interpret_calls() {
    let mut vm = Vm::new();
    run_on(&mut vm, "bind x = 3;").unwrap();
    assert_eq!(run_on(&mut vm, "print x * x;").unwrap(), vec!["9"]);
}

#[test]
fn interning_reuses_slots_for_equal_content() {
    let mut vm = Vm::new();
    let p1 = vm.memory.allocate_string(b"hello");
    let p2 = vm.memory.allocate_string(b"hello");
    let p3 = vm.memory.allocate_string(b"world");
    assert_eq!(p1, p2);
    assert_ne!(p1, p3);
}

#[test]
fn syntax_error_produces_no_output() {
    let mut vm = Vm::new();
    let (msg, code) = run_on(&mut vm, "print 1 + ; print 2;").unwrap_err();
    assert_eq!(code, 65);
    assert!(msg.contains("Expect expression."), "{}", msg);
    assert!(vm.take_output().is_empty());
}

#[test]
fn error_recovery_reports_multiple_errors() {
    let (msg, code) = run_source("print + ;\nprint * ;").unwrap_err();
    assert_eq!(code, 65);
    assert!(msg.contains("[line 1]"), "{}", msg);
    assert!(msg.contains("[line 2]"), "{}", msg);
}

#[test]
fn statements_after_an_error_do_not_run() {
    let mut vm = Vm::new();
    let (_, code) = run_on(&mut vm, "bind = 5; print 3;").unwrap_err();
    assert_eq!(code, 65);
    assert!(vm.take_output().is_empty());
}

#[test]
fn empty_source_is_fine() {
    assert_eq!(run_source("").unwrap(), Vec::<String>::new());
    assert_eq!(run_source("   \n\t  ").unwrap(), Vec::<String>::new());
}

#[test]
fn comments_are_skipped() {
    assert_eq!(
        run_source("// a line comment\nprint 1; /* a block\ncomment */ print 2;").unwrap(),
        vec!["1", "2"]
    );
}

#[test]
fn error_lines_count_newlines_in_comments() {
    let (msg, code) = run_source("/* one\ntwo */\nprint + ;").unwrap_err();
    assert_eq!(code, 65);
    assert!(msg.contains("[line 3]"), "{}", msg);
}

#[test]
fn unterminated_string_is_a_scan_error() {
    let (msg, code) = run_source("print \"abc;").unwrap_err();
    assert_eq!(code, 65);
    assert!(msg.contains("unterminated string."), "{}", msg);
}

#[test]
fn unexpected_character_is_a_scan_error() {
    let (msg, code) = run_source("print @;").unwrap_err();
    assert_eq!(code, 65);
    assert!(msg.contains("unexpected character '@'"), "{}", msg);
}

#[test]
fn expression_statement_discards_its_value() {
    assert_eq!(run_source("1 + 2; print 3;").unwrap(), vec!["3"]);
}

#[test]
fn multiline_program() {
    assert_eq!(
        run_source("bind a = 2;\nbind b = 3;\nprint a * b;\nprint a + b;").unwrap(),
        vec!["6", "5"]
    );
}

#[test]
fn too_many_constants_is_a_compile_error() {
    let mut src = String::from("print 1");
    for _ in 0..300 {
        src.push_str(" + 1");
    }
    src.push(';');
    let (msg, code) = run_source(&src).unwrap_err();
    assert_eq!(code, 65);
    assert!(msg.contains("Too many constants in one chunk."), "{}", msg);
}

#[test]
fn strings_concatenate_with_interned_results() {
    let mut vm = Vm::new();
    assert_eq!(
        run_on(&mut vm, "print \"ab\" + \"cd\" == \"abcd\";").unwrap(),
        vec!["true"]
    );
}

#[test]
fn global_kinds_match_between_numbers() {
    assert_eq!(
        run_source("bind x = 1; x = 2; bind b = true; b = false; print x; print b;").unwrap(),
        vec!["2", "false"]
    );
}

#[test]
fn reading_a_global_holding_a_string() {
    assert_eq!(
        run_source("bind s = \"hi\"; print s + \" there\";").unwrap(),
        vec!["hi there"]
    );
}

#[test]
fn runtime_error_then_recovery_on_same_machine() {
    let mut vm = Vm::new();
    let (_, code) = run_on(&mut vm, "print 1 / 0;").unwrap_err();
    assert_eq!(code, 70);
    vm.reset_stack();
    assert_eq!(run_on(&mut vm, "print 5;").unwrap(), vec!["5"]);
}

#[test]
fn global_value_visible_through_memory() {
    let mut vm = Vm::new();
    run_on(&mut vm, "bind x = 7;").unwrap();
    let key = vm.memory.allocate_string(b"x");
    assert_eq!(vm.memory.get_global(key), Some(Type::Number(7)));
}
