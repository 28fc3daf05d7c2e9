//! Whole programs, compiled and run end to end.
use rlox::error::{Error, RuntimeErrorKind};
use rlox::vm::Vm;

/// Runs a program and returns what it printed, line by line.
fn run(source: &str) -> Vec<String> {
    let mut vm = Vm::new();
    let r = vm.interpret(source.as_bytes().to_vec());
    if let Err(e) = r {
        match e {
            Error::Compiler(c) => panic!(
                "compile error: {}",
                String::from_utf8_lossy(&c.render())
            ),
            Error::Runtime(re) => panic!(
                "runtime error: {}",
                String::from_utf8_lossy(&re.message())
            ),
        }
    }
    vm.take_output()
        .into_iter()
        .map(|line| String::from_utf8_lossy(&line).into_owned())
        .collect()
}

/// Runs a program that must fail at run time and returns the error.
fn run_error(source: &str) -> rlox::error::RuntimeError {
    let mut vm = Vm::new();
    match vm.interpret(source.as_bytes().to_vec()) {
        Err(Error::Runtime(e)) => e,
        Err(Error::Compiler(c)) => panic!(
            "compile error instead: {}",
            String::from_utf8_lossy(&c.render())
        ),
        Ok(()) => panic!("expected a runtime error"),
    }
}

#[test]
fn arithmetic_precedence() {
    assert_eq!(run("print 1 + 2 * 3;"), vec!["7"]);
}

#[test]
fn string_concatenation() {
    assert_eq!(
        run("var a = \"foo\"; var b = \"bar\"; print a + b;"),
        vec!["foobar"]
    );
}

#[test]
fn recursion_fibonacci() {
    assert_eq!(
        run("fun fib(n){ if (n < 2) return n; return fib(n-1)+fib(n-2); } print fib(10);"),
        vec!["55"]
    );
}

#[test]
fn closure_counter() {
    assert_eq!(
        run(
            "fun makeCounter(){var i=0;fun count(){i=i+1;return i;}return count;}\n\
             var c = makeCounter(); print c(); print c(); print c();"
        ),
        vec!["1", "2", "3"]
    );
}

#[test]
fn class_inheritance() {
    assert_eq!(
        run(
            "class A { greet(){ print \"A\"; } }\n\
             class B < A { greet(){ super.greet(); print \"B\"; } }\n\
             B().greet();"
        ),
        vec!["A", "B"]
    );
}

#[test]
fn add_type_mismatch() {
    let e = run_error("print 1 + \"x\";");
    assert_eq!(e.kind, RuntimeErrorKind::OperandsMustBeNumbersOrStrings);
    assert_eq!(
        e.message(),
        b"Operands must be two numbers or two strings.".to_vec()
    );
}

#[test]
fn arity_mismatch() {
    let e = run_error("fun f(a, b){ return a; } f(1);");
    assert_eq!(e.kind, RuntimeErrorKind::WrongArity { expected: 2, got: 1 });
    assert_eq!(e.message(), b"Expected 2 arguments but got 1.".to_vec());
}

#[test]
fn undefined_variable() {
    let e = run_error("print missing;");
    assert_eq!(
        e.kind,
        RuntimeErrorKind::UndefinedVariable(b"missing".to_vec())
    );
    assert_eq!(e.message(), b"Undefined variable 'missing'.".to_vec());
}

#[test]
fn negate_non_number() {
    let e = run_error("print -\"x\";");
    assert_eq!(e.kind, RuntimeErrorKind::OperandMustBeNumber);
}

#[test]
fn division_by_zero() {
    let e = run_error("print 1 / 0;");
    assert_eq!(e.kind, RuntimeErrorKind::DivisionByZero);
}

#[test]
fn call_non_callable() {
    let e = run_error("var a = 1; a();");
    assert_eq!(e.kind, RuntimeErrorKind::NotCallable);
    assert_eq!(e.message(), b"Can only call functions and classes.".to_vec());
}

#[test]
fn compile_error_rendering() {
    let mut vm = Vm::new();
    match vm.interpret(b"print 1".to_vec()) {
        Err(Error::Compiler(c)) => {
            let text = String::from_utf8_lossy(&c.render()).into_owned();
            assert_eq!(text, "[line 1] Error at end: Expect ';' after value.");
        }
        other => panic!("expected a compile error, got {:?}", other.is_ok()),
    }
}

#[test]
fn invalid_assignment_target() {
    let mut vm = Vm::new();
    match vm.interpret(b"var a = 1; var b = 2; a + b = 3;".to_vec()) {
        Err(Error::Compiler(c)) => {
            assert_eq!(c.message, b"Invalid assignment target.".to_vec());
        }
        other => panic!("expected a compile error, got {:?}", other.is_ok()),
    }
}

#[test]
fn while_loop() {
    assert_eq!(
        run("var i = 0; while (i < 3) { print i; i = i + 1; }"),
        vec!["0", "1", "2"]
    );
}

#[test]
fn for_loop() {
    assert_eq!(
        run("for (var i = 0; i < 3; i = i + 1) { print i; }"),
        vec!["0", "1", "2"]
    );
}

#[test]
fn logic_operators() {
    assert_eq!(
        run("print true and false; print true or false; print !true; print nil and 1;"),
        vec!["false", "true", "false", "nil"]
    );
}

#[test]
fn comparisons_and_equality() {
    assert_eq!(
        run("print 1 < 2; print 2 <= 2; print 3 > 4; print 4 >= 4; print 1 == 1; print 1 != 1;"),
        vec!["true", "true", "false", "true", "true", "false"]
    );
}

#[test]
fn interned_strings_compare_equal() {
    assert_eq!(
        run("var a = \"he\" + \"llo\"; var b = \"hello\"; print a == b;"),
        vec!["true"]
    );
}

#[test]
fn instance_fields() {
    assert_eq!(
        run(
            "class Point {} var p = Point(); p.x = 1; p.y = 2; print p.x + p.y;"
        ),
        vec!["3"]
    );
}

#[test]
fn methods_and_this() {
    assert_eq!(
        run(
            "class Greeter { init(name){ this.name = name; } hello(){ print \"hi \" + this.name; } }\n\
             Greeter(\"lox\").hello();"
        ),
        vec!["hi lox"]
    );
}

#[test]
fn class_initializer_arity() {
    let e = run_error("class A { init(x) {} } A();");
    assert_eq!(e.kind, RuntimeErrorKind::WrongArity { expected: 1, got: 0 });
}

#[test]
fn globals_persist_across_interpretations() {
    let mut vm = Vm::new();
    vm.interpret(b"var a = 40;".to_vec()).unwrap();
    vm.interpret(b"print a + 2;".to_vec()).unwrap();
    let out = vm.take_output();
    assert_eq!(out, vec![b"42".to_vec()]);
}

#[test]
fn collection_keeps_reachable_objects() {
    let mut vm = Vm::new();
    vm.interpret(b"var s = \"keep\" + \"me\";".to_vec()).unwrap();
    vm.collect_garbage();
    vm.interpret(b"print s;".to_vec()).unwrap();
    assert_eq!(vm.take_output(), vec![b"keepme".to_vec()]);
}

#[test]
fn negative_numbers_print() {
    assert_eq!(run("print -5; print 0 - 7;"), vec!["-5", "-7"]);
}

#[test]
fn upvalues_share_one_variable() {
    assert_eq!(
        run(
            "fun pair(){ var x = 0; fun get(){ return x; } fun set(v){ x = v; } print get(); set(9); print get(); }\n\
             pair();"
        ),
        vec!["0", "9"]
    );
}

#[test]
fn stacks_are_empty_after_success() {
    let mut vm = Vm::new();
    vm.interpret(b"fun f(){ return 1; } print f();".to_vec()).unwrap();
    assert!(vm.stack.is_empty());
    assert!(vm.frames.is_empty());
    assert!(vm.open_upvalues.is_empty());
}

#[test]
fn stacks_are_empty_after_runtime_error() {
    let mut vm = Vm::new();
    assert!(vm.interpret(b"print -nil;".to_vec()).is_err());
    assert!(vm.stack.is_empty());
    assert!(vm.frames.is_empty());
    assert!(vm.open_upvalues.is_empty());
}

#[test]
fn if_else_branches() {
    assert_eq!(
        run("if (1 < 2) { print \"then\"; } else { print \"else\"; } if (false) { print \"no\"; } else { print \"yes\"; }"),
        vec!["then", "yes"]
    );
}

#[test]
fn super_method_invocation() {
    assert_eq!(
        run(
            "class A { twice(n){ return n + n; } }\n\
             class B < A { twice(n){ return super.twice(n) + 1; } }\n\
             print B().twice(4);"
        ),
        vec!["9"]
    );
}

#[test]
fn inherited_method_dispatch() {
    assert_eq!(
        run("class A { ping(){ return \"pong\"; } } class B < A {} print B().ping();"),
        vec!["pong"]
    );
}

#[test]
fn undefined_property() {
    let e = run_error("class A {} print A().missing;");
    assert_eq!(
        e.kind,
        RuntimeErrorKind::UndefinedProperty(b"missing".to_vec())
    );
}

#[test]
fn superclass_must_be_a_class() {
    let e = run_error("var NotAClass = 1; class B < NotAClass {}");
    assert_eq!(e.kind, RuntimeErrorKind::SuperclassMustBeClass);
}

#[test]
fn local_scopes_shadow() {
    assert_eq!(
        run("var a = \"outer\"; { var a = \"inner\"; print a; } print a;"),
        vec!["inner", "outer"]
    );
}
