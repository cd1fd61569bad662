use rpy::ast::BinaryOp;
use rpy::ast::Expr;
use rpy::eval::Trap;
use rpy::ir::UnitIr;
use rpy::translate::declare_variables;
use rpy::translate::translate_function;
use rpy::translate::CompileError;
use rpy::translate::UnitBuilder;
use rpy::translate::JIT;

fn no_data() -> Vec<u64> {
    Vec::new()
}

#[test]
fn untouched_result_slot_yields_zero() {
    let jit = JIT::default();
    let unit = jit.compile("A = 3").ok().unwrap();
    let r = unit.invoke_top(&no_data());
    assert_eq!(r, Some(Ok(0)));
}

#[test]
fn add_function_computes_the_sum() {
    let jit = JIT { the_return: "result".to_string() };
    let unit = jit.compile("def add(a, b):\n  result = a + b").ok().unwrap();
    assert_eq!(unit.functions.len(), 1);
    let r = unit.invoke(&"add".to_string(), &vec![3, 4], &no_data());
    assert_eq!(r, Some(Ok(7)));
}

#[test]
fn reading_back_an_assigned_variable() {
    let jit = JIT { the_return: "B".to_string() };
    let unit = jit.compile("A = 3\nB = A + 5").ok().unwrap();
    let r = unit.invoke_top(&no_data());
    assert_eq!(r, Some(Ok(8)));
}

#[test]
fn undeclared_read_is_an_error() {
    let jit = JIT::default();
    match jit.compile("A = B") {
        Err(CompileError::UndefinedVariable { name }) => assert_eq!(name.as_str(), "B"),
        _ => panic!("expected an undefined-variable failure"),
    }
}

#[test]
fn division_by_zero_compiles_and_traps_at_run_time() {
    let jit = JIT::default();
    let unit = jit.compile("A = 10 / 0").ok().unwrap();
    let r = unit.invoke_top(&no_data());
    assert_eq!(r, Some(Err(Trap::DivisionByZero)));
}

#[test]
fn empty_source_compiles_to_nothing() {
    let jit = JIT::default();
    let unit = jit.compile("").ok().unwrap();
    assert_eq!(unit.functions.len(), 0);
    assert_eq!(unit.data.len(), 0);
    assert!(unit.top_level.is_none());
    assert_eq!(unit.invoke_top(&no_data()), None);
}

#[test]
fn slots_are_parameters_result_and_targets() {
    let jit = JIT::default();
    let unit = jit.compile("def f(a, b):\n  x = 1\n  y = 2\n  x = 3").ok().unwrap();
    assert_eq!(unit.functions.len(), 1);
    let f = &unit.functions[0].1;
    // two parameters, the implicit result, two distinct targets
    assert_eq!(f.param_count, 2);
    assert_eq!(f.vars.len(), 2 + 1 + 2);
    assert_eq!(f.vars[0].as_str(), "a");
    assert_eq!(f.vars[1].as_str(), "b");
    assert_eq!(f.vars[2].as_str(), "none");
    assert_eq!(f.vars[3].as_str(), "x");
    assert_eq!(f.vars[4].as_str(), "y");
}

#[test]
fn compiling_twice_behaves_identically() {
    let src = "def add(a, b):\n  result = a + b";
    let jit = JIT { the_return: "result".to_string() };
    let u1 = jit.compile(src).ok().unwrap();
    let u2 = jit.compile(src).ok().unwrap();
    let name = "add".to_string();
    let args = vec![100, 23];
    let r1 = u1.invoke(&name, &args, &no_data());
    let r2 = u2.invoke(&name, &args, &no_data());
    assert_eq!(r1, Some(Ok(123)));
    assert_eq!(r1, r2);
    let r3 = u1.invoke(&name, &args, &no_data());
    assert_eq!(r1, r3);
}

#[test]
fn arithmetic_wraps_and_divides_unsigned() {
    let jit = JIT { the_return: "A".to_string() };
    let unit = jit.compile("A = 0 - 1").ok().unwrap();
    assert_eq!(unit.invoke_top(&no_data()), Some(Ok(u64::MAX)));
    let unit2 = jit.compile("A = 7 / 2").ok().unwrap();
    assert_eq!(unit2.invoke_top(&no_data()), Some(Ok(3)));
    let unit3 = jit.compile("A = 6 * 7").ok().unwrap();
    assert_eq!(unit3.invoke_top(&no_data()), Some(Ok(42)));
}

#[test]
fn string_literal_is_not_a_number() {
    let jit = JIT::default();
    match jit.compile("A = \"Hello\"") {
        Err(CompileError::InvalidLiteral { text }) => assert_eq!(text.as_str(), "Hello"),
        _ => panic!("expected an invalid-literal failure"),
    }
}

#[test]
fn oversized_literal_is_invalid() {
    let jit = JIT::default();
    // one more than the largest machine word
    match jit.compile("A = 18446744073709551616") {
        Err(CompileError::InvalidLiteral { .. }) => {},
        _ => panic!("expected an invalid-literal failure"),
    }
    // the largest machine word itself is fine
    let jit2 = JIT { the_return: "A".to_string() };
    let unit = jit2.compile("A = 18446744073709551615").ok().unwrap();
    assert_eq!(unit.invoke_top(&no_data()), Some(Ok(u64::MAX)));
}

#[test]
fn redefining_a_function_is_an_error() {
    let jit = JIT::default();
    match jit.compile("def f():\n  A = 1\ndef f():\n  B = 2\n") {
        Err(CompileError::DuplicateSymbol { name }) => assert_eq!(name.as_str(), "f"),
        _ => panic!("expected a duplicate-symbol failure"),
    }
}

#[test]
fn calling_an_unknown_function_is_an_error() {
    let jit = JIT::default();
    match jit.compile("f(1)\n") {
        Err(CompileError::UnresolvedCall { name }) => assert_eq!(name.as_str(), "f"),
        _ => panic!("expected an unresolved-call failure"),
    }
}

#[test]
fn parse_failure_reports_the_offset() {
    let jit = JIT::default();
    match jit.compile("A = ") {
        Err(CompileError::Parse { offset, .. }) => assert!(offset <= 4),
        _ => panic!("expected a parse failure"),
    }
}

#[test]
fn nested_definitions_are_registered_in_order() {
    let jit = JIT { the_return: "r".to_string() };
    let unit = jit.compile("def f():\n  r = 1\ndef g():\n  r = 2\n").ok().unwrap();
    assert_eq!(unit.functions.len(), 2);
    assert_eq!(unit.functions[0].0.as_str(), "g");
    assert_eq!(unit.functions[1].0.as_str(), "f");
    assert_eq!(unit.invoke(&"f".to_string(), &Vec::new(), &no_data()), Some(Ok(1)));
    assert_eq!(unit.invoke(&"g".to_string(), &Vec::new(), &no_data()), Some(Ok(2)));
}

#[test]
fn direct_call_of_a_registered_function() {
    // Build the trees by hand: a function `dbl` that doubles its
    // argument, then a function whose body calls it.
    let mut sess = UnitBuilder {
        functions: Vec::new(),
        data: Vec::new(),
        ret_name: "r".to_string(),
    };
    let dbl_body = vec![Expr::Assign(
        "r".to_string(),
        Box::new(Expr::Operation(
            Box::new(Expr::Identifier("a".to_string())),
            Box::new(Expr::Identifier("a".to_string())),
            BinaryOp::Add,
        )),
    )];
    translate_function(&mut sess, &"dbl".to_string(), &vec!["a".to_string()], &dbl_body).ok().unwrap();
    let main_body = vec![Expr::Assign(
        "r".to_string(),
        Box::new(Expr::Call("dbl".to_string(), vec![Expr::Literal("5".to_string())])),
    )];
    translate_function(&mut sess, &"run".to_string(), &Vec::new(), &main_body).ok().unwrap();
    let unit = UnitIr { functions: sess.functions, data: sess.data, top_level: None };
    assert_eq!(unit.invoke(&"dbl".to_string(), &vec![21], &no_data()), Some(Ok(42)));
    assert_eq!(unit.invoke(&"run".to_string(), &Vec::new(), &no_data()), Some(Ok(10)));
    // wrong arity resolves to nothing
    assert_eq!(unit.invoke(&"dbl".to_string(), &Vec::new(), &no_data()), None);
    assert_eq!(unit.invoke(&"missing".to_string(), &Vec::new(), &no_data()), None);
}

#[test]
fn data_symbol_addresses_come_from_the_table() {
    // A hand-built tree reads the address of a process-wide symbol.
    let mut sess = UnitBuilder {
        functions: Vec::new(),
        data: Vec::new(),
        ret_name: "r".to_string(),
    };
    let body = vec![Expr::Assign(
        "r".to_string(),
        Box::new(Expr::GlobalDataAddr("greeting".to_string())),
    )];
    translate_function(&mut sess, &"f".to_string(), &Vec::new(), &body).ok().unwrap();
    assert_eq!(sess.data.len(), 1);
    assert_eq!(sess.data[0].as_str(), "greeting");
    let unit = UnitIr { functions: sess.functions, data: sess.data, top_level: None };
    let addrs = vec![0x1234];
    assert_eq!(unit.invoke(&"f".to_string(), &Vec::new(), &addrs), Some(Ok(0x1234)));
}

#[test]
fn use_before_assignment_is_undefined() {
    // x has a slot from the pre-declaration pass, but no value yet
    // when the right-hand side reads it.
    let jit = JIT::default();
    match jit.compile("x = x + 1") {
        Err(CompileError::UndefinedVariable { name }) => assert_eq!(name.as_str(), "x"),
        _ => panic!("expected an undefined-variable failure"),
    }
}

#[test]
fn translator_state_is_inspectable() {
    let params = vec!["a".to_string()];
    let body: Vec<Expr> = Vec::new();
    let ft = declare_variables(&params, &"out".to_string(), &body);
    assert_eq!(ft.param_count, 1);
    assert_eq!(ft.ret_slot, 1);
    assert!(ft.sealed);
    assert_eq!(ft.vars.len(), 2);
    assert_eq!(ft.insts.len(), 1);
}

#[test]
fn repeated_parameter_names_share_a_slot() {
    // Both parameters bind the same slot; the later binding wins.
    let jit = JIT { the_return: "r".to_string() };
    let unit = jit.compile("def f(a, a):\n  r = a\n").ok().unwrap();
    let f = &unit.functions[0].1;
    assert_eq!(f.param_count, 2);
    // one slot for the shared name, one for the result
    assert_eq!(f.vars.len(), 2);
    assert_eq!(unit.invoke(&"f".to_string(), &vec![1, 2], &no_data()), Some(Ok(2)));
}
