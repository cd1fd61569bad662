use rpy::parser;
use rpy::Expr;

const FUNCTION_NO_PARAMS: &str = "def hello():
    A = 3";
const FUNCTION_MULTI_PARAM: &str = "def hello(A ,B ,C):
    A = 3";
const ASSIGN: &str = "A = 3";

const MULTI_ASSIGN: &str = "
A = 3
B = 4";

const BINARY_OP: &str = "
A = 3 + 4
C = 9 + 10
D = A + B
F = G - 10
";
const FUNCTION_CALL: &str = " B = FUNC()
FUnc()
";

const STRING_LITERAL: &str = "A = \"Hello\"";

const EXTERN_FUNC: &str = "def hello():
            puts(\"Hello\")
        ";

#[test]
fn test_string_literal() {
    let ast = parser::file(STRING_LITERAL).map_err(|e| e.offset).unwrap();
    assert!(ast.len() == 1);
    match &ast[0] {
        Expr::Assign(name, inner) => {
            assert_eq!(name.as_str(), "A");
            assert!(matches!(**inner, Expr::Literal(ref t) if t.as_str() == "Hello"));
        },
        _ => panic!("expected an assignment"),
    }
}

#[test]
fn test_assignment() {
    let ast = parser::file(ASSIGN).map_err(|e| e.offset).unwrap();
    assert!(ast.len() == 1);
    assert!(matches!(ast[0], Expr::Assign(ref n, _) if n.as_str() == "A"));
}

#[test]
fn test_multi_assign() {
    let ast = parser::file(MULTI_ASSIGN).map_err(|e| e.offset).unwrap();
    assert_eq!(ast.len(), 2);
}

#[test]
fn test_function() {
    let ast = parser::file(FUNCTION_NO_PARAMS).map_err(|e| e.offset).unwrap();
    assert!(matches!(ast[0], Expr::Function(ref n, ref ps, _) if n.as_str() == "hello" && ps.is_empty()));
    let ast2 = parser::file(FUNCTION_MULTI_PARAM).map_err(|e| e.offset).unwrap();
    assert!(matches!(ast2[0], Expr::Function(ref n, ref ps, _) if n.as_str() == "hello" && ps.len() == 3));
}

#[test]
fn binary_op() {
    let ast = parser::file(BINARY_OP).map_err(|e| e.offset).unwrap();
    assert_eq!(ast.len(), 4);
}

#[test]
fn func_call() {
    let ast = parser::file(FUNCTION_CALL).map_err(|e| e.offset).unwrap();
    assert_eq!(ast.len(), 2);
    assert!(matches!(ast[1], Expr::Call(ref n, ref args) if n.as_str() == "FUnc" && args.is_empty()));
}

#[test]
fn test_extern_func() {
    let ast = parser::file(EXTERN_FUNC).map_err(|e| e.offset).unwrap();
    assert_eq!(ast.len(), 1);
}

#[test]
fn bare_identifier_reads_variable() {
    let ast = parser::file("B = A + 5").map_err(|e| e.offset).unwrap();
    match &ast[0] {
        Expr::Assign(name, inner) => {
            assert_eq!(name.as_str(), "B");
            match &**inner {
                Expr::Operation(lhs, rhs, _) => {
                    assert!(matches!(**lhs, Expr::Identifier(ref n) if n.as_str() == "A"));
                    assert!(matches!(**rhs, Expr::Literal(ref t) if t.as_str() == "5"));
                },
                _ => panic!("expected an operation"),
            }
        },
        _ => panic!("expected an assignment"),
    }
}

#[test]
fn empty_source_parses_to_nothing() {
    let ast = parser::file("").map_err(|e| e.offset).unwrap();
    assert_eq!(ast.len(), 0);
    let ast2 = parser::file("  \n\t\n").map_err(|e| e.offset).unwrap();
    assert_eq!(ast2.len(), 0);
}

#[test]
fn rejects_broken_input() {
    assert!(parser::file("A = ").is_err());
    assert!(parser::file("= 3").is_err());
    assert!(parser::file("A = 3 @").is_err());
    let e = parser::file("A = 3 @").err().unwrap();
    assert!(e.offset <= 7);
}

#[test]
fn nested_statements_attach_to_the_function_body() {
    // statement+ is greedy: everything after a definition header is
    // its body, so a second definition nests inside the first.
    let ast = parser::file("def f():\n  A = 1\ndef g():\n  B = 2\n").map_err(|e| e.offset).unwrap();
    assert_eq!(ast.len(), 1);
    match &ast[0] {
        Expr::Function(n, _, body) => {
            assert_eq!(n.as_str(), "f");
            assert_eq!(body.len(), 2);
            assert!(matches!(body[1], Expr::Function(ref m, _, _) if m.as_str() == "g"));
        },
        _ => panic!("expected a definition"),
    }
}
