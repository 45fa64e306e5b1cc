use gluon::parser::{
    parse_str, parse_tc, precedence, str_to_primitive_type, Expr, LExpr, LambdaStruct,
    LiteralStruct, Location, ParseError, ParsedField, ParsedType, Primitive, RecordField, TcIdent,
};
use gluon::symbol::Symbol;

fn intern(s: &str) -> Symbol {
    Symbol::new(s.to_string())
}

fn ident(s: &str) -> TcIdent {
    TcIdent { name: intern(s), typ: None }
}

fn no_loc(value: Expr) -> LExpr {
    LExpr { location: Location { column: 0, row: 0, absolute: 0 }, value }
}

fn binop(l: LExpr, s: &str, r: LExpr) -> LExpr {
    no_loc(Expr::BinOp(Box::new(l), ident(s), Box::new(r)))
}

fn integer(i: i64) -> LExpr {
    no_loc(Expr::Literal(LiteralStruct::Integer(i)))
}

fn float(s: &str) -> LExpr {
    no_loc(Expr::Literal(LiteralStruct::Float(s.to_string())))
}

fn let_(s: &str, e: LExpr, b: LExpr) -> LExpr {
    no_loc(Expr::Let(ident(s), Box::new(e), Some(Box::new(b))))
}

fn id(s: &str) -> LExpr {
    no_loc(Expr::Identifier(ident(s)))
}

fn call(e: LExpr, args: Vec<LExpr>) -> LExpr {
    no_loc(Expr::Call(Box::new(e), args))
}

fn if_else(p: LExpr, if_true: LExpr, if_false: LExpr) -> LExpr {
    no_loc(Expr::IfElse(Box::new(p), Box::new(if_true), Some(Box::new(if_false))))
}

fn lambda(args: Vec<&str>, body: LExpr) -> LExpr {
    no_loc(Expr::Lambda(LambdaStruct {
        id: ident(""),
        free_vars: Vec::new(),
        arguments: args.into_iter().map(ident).collect(),
        body: Box::new(body),
    }))
}

fn typ(s: &str) -> ParsedType {
    match str_to_primitive_type(s) {
        Some(b) => ParsedType::Builtin(b),
        None => ParsedType::Data(intern(s)),
    }
}

fn type_decl(name: &str, typ: ParsedType, body: LExpr) -> LExpr {
    no_loc(Expr::Type(intern(name), typ, Box::new(body)))
}

fn record(fields: Vec<(&str, LExpr)>) -> LExpr {
    no_loc(Expr::Record(
        ident(""),
        fields
            .into_iter()
            .map(|(name, value)| RecordField { name: intern(name), value })
            .collect(),
    ))
}

fn field_access(expr: LExpr, field: &str) -> LExpr {
    no_loc(Expr::FieldAccess(Box::new(expr), ident(field)))
}

fn type_text(typ: &ParsedType) -> String {
    match typ {
        ParsedType::Generic(id) => format!("generic {}", id.as_str()),
        ParsedType::Builtin(b) => format!("{:?}", b),
        ParsedType::Data(id) => format!("data {}", id.as_str()),
        ParsedType::App(l, r) => format!("({} {})", type_text(l), type_text(r)),
        ParsedType::Function(args, ret) => format!(
            "({:?} -> {})",
            args.iter().map(type_text).collect::<Vec<_>>(),
            type_text(ret)
        ),
        ParsedType::Record(fields) => format!(
            "{:?}",
            fields
                .iter()
                .map(|f| format!("{}: {}", f.name.as_str(), type_text(&f.typ)))
                .collect::<Vec<_>>()
        ),
        ParsedType::Array(typ) => format!("[{}]", type_text(typ)),
    }
}

fn ident_text(id: &TcIdent) -> String {
    match &id.typ {
        Some(typ) => format!("{}: {}", id.name.as_str(), type_text(typ)),
        None => id.name.as_str().to_string(),
    }
}

// Expressions are compared without their locations
fn text(e: &LExpr) -> String {
    match &e.value {
        Expr::Identifier(id) => format!("id {}", ident_text(id)),
        Expr::Literal(LiteralStruct::Integer(i)) => format!("int {}", i),
        Expr::Literal(LiteralStruct::Float(s)) => format!("float {}", s),
        Expr::Literal(LiteralStruct::Bool(b)) => format!("bool {}", b),
        Expr::Call(f, args) => {
            format!("call {} {:?}", text(f), args.iter().map(text).collect::<Vec<_>>())
        }
        Expr::IfElse(p, t, f) => format!(
            "if ({}) ({}) ({:?})",
            text(p),
            text(t),
            f.as_ref().map(|f| text(f))
        ),
        Expr::Block(exprs) => format!("block {:?}", exprs.iter().map(text).collect::<Vec<_>>()),
        Expr::BinOp(l, op, r) => format!("({}) {} ({})", text(l), ident_text(op), text(r)),
        Expr::Let(id, e, b) => format!(
            "let {} = {} in {:?}",
            ident_text(id),
            text(e),
            b.as_ref().map(|b| text(b))
        ),
        Expr::FieldAccess(e, field) => format!("({}).{}", text(e), ident_text(field)),
        Expr::Lambda(l) => format!(
            "lambda {} {:?} {:?} ({})",
            ident_text(&l.id),
            l.free_vars.iter().map(ident_text).collect::<Vec<_>>(),
            l.arguments.iter().map(ident_text).collect::<Vec<_>>(),
            text(&l.body)
        ),
        Expr::Type(name, typ, body) => {
            format!("type {} = {} in {}", name.as_str(), type_text(typ), text(body))
        }
        Expr::Record(id, fields) => format!(
            "record {} {:?}",
            ident_text(id),
            fields
                .iter()
                .map(|f| format!("{}: {}", f.name.as_str(), text(&f.value)))
                .collect::<Vec<_>>()
        ),
    }
}

fn parse_new(s: &str) -> LExpr {
    match parse_str(s) {
        Ok(e) => e,
        Err(err) => panic!("{:?}", err),
    }
}

fn same(e: &LExpr, a: &LExpr) {
    assert_eq!(text(e), text(a));
}

#[test]
fn lib_expression() {
    let e = parse_new("2 * 3 + 4");
    same(&e, &binop(binop(integer(2), "*", integer(3)), "+", integer(4)));
    let e = parse_new(r#"\x y -> x + y"#);
    same(&e, &lambda(vec!["x", "y"], binop(id("x"), "+", id("y"))));
    let e = parse_new(r#"type Test = Int in 0"#);
    same(&e, &type_decl("Test", typ("Int"), integer(0)));
}

#[test]
fn lib_application() {
    let e = parse_new("let f = \\x y -> x + y in f 1 2");
    let a = let_(
        "f",
        lambda(vec!["x", "y"], binop(id("x"), "+", id("y"))),
        call(id("f"), vec![integer(1), integer(2)]),
    );
    same(&e, &a);
}

#[test]
fn lib_let_type_decl() {
    let e = match parse_tc("let f: Int = \\x y -> x + y in f 1 2") {
        Ok(e) => e,
        Err(err) => panic!("{:?}", err),
    };
    match e.value {
        Expr::Let(bind, _, _) => {
            assert_eq!(bind.typ.as_ref().map(type_text), Some(type_text(&typ("Int"))))
        }
        _ => assert!(false),
    }
}

#[test]
fn lib_type_decl_record() {
    let e = parse_new("type Test = { x: Int, y: {} } in 1");
    let record = ParsedType::Record(vec![
        ParsedField { name: intern("x"), typ: typ("Int") },
        ParsedField { name: intern("y"), typ: ParsedType::Record(vec![]) },
    ]);
    same(&e, &type_decl("Test", record, integer(1)));
}

#[test]
fn lib_field_access_test() {
    let e = parse_new("{ x: 1 }.x");
    same(&e, &field_access(record(vec![("x", integer(1))]), "x"));
}

#[test]
fn lib_builtin_op() {
    let e = parse_new("x #Int+ 1");
    same(&e, &binop(id("x"), "#Int+", integer(1)));
}

#[test]
fn lib_op_identifier() {
    let e = parse_new("let (==) = \\x y -> x #Int== y in (==) 1 2");
    same(
        &e,
        &let_(
            "==",
            lambda(vec!["x", "y"], binop(id("x"), "#Int==", id("y"))),
            call(id("=="), vec![integer(1), integer(2)]),
        ),
    );
}

#[test]
fn if_else_test() {
    let e = parse_new("if True then 1 else 0");
    let yes = no_loc(Expr::Literal(LiteralStruct::Bool(true)));
    same(&e, &if_else(yes, integer(1), integer(0)));
}

#[test]
fn basic_builtin_op() {
    let e = parse_new("x #Int+ 1");
    same(&e, &binop(id("x"), "#Int+", integer(1)));
}

#[test]
fn comments_and_white_space_are_skipped() {
    let e = parse_new("  // a line\n /* a block * / */ f /* x */ 1 // end");
    same(&e, &call(id("f"), vec![integer(1)]));
    assert!(parse_str("f /* without end").is_err());
}

#[test]
fn types_are_read() {
    let e = parse_new("type T = Option a -> [Float] -> () in 0");
    let option = ParsedType::App(
        Box::new(ParsedType::Data(intern("Option"))),
        Box::new(ParsedType::Generic(intern("a"))),
    );
    let array = ParsedType::Array(Box::new(ParsedType::Builtin(Primitive::Float)));
    let unit = ParsedType::Builtin(Primitive::Unit);
    let inner = ParsedType::Function(vec![array], Box::new(unit));
    let all = ParsedType::Function(vec![option], Box::new(inner));
    same(&e, &type_decl("T", all, integer(0)));
}

#[test]
fn numbers_are_read() {
    same(&parse_new("1.5e-3"), &float("1.5e-3"));
    same(&parse_new("f -1"), &call(id("f"), vec![float("-1")]));
    same(&parse_new("007"), &integer(7));
    same(&parse_new("9223372036854775808"), &integer(i64::MIN));
}

#[test]
fn parentheses_and_blocks() {
    same(&parse_new("()"), &no_loc(Expr::Block(vec![])));
    same(&parse_new("(f 1).x.y"), &field_access(field_access(call(id("f"), vec![integer(1)]), "x"), "y"));
}

#[test]
fn reserved_words_are_no_names() {
    assert!(parse_str("let in = 1 in 2").is_err());
    assert!(parse_str("").is_err());
    assert!(parse_str("x -> 1").is_err());
    same(&parse_new("letter"), &id("letter"));
}

#[test]
fn types_are_left_out_without_types() {
    let e = parse_new("let f: Int = 1 in f");
    same(&e, &let_("f", integer(1), id("f")));
}

#[test]
fn locations_are_rows_and_columns() {
    let e = parse_new("f\n  x");
    match e.value {
        Expr::Call(f, args) => {
            assert_eq!(f.location, Location { column: 1, row: 1, absolute: 0 });
            assert_eq!(args[0].location, Location { column: 3, row: 2, absolute: 0 });
        }
        _ => assert!(false),
    }
}

#[test]
fn precedences() {
    assert_eq!(precedence(&intern("&&")), 0);
    assert_eq!(precedence(&intern("||")), 0);
    assert_eq!(precedence(&intern("+")), 1);
    assert_eq!(precedence(&intern("<=")), 1);
    assert_eq!(precedence(&intern("%")), 3);
    assert_eq!(precedence(&intern("<>")), 9);
}

#[test]
fn basic_expression() {
    let e = parse_new("2 * 3 + 4");
    same(&e, &binop(binop(integer(2), "*", integer(3)), "+", integer(4)));
    let e = parse_new(r#"\x y -> x + y"#);
    same(&e, &lambda(vec!["x", "y"], binop(id("x"), "+", id("y"))));
    let e = parse_new(r#"type Test = Int in 0"#);
    same(&e, &type_decl("Test", typ("Int"), integer(0)));
}

#[test]
fn basic_application() {
    let e = parse_new("let f = \\x y -> x + y in f 1 2");
    let a = let_(
        "f",
        lambda(vec!["x", "y"], binop(id("x"), "+", id("y"))),
        call(id("f"), vec![integer(1), integer(2)]),
    );
    same(&e, &a);
}

#[test]
fn basic_let_type_decl() {
    let e = match parse_tc("let f: Int = \\x y -> x + y in f 1 2") {
        Ok(e) => e,
        Err(err) => panic!("{:?}", err),
    };
    match e.value {
        Expr::Let(bind, _, _) => {
            assert_eq!(bind.typ.as_ref().map(type_text), Some(type_text(&typ("Int"))))
        }
        _ => assert!(false),
    }
}

#[test]
fn basic_type_decl_record() {
    let e = parse_new("type Test = { x: Int, y: {} } in 1");
    let record = ParsedType::Record(vec![
        ParsedField { name: intern("x"), typ: typ("Int") },
        ParsedField { name: intern("y"), typ: ParsedType::Record(vec![]) },
    ]);
    same(&e, &type_decl("Test", record, integer(1)));
}

#[test]
fn basic_op_identifier() {
    let e = parse_new("let (==) = \\x y -> x #Int== y in (==) 1 2");
    same(
        &e,
        &let_(
            "==",
            lambda(vec!["x", "y"], binop(id("x"), "#Int==", id("y"))),
            call(id("=="), vec![integer(1), integer(2)]),
        ),
    );
}

#[test]
fn texts_that_are_no_expressions() {
    let error = |text: &str| match parse_str(text) {
        Ok(_) => None,
        Err(error) => Some(error),
    };
    assert_eq!(error("/* open"), Some(ParseError::OpenComment));
    assert_eq!(error("  ) 1"), Some(ParseError::NoExpression(2)));
    assert_eq!(error(" let x = in"), Some(ParseError::Unfinished(1)));
    assert_eq!(error("1"), None);
}
