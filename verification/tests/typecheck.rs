use gluon::ast::{
    Alternative, AstType, Expr, ExprField, ExprTypeField, Lambda, Literal, Pattern, PatternField,
    SpannedExpr, SpannedIdent, SpannedPattern, TypeBinding, TypedIdent, ValueBinding,
};
use gluon::pos::{spanned, BytePos, Span};
use gluon::resolve::{EmptyEnv, TypeTable};
use gluon::symbol::Symbol;
use gluon::typecheck::pattern::{extract_generics, with_pattern_types};
use gluon::typecheck::state::Typecheck;
use gluon::types::display::display_type;
use gluon::types::{AliasData, ArcType, Field, Generic, Type};
use std::sync::Arc;

fn sym(s: &str) -> Symbol {
    Symbol::new(s.to_string())
}

fn at() -> Span {
    Span::new(BytePos(0), BytePos(0))
}

fn expr(value: Expr) -> SpannedExpr {
    spanned(at(), value)
}

fn ident(s: &str) -> TypedIdent {
    TypedIdent { name: sym(s), typ: Type::hole() }
}

fn id(s: &str) -> SpannedExpr {
    expr(Expr::Ident(ident(s)))
}

fn num(i: i64) -> SpannedExpr {
    expr(Expr::Literal(Literal::Int(i)))
}

fn text(s: &str) -> SpannedExpr {
    expr(Expr::Literal(Literal::String(s.to_string())))
}

fn arg(s: &str) -> SpannedIdent {
    spanned(at(), ident(s))
}

fn lambda(args: &[&str], body: SpannedExpr) -> SpannedExpr {
    expr(Expr::Lambda(Lambda {
        id: ident("lambda"),
        args: args.iter().map(|a| arg(a)).collect(),
        body: Box::new(body),
    }))
}

fn call(f: SpannedExpr, args: Vec<SpannedExpr>) -> SpannedExpr {
    expr(Expr::App(Box::new(f), args))
}

fn infix(l: SpannedExpr, op: &str, r: SpannedExpr) -> SpannedExpr {
    expr(Expr::Infix(Box::new(l), arg(op), Box::new(r)))
}

fn pat(s: &str) -> SpannedPattern {
    spanned(at(), Pattern::Ident(ident(s)))
}

fn binding(name: SpannedPattern, args: &[&str], typ: Option<ArcType>, value: SpannedExpr) -> ValueBinding {
    ValueBinding {
        comment: None,
        name,
        typ: typ.map(|typ| AstType { span: at(), comment: None, before: vec![], after: vec![], typ, parts: vec![] }),
        args: args.iter().map(|a| arg(a)).collect(),
        expr: value,
    }
}

fn let_(bindings: Vec<ValueBinding>, body: SpannedExpr) -> SpannedExpr {
    expr(Expr::LetBindings(bindings, Box::new(body)))
}

fn field(name: &str, value: Option<SpannedExpr>) -> ExprField {
    ExprField { name: spanned(at(), sym(name)), value }
}

fn record(fields: Vec<ExprField>) -> SpannedExpr {
    expr(Expr::Record { typ: Type::hole(), types: vec![], exprs: fields, base: None })
}

fn generic(s: &str) -> Generic {
    Generic::new(sym(s), Arc::new(gluon::kind::Kind::Type))
}

fn bool_type() -> ArcType {
    Type::ident(sym("Bool"))
}

fn show(typ: &ArcType) -> String {
    display_type(typ).format()
}

fn infer_in(env: &TypeTable, e: SpannedExpr) -> Result<String, Vec<String>> {
    let mut tc = Typecheck::new(sym("test"), env, bool_type(), vec![]);
    let mut e = e;
    match tc.typecheck_expr(&mut e) {
        Some(typ) => Ok(show(&typ)),
        None => Err(tc.errors().iter().map(|err| err.value.message()).collect()),
    }
}

fn infer(e: SpannedExpr) -> Result<String, Vec<String>> {
    infer_in(&TypeTable::new(), e)
}

fn ok(s: &str) -> Result<String, Vec<String>> {
    Ok(s.to_string())
}

fn err(s: &str) -> Result<String, Vec<String>> {
    Err(vec![s.to_string()])
}

#[test]
fn literals_have_their_types() {
    assert_eq!(infer(num(1)), ok("Int"));
    assert_eq!(infer(text("")), ok("String"));
    assert_eq!(infer(expr(Expr::Literal(Literal::Char('c')))), ok("Char"));
    assert_eq!(infer(expr(Expr::Literal(Literal::Byte(1)))), ok("Byte"));
    assert_eq!(infer(expr(Expr::Literal(Literal::Float(0)))), ok("Float"));
}

#[test]
fn functions_are_generalized() {
    assert_eq!(infer(lambda(&["x"], id("x"))), ok("a0 -> a0"));
    assert_eq!(infer(lambda(&["x", "y"], id("x"))), ok("a0 -> a1 -> a0"));
    assert_eq!(infer(call(lambda(&["x"], id("x")), vec![num(1)])), ok("Int"));
}

#[test]
fn bindings_are_polymorphic() {
    let e = let_(
        vec![binding(pat("f"), &["x"], None, id("x"))],
        call(call(id("f"), vec![id("f")]), vec![num(1)]),
    );
    assert_eq!(infer(e), ok("Int"));
    let e = let_(vec![binding(pat("x"), &[], None, num(1))], id("x"));
    assert_eq!(infer(e), ok("Int"));
}

#[test]
fn recursive_functions() {
    let body = expr(Expr::IfElse(
        Box::new(infix(id("n"), "#Int==", num(0))),
        Box::new(num(1)),
        Box::new(infix(id("n"), "#Int*", call(id("f"), vec![infix(id("n"), "#Int-", num(1))]))),
    ));
    let e = let_(vec![binding(pat("f"), &["n"], None, body)], id("f"));
    assert_eq!(infer(e), ok("Int -> Int"));
}

#[test]
fn declared_types_are_checked() {
    let e = let_(vec![binding(pat("x"), &[], Some(Type::int_()), num(1))], id("x"));
    assert_eq!(infer(e), ok("Int"));
    let e = let_(vec![binding(pat("x"), &[], Some(Type::string()), num(1))], id("x"));
    assert_eq!(
        infer(e),
        err(
            "Expected the following types to be equal\nExpected: String\nFound: Int\n1 errors were \
             found during unification:\nTypes do not match:\n\tExpected: String\n\tFound: Int"
        )
    );
}

#[test]
fn undefined_names_are_reported() {
    assert_eq!(infer(id("x")), err("Undefined variable `x`"));
    assert_eq!(infer(infix(num(1), "<>", num(2))), err("Undefined variable `<>`"));
    assert_eq!(infer(infix(num(1), "#Int%", num(2))), err("Undefined variable `#Int%`"));
}

#[test]
fn operators_have_types() {
    assert_eq!(infer(infix(num(1), "#Int+", num(2))), ok("Int"));
    assert_eq!(infer(infix(num(1), "#Int<", num(2))), ok("Bool"));
    let mut env = TypeTable::new();
    env.values.insert(sym("+"), Type::function(vec![Type::int_(), Type::int_()], Type::int_()));
    assert_eq!(infer_in(&env, infix(num(1), "+", num(2))), ok("Int"));
    env.values.insert(sym("True"), bool_type());
    assert_eq!(infer_in(&env, infix(id("True"), "&&", id("True"))), ok("Bool"));
}

#[test]
fn only_functions_are_called() {
    assert_eq!(
        infer(call(num(1), vec![num(2)])).map_err(|errors| errors.len()),
        Err(1)
    );
}

#[test]
fn records_and_fields() {
    let r = record(vec![field("x", Some(num(1))), field("y", Some(text("")))]);
    assert_eq!(infer(r), ok("{ x : Int, y : String }"));
    let r = record(vec![field("x", Some(num(1)))]);
    let access = expr(Expr::Projection(Box::new(r), sym("x"), Type::hole()));
    assert_eq!(infer(access), ok("Int"));
    let r = record(vec![field("x", Some(num(1)))]);
    let access = expr(Expr::Projection(Box::new(r), sym("z"), Type::hole()));
    assert_eq!(infer(access), err("Type `{ x : Int }` does not have the field `z`"));
    let access = expr(Expr::Projection(Box::new(num(1)), sym("z"), Type::hole()));
    assert_eq!(infer(access), err("Type 'Int' is not a type which allows field accesses"));
    let access = lambda(&["r"], expr(Expr::Projection(Box::new(id("r")), sym("x"), Type::hole())));
    assert_eq!(infer(access), ok("{ x : a0 | a1 } -> a0"));
    let short = let_(vec![binding(pat("x"), &[], None, num(1))], record(vec![field("x", None)]));
    assert_eq!(infer(short), ok("{ x : Int }"));
}

#[test]
fn records_are_found_by_their_fields() {
    let rec = Type::record(vec![], vec![Field::new(sym("x"), Type::int_())]);
    let env = TypeTable::new();
    let named = Type::ident(sym("Rec"));
    let mut tc = Typecheck::new(sym("test"), &env, bool_type(), vec![(named, rec)]);
    let mut e = record(vec![field("x", Some(num(1)))]);
    assert_eq!(tc.typecheck_expr(&mut e).map(|t| show(&t)), Some("Rec".to_string()));
}

#[test]
fn alternatives_agree() {
    let e = expr(Expr::Match(
        Box::new(num(1)),
        vec![
            Alternative { pattern: pat("x"), expr: id("x") },
            Alternative { pattern: pat("y"), expr: num(2) },
        ],
    ));
    assert_eq!(infer(e), ok("Int"));
    let e = expr(Expr::Match(Box::new(num(1)), vec![]));
    assert_eq!(infer(e), err("`case` expression with no alternatives"));
    let p = spanned(at(), Pattern::Constructor(ident("Some"), vec![pat("a"), pat("b")]));
    let mut env = TypeTable::new();
    env.values.insert(sym("Some"), Type::function(vec![Type::int_()], Type::char()));
    let e = expr(Expr::Match(Box::new(num(1)), vec![Alternative { pattern: p, expr: num(1) }]));
    assert_eq!(infer_in(&env, e), err("Type Char has 1 to few arguments"));
}

#[test]
fn record_patterns_bind_fields() {
    let p = spanned(
        at(),
        Pattern::Record {
            typ: Type::hole(),
            types: vec![],
            fields: vec![PatternField { name: spanned(at(), sym("x")), value: Some(pat("z")) }],
        },
    );
    let r = record(vec![field("x", Some(num(1)))]);
    let e = let_(vec![binding(p, &[], None, r)], id("z"));
    assert_eq!(infer(e), ok("Int"));
}

#[test]
fn type_declarations() {
    let variant = Type::variant(vec![Field::new(
        sym("A"),
        Type::function(vec![Type::int_()], Type::ident(sym("T"))),
    )]);
    let bind = || TypeBinding {
        comment: None,
        name: spanned(at(), sym("T")),
        alias: spanned(at(), AliasData::new(sym("T"), vec![], variant.clone())),
        aliased_type: AstType { span: at(), comment: None, before: vec![], after: vec![], typ: variant.clone(), parts: vec![] },
        finalized_alias: None,
    };
    let e = expr(Expr::TypeBindings(vec![bind()], Box::new(call(id("A"), vec![num(1)]))));
    assert_eq!(infer(e), ok("T"));
    let e = expr(Expr::TypeBindings(vec![bind(), bind()], Box::new(num(1))));
    assert_eq!(infer(e), err("Type 'test.T' has been already been defined in this module"));
    let e = expr(Expr::Record {
        typ: Type::hole(),
        types: vec![ExprTypeField { name: spanned(at(), sym("T")) }],
        exprs: vec![],
        base: None,
    });
    assert_eq!(infer(e), err("Type `T` is not defined"));
}

#[test]
fn arrays_blocks_and_units() {
    assert_eq!(infer(expr(Expr::Array(Type::hole(), vec![num(1), num(2)]))), ok("Array Int"));
    assert_eq!(infer(expr(Expr::Block(vec![text(""), num(2)]))), ok("Int"));
    assert_eq!(infer(expr(Expr::Tuple { typ: Type::hole(), elems: vec![] })), ok("()"));
    assert!(infer(expr(Expr::Array(Type::hole(), vec![num(1), text("")]))).is_err());
}

#[test]
fn identifiers_have_types() {
    let env = EmptyEnv;
    let mut tc = Typecheck::new(sym("test"), &env, bool_type(), vec![]);
    let mut e = let_(vec![binding(pat("x"), &[], None, num(1))], id("x"));
    assert!(tc.typecheck_expr(&mut e).is_some());
    let notes: Vec<String> =
        tc.notes().iter().map(|n| format!("{}: {}", n.0.as_str(), show(&n.1))).collect();
    assert_eq!(notes, vec!["x: Int", "x: Int"]);
}

#[test]
fn generics_are_extracted() {
    let args = vec![Type::generic(generic("a")), Type::generic(generic("b"))];
    let names: Vec<String> =
        extract_generics(&args).iter().map(|g| g.id.as_str().to_string()).collect();
    assert_eq!(names, vec!["a", "b"]);
}

#[test]
fn pattern_types_are_found() {
    let fields = vec![PatternField { name: spanned(at(), sym("y")), value: None }];
    let rec = Type::record(
        vec![],
        vec![Field::new(sym("x"), Type::int_()), Field::new(sym("y"), Type::char())],
    );
    let found = with_pattern_types(&fields, &rec);
    assert_eq!(found.len(), 1);
    assert_eq!(show(&found[0].1), "Char");
    assert_eq!(with_pattern_types(&fields, &Type::int_()).len(), 0);
}
