use gluon::ast::{Expr, Lambda, Literal, Pattern, SpannedExpr, TypedIdent, ValueBinding};
use gluon::completion::{complete_at, Match};
use gluon::metadata::Metadata;
use gluon::pos::{spanned, BytePos, Containment, Span};
use gluon::pretty_print::{pretty_kind, pretty_pattern, ExprPrinter};
use gluon::query::{get_metadata, signature_help, suggest, SuggestionQuery};
use gluon::recursion_check::check_expr;
use gluon::resolve::{EmptyEnv, TypeTable};
use gluon::source::Source;
use gluon::suggest::{all_symbols, find, find_all_symbols, ident_at, span_at};
use gluon::symbol::Symbol;
use gluon::symbol_map::SymbolMap;
use gluon::typed::{env_type_of, get_return_type, try_type_of};
use gluon::types::display::{display_type, Prec};
use gluon::types::{ArcType, Type};

fn sym(s: &str) -> Symbol {
    Symbol::new(s.to_string())
}

fn span(start: u32, end: u32) -> Span {
    Span::new(BytePos(start), BytePos(end))
}

fn ident(s: &str, typ: ArcType) -> TypedIdent {
    TypedIdent { name: sym(s), typ }
}

fn id(start: u32, s: &str, typ: ArcType) -> SpannedExpr {
    spanned(span(start, start + s.len() as u32), Expr::Ident(ident(s, typ)))
}

fn num(start: u32, end: u32, i: i64) -> SpannedExpr {
    spanned(span(start, end), Expr::Literal(Literal::Int(i)))
}

fn show(typ: &ArcType) -> String {
    display_type(typ).format()
}

// let abc = 1
// abc
fn program() -> SpannedExpr {
    let binding = ValueBinding {
        comment: None,
        name: spanned(span(4, 7), Pattern::Ident(ident("abc", Type::int_()))),
        typ: None,
        args: vec![],
        expr: num(10, 11, 1),
    };
    spanned(
        span(0, 15),
        Expr::LetBindings(vec![binding], Box::new(id(12, "abc", Type::int_()))),
    )
}

#[test]
fn spans_contain_positions() {
    assert!(span(1, 3).containment(BytePos(0)) == Containment::Less);
    assert!(span(1, 3).containment(BytePos(3)) == Containment::Equal);
    assert!(span(1, 3).containment(BytePos(4)) == Containment::Greater);
}

#[test]
fn what_stands_at_a_position_is_found() {
    let e = program();
    match complete_at(&e, BytePos(13)) {
        Ok(found) => assert!(matches!(found.match_, Some(Match::Expr(_)))),
        Err(()) => assert!(false),
    }
    assert_eq!(ident_at(&e, BytePos(13)).map(|s| s.as_str().to_string()), Ok("abc".to_string()));
    assert_eq!(span_at(&e, BytePos(13)), Ok(span(12, 15)));
    assert_eq!(find(&EmptyEnv, &e, BytePos(10)).map(|t| show(&t)), Ok("Int".to_string()));
}

#[test]
fn all_uses_of_a_name_are_found() {
    let e = program();
    match find_all_symbols(&e, BytePos(13)) {
        Ok((name, spans)) => {
            assert_eq!(name, "abc");
            assert_eq!(spans, vec![span(4, 7), span(12, 15)]);
        }
        Err(()) => assert!(false),
    }
    assert_eq!(all_symbols(&e).len(), 1);
}

#[test]
fn names_are_suggested() {
    let e = program();
    let names: Vec<String> =
        suggest(&EmptyEnv, &e, BytePos(13)).into_iter().map(|s| s.name).collect();
    assert_eq!(names, vec!["abc"]);
    let query = SuggestionQuery::new();
    assert_eq!(query.suggest(&EmptyEnv, &e, BytePos(15)).len(), 1);
}

#[test]
fn metadata_is_found_at_a_position() {
    let e = program();
    let mut metadata: SymbolMap<Metadata> = SymbolMap::new();
    metadata.insert(sym("abc"), Metadata::new());
    assert!(get_metadata(&metadata, &e, BytePos(13)).is_some());
    let none: SymbolMap<Metadata> = SymbolMap::new();
    assert!(get_metadata(&none, &e, BytePos(13)).is_none());
}

#[test]
fn signatures_help_in_calls() {
    let f = Type::function(vec![Type::int_(), Type::int_()], Type::string());
    let e = spanned(
        span(0, 5),
        Expr::App(Box::new(id(0, "f", f)), vec![num(2, 3, 1), num(4, 5, 2)]),
    );
    match signature_help(&EmptyEnv, &e, BytePos(4)) {
        Some(help) => {
            assert_eq!(show(&help.typ), "Int -> Int -> String");
            assert_eq!(help.index, Some(1));
        }
        None => assert!(false),
    }
}

#[test]
fn types_of_expressions_are_known() {
    let f = Type::function(vec![Type::int_()], Type::string());
    let e = spanned(span(0, 3), Expr::App(Box::new(id(0, "f", f.clone())), vec![num(2, 3, 1)]));
    assert_eq!(show(&env_type_of(&EmptyEnv, &e)), "String");
    assert_eq!(try_type_of(&EmptyEnv, &e).map(|t| show(&t)), Some("String".to_string()));
    assert_eq!(show(&get_return_type(&TypeTable::new(), &f, 1)), "String");
}

fn recursive(value: SpannedExpr) -> SpannedExpr {
    let binding = ValueBinding {
        comment: None,
        name: spanned(span(0, 1), Pattern::Ident(ident("x", Type::hole()))),
        typ: None,
        args: vec![],
        expr: value,
    };
    spanned(span(0, 9), Expr::LetBindings(vec![binding], Box::new(num(8, 9, 1))))
}

#[test]
fn recursive_values_are_checked() {
    match check_expr(&recursive(id(4, "x", Type::hole()))) {
        Ok(()) => assert!(false),
        Err(errors) => {
            assert_eq!(errors.len(), 1);
            assert_eq!(errors[0].span, span(4, 5));
        }
    }
    let lambda = spanned(
        span(4, 7),
        Expr::Lambda(Lambda {
            id: ident("", Type::hole()),
            args: vec![],
            body: Box::new(id(6, "x", Type::hole())),
        }),
    );
    assert!(check_expr(&recursive(lambda)).is_ok());
}

#[test]
fn expressions_are_formatted() {
    let source = Source::new("let abc = 1\nabc".to_string());
    let printer = ExprPrinter::new(&source);
    assert_eq!(printer.format(100, "\n", &program()), "let abc = 1\nabc\n");
}

#[test]
fn comments_are_kept() {
    let text = "// first\nf /* x */ 1";
    let source = Source::new(text.to_string());
    let e = spanned(
        span(9, 20),
        Expr::App(Box::new(id(9, "f", Type::hole())), vec![num(19, 20, 1)]),
    );
    assert_eq!(source.comments_between(0, 9), vec!["// first"]);
    let printer = ExprPrinter::new(&source);
    assert_eq!(printer.format(100, "\n", &e), "// first\nf /* x */ 1\n");
}

#[test]
fn kinds_and_patterns_are_printed() {
    let kind = gluon::kind::Kind::function(gluon::kind::Kind::typ(), gluon::kind::Kind::row());
    assert_eq!(pretty_kind(Prec::Top, &kind).group().pretty(80), "Type -> Row");
    let pattern = spanned(
        span(0, 1),
        Pattern::Constructor(
            ident("Some", Type::hole()),
            vec![spanned(span(0, 1), Pattern::Ident(ident("x", Type::hole())))],
        ),
    );
    assert_eq!(pretty_pattern(&pattern).pretty(80), "Some x");
}
