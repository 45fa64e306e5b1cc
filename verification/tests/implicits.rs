use gluon::ast::{Expr, SpannedExpr, TypedIdent};
use gluon::implicits::error::{Error, ErrorKind};
use gluon::implicits::resolve::{resolve_implicit, Trial};
use gluon::implicits::resolver::{ImplicitBindings, ImplicitResolver};
use gluon::implicits::search::{
    apply_implicits, demands_of, find_implicit, path_expr, path_text, smaller, smallers, through,
    Demand, Size,
};
use gluon::implicits::store::ImplicitBinding;
use gluon::implicits::visit::resolve;
use gluon::metadata::{Attribute, Metadata};
use gluon::pos::{spanned, BytePos, Span};
use gluon::substitution::Substitution;
use gluon::symbol::Symbol;
use gluon::symbol_map::SymbolMap;
use gluon::types::display::display_type;
use gluon::types::query::SymbolKey;
use gluon::types::{ArcType, Field, Type};
use std::rc::Rc;

fn sym(s: &str) -> Symbol {
    Symbol::new(s.to_string())
}

fn ident(s: &str, typ: ArcType) -> TypedIdent {
    TypedIdent { name: sym(s), typ }
}

fn show(of: &str) -> ArcType {
    Type::app(Type::ident(sym("Show")), vec![Type::ident(sym(of))])
}

fn text(typ: &ArcType) -> String {
    display_type(typ).format()
}

fn names(found: &[Rc<ImplicitBinding>]) -> Vec<String> {
    found.iter().map(|b| path_text(&b.path)).collect()
}

fn at() -> Span {
    Span::new(BytePos(0), BytePos(0))
}

#[test]
fn types_are_split_by_their_names() {
    let subs = Substitution::new();
    let key = |typ: &ArcType| {
        SymbolKey::split(&subs, typ).map(|(key, rest)| {
            (key.symbol().as_str().to_string(), rest.map(|t| text(&t)))
        })
    };
    assert_eq!(key(&show("A")), Some(("Show".to_string(), Some("A".to_string()))));
    assert_eq!(key(&Type::int_()), Some(("Int".to_string(), None)));
    assert_eq!(
        key(&Type::function(vec![Type::int_()], Type::int_())),
        Some(("->".to_string(), None))
    );
    assert_eq!(
        key(&Type::function_implicit(vec![Type::int_()], show("A"))),
        Some(("Show".to_string(), None))
    );
    assert_eq!(key(&Type::unit()), None);
}

#[test]
fn bindings_are_found_by_the_names_in_their_types() {
    let subs = Substitution::new();
    let mut bindings = ImplicitBindings::new();
    bindings.insert(&subs, Some(sym("def")), vec![ident("show_a", show("A"))], &show("A"));
    bindings.insert(&subs, None, vec![ident("show_b", show("B"))], &show("B"));
    assert_eq!(names(&bindings.get_candidates(&subs, &show("A"))), vec!["show_a"]);
    assert_eq!(names(&bindings.get_candidates(&subs, &show("C"))), vec!["show_a", "show_b"]);
    assert_eq!(names(&bindings.get_candidates(&subs, &Type::int_())), Vec::<String>::new());
    assert!(bindings.defines(&sym("def")));
    assert!(!bindings.defines(&sym("other")));
    let copy = bindings.duplicate();
    let mut types: SymbolMap<ArcType> = SymbolMap::new();
    types.insert(sym("show_a"), Type::char());
    types.insert(sym("show_b"), Type::int_());
    bindings.update(&types);
    assert_eq!(text(&bindings.get_candidates(&subs, &show("A"))[0].typ), "Char");
    assert_eq!(text(&bindings.get_candidates(&subs, &show("C"))[1].typ), "Int");
    assert_eq!(text(&copy.get_candidates(&subs, &show("A"))[0].typ), "Show A");
}

fn implicit() -> Metadata {
    let mut metadata = Metadata::new();
    metadata.attributes.push(Attribute { name: "implicit".to_string(), arguments: None });
    metadata
}

#[test]
fn implicit_values_come_into_scope() {
    let subs = Substitution::new();
    let mut metadata: SymbolMap<Metadata> = SymbolMap::new();
    metadata.insert(sym("Show"), implicit());
    let env: SymbolMap<Metadata> = SymbolMap::new();
    let mut resolver = ImplicitResolver::new(&env, &metadata);
    resolver.on_stack_var(&subs, &sym("show_a"), &show("A"));
    resolver.on_stack_var(&subs, &sym("x"), &Type::int_());
    assert_eq!(resolver.make_implicit_ident().as_str(), "implicit_arg0");
    resolver.enter_scope();
    let record = Type::record(
        vec![],
        vec![Field::new(sym("b"), show("B")), Field::new(sym("i"), Type::int_())],
    );
    resolver.add_implicits_of_record(&subs, &sym("r"), &record, &record);
    assert!(resolver.try_create_implicit(&sym("s"), None, &show("A"), &vec![]).is_some());
    assert!(resolver.try_create_implicit(&sym("s"), None, &Type::int_(), &vec![]).is_none());
    assert!(resolver.try_create_implicit(&sym("s"), Some(&implicit()), &Type::int_(), &vec![]).is_some());
    resolver.exit_scope();
    assert_eq!(resolver.make_implicit_ident().as_str(), "implicit_arg1");
}

#[test]
fn sizes_are_compared() {
    assert_eq!(smaller(Size::Smaller, Size::Smaller), Size::Different);
    assert_eq!(smaller(Size::Smaller, Size::Equal), Size::Smaller);
    assert_eq!(smaller(Size::Equal, Size::Smaller), Size::Equal);
    assert!(smallers(&vec![], 0));
    assert!(!smallers(&vec![], 1));
    assert!(smallers(&vec![(Size::Equal, Size::Equal), (Size::Smaller, Size::Different)], 2));
    assert!(!smallers(&vec![(Size::Different, Size::Equal), (Size::Smaller, Size::Different)], 2));
}

#[test]
fn a_binding_demands_its_implicit_arguments() {
    let demand = Demand::new(show("A"));
    let typ = Type::function_implicit(vec![show("B")], show("A"));
    let (demands, rest) = demands_of(&demand, &typ);
    assert_eq!(demands.len(), 1);
    assert_eq!(text(&demands[0].constraint), "Show B");
    assert_eq!(text(&rest), "Show A");
    let error = Error {
        kind: ErrorKind::MissingImplicit(Type::int_()),
        reason: demands_of(&demands[0], &show("C")).0.pop().map_or_else(
            || demands.into_iter().next().map(|d| d.reason).unwrap_or_default(),
            |d| d.reason,
        ),
    };
    assert_eq!(
        error.reasons(),
        vec!["Required because of an implicit parameter of `[Show B] -> Show A`"]
    );
}

fn candidates() -> Vec<Rc<ImplicitBinding>> {
    vec!["x", "y", "z"]
        .into_iter()
        .map(|name| {
            Rc::new(ImplicitBinding {
                path: vec![ident("m", Type::int_()), ident(name, show("A"))],
                typ: show("A"),
            })
        })
        .collect()
}

fn message(res: Result<usize, Error>) -> String {
    match res {
        Ok(i) => format!("{}", i),
        Err(error) => error.message(),
    }
}

#[test]
fn the_only_candidate_is_taken() {
    let demand = Demand::new(show("A"));
    let all = candidates();
    assert_eq!(message(find_implicit(&demand, &all, &vec![false, true, false], false)), "1");
    assert_eq!(
        message(find_implicit(&demand, &all, &vec![false, false, false], false)),
        "Implicit parameter with type `Show A` could not be resolved."
    );
    assert_eq!(
        message(find_implicit(&demand, &all, &vec![true, false, true], false)),
        "Unable to resolve implicit. Multiple candidates were found: m.z: Show A, m.x: Show A"
    );
    match find_implicit(&demand, &all, &vec![true, false, false], true) {
        Ok(_) => assert!(false),
        Err(error) => {
            let error = through(error, &vec![ident("outer", Type::int_())]);
            assert_eq!(
                error.message(),
                "Unable to resolve implicit, possible infinite loop. When resolving, m.x, outer"
            );
        }
    }
}

#[test]
fn paths_become_expressions() {
    let path = vec![ident("m", Type::int_()), ident("x", show("A"))];
    let e = path_expr(at(), &path);
    match &e.value {
        Expr::Projection(inner, field, _) => {
            assert_eq!(field.as_str(), "x");
            assert!(matches!(&inner.value, Expr::Ident(id) if id.name.as_str() == "m"));
        }
        _ => assert!(false),
    }
    assert!(apply_implicits(at(), path_expr(at(), &path), 1, vec![]).is_none());
    match apply_implicits(at(), path_expr(at(), &path), 1, vec![e]) {
        Some(applied) => assert!(matches!(&applied.value, Expr::App(_, args) if args.len() == 1)),
        None => assert!(false),
    }
    assert!(apply_implicits(at(), path_expr(at(), &path), 0, vec![]).is_some());
}

fn trial(of: &str, path: &[&str], sizes: Vec<(Size, Size)>, args: Vec<Trial>) -> Trial {
    let path: Vec<TypedIdent> = path.iter().map(|s| ident(s, show(of))).collect();
    Trial {
        demand: Demand::new(show(of)),
        candidates: vec![Rc::new(ImplicitBinding { path, typ: show(of) })],
        fits: vec![true],
        sizes,
        args,
    }
}

fn applied(expr: &SpannedExpr) -> String {
    match &expr.value {
        Expr::Ident(id) => id.name.as_str().to_string(),
        Expr::Projection(inner, field, _) => format!("{}.{}", applied(inner), field.as_str()),
        Expr::App(func, args) => {
            let args: Vec<String> = args.iter().map(applied).collect();
            format!("({} {})", applied(func), args.join(" "))
        }
        _ => "?".to_string(),
    }
}

#[test]
fn arguments_of_implicits_are_resolved_too() {
    let int = || trial("Int", &["int", "show"], vec![], vec![]);
    let pair = trial("Pair", &["pair", "show"], vec![], vec![int(), int()]);
    match resolve_implicit(at(), &pair) {
        Ok(expr) => assert_eq!(applied(&expr), "(pair.show int.show int.show)"),
        Err(error) => panic!("{}", error.message()),
    }
    // The same candidate again, for less
    let inner = trial("List", &["list"], vec![(Size::Smaller, Size::Different)], vec![int()]);
    match resolve_implicit(at(), &trial("List", &["list"], vec![], vec![inner])) {
        Ok(expr) => assert_eq!(applied(&expr), "(list (list int.show))"),
        Err(error) => panic!("{}", error.message()),
    }
}

#[test]
fn loops_among_implicits_are_refused() {
    let same = trial("List", &["list"], vec![(Size::Equal, Size::Equal)], vec![]);
    let between = trial("Box", &["b", "show"], vec![], vec![same]);
    match resolve_implicit(at(), &trial("List", &["list"], vec![], vec![between])) {
        Ok(_) => assert!(false),
        Err(error) => assert_eq!(
            error.message(),
            "Unable to resolve implicit, possible infinite loop. \
             When resolving, list, b.show, list"
        ),
    }
    let mut missing = trial("Int", &["int"], vec![], vec![]);
    missing.fits = vec![false];
    match resolve_implicit(at(), &trial("List", &["list"], vec![], vec![missing])) {
        Ok(_) => assert!(false),
        Err(error) => assert_eq!(
            error.message(),
            "Implicit parameter with type `Show Int` could not be resolved."
        ),
    }
}

#[test]
fn identifiers_are_replaced_by_implicit_arguments() {
    let name = |s: &str, start: u32| {
        let span = Span::new(BytePos(start), BytePos(start + 1));
        spanned(span, Expr::Ident(ident(s, Type::hole())))
    };
    let call = || {
        let args = vec![name("implicit_arg", 1), name("x", 2), name("other_arg", 3)];
        spanned(at(), Expr::App(Box::new(name("f", 0)), args))
    };
    let int = trial("Int", &["int", "show"], vec![], vec![]);
    let mut missing = trial("Bool", &["bool"], vec![], vec![]);
    missing.fits = vec![false];
    let trials = vec![(sym("implicit_arg"), int), (sym("other_arg"), missing)];
    let mut expr = spanned(at(), Expr::Block(vec![call(), call()]));
    let errors = resolve(&trials, &mut expr);
    match &expr.value {
        Expr::Block(exprs) => {
            for e in exprs.iter() {
                assert_eq!(applied(e), "(f int.show x other_arg)");
            }
        }
        _ => assert!(false),
    }
    assert_eq!(errors.len(), 2);
    assert_eq!(errors[1].span.start, BytePos(3));
    assert_eq!(
        errors[1].value.message(),
        "Implicit parameter with type `Show Bool` could not be resolved."
    );
}
