use gluon::ast::{Expr, Literal, SpannedExpr, TypedIdent};
use gluon::cacher::ArcTypeCacher;
use gluon::fixed::{FixedMap, FixedVec};
use gluon::kind::{Kind, KindCache};
use gluon::macros::{Macro, MacroEnv};
use gluon::metadata::{Attribute, Metadata};
use gluon::pos::{spanned, BytePos, Span};
use gluon::pushable::{crate_name, gen_push_impl, CrateName, Fields, MetaItem, NewData};
use gluon::resolve::TypeTable;
use gluon::serialization::{
    deserialize, node_to_id, serialize, Lookup, Node, NodeMap, NodeToId, Variant,
};
use gluon::symbol::Symbol;
use gluon::types::{Alias, Type};

#[test]
fn fixed_values_stay() {
    let mut map: FixedMap<String, i32> = FixedMap::new();
    assert_eq!(map.try_insert("a".to_string(), 1), Ok(()));
    assert_eq!(map.try_insert("a".to_string(), 2), Err(("a".to_string(), 2)));
    assert_eq!(map.try_insert("b".to_string(), 3), Ok(()));
    assert_eq!(map.get(&"a".to_string()), Some(&1));
    assert_eq!(map.get(&"c".to_string()), None);
    assert_eq!(map.len(), 2);
    map.clear();
    assert_eq!(map.len(), 0);
    let mut numbers: FixedMap<u64, &str> = FixedMap::new();
    assert_eq!(numbers.try_insert(7, "seven"), Ok(()));
    assert_eq!(numbers.try_insert(7, "again"), Err((7, "again")));
    assert_eq!(numbers.get(&7), Some(&"seven"));
}

#[test]
fn a_map_holds_as_many_values_as_keys_were_inserted() {
    let mut map: FixedMap<u64, u64> = FixedMap::new();
    let keys = [3, 1, 3, 2, 1, 3];
    let successes = keys.iter().filter(|k| map.try_insert(**k, **k * 10).is_ok()).count();
    assert_eq!(successes, 3);
    assert_eq!(map.len(), 3);
    for k in keys.iter() {
        assert_eq!(map.get(k), Some(&(*k * 10)));
    }
}

#[test]
fn environments_are_remembered() {
    let mut env = TypeTable::new();
    env.values.insert(Symbol::new("x".to_string()), Type::int_());
    let alias = Alias::new(Symbol::new("T".to_string()), vec![], Type::char());
    env.aliases.insert(Symbol::new("T".to_string()), alias.as_ref().clone());
    let mut cacher = ArcTypeCacher::new(&env);
    for _ in 0..2 {
        let x = cacher.find_type(&Symbol::new("x".to_string()));
        assert!(x.map_or(false, |t| t.same(&Type::int_())));
        assert!(cacher.find_type_info(&Symbol::new("T".to_string())).is_some());
        assert!(cacher.find_type(&Symbol::new("y".to_string())).is_none());
    }
    let kinds = KindCache::new();
    let kind = cacher.find_kind(&Symbol::new("T".to_string()), &kinds);
    assert!(kind.map_or(false, |k| k.same(&Kind::typ())));
}

#[test]
fn fixed_lists_grow() {
    let mut vec: FixedVec<i32> = FixedVec::new();
    vec.push(1);
    vec.extend(vec![2, 3]);
    assert_eq!(vec.borrow(), &vec![1, 2, 3]);
    assert_eq!(vec.find(|x: &i32| *x > 1), Some((1, &2)));
    assert_eq!(vec.find(|x: &i32| *x > 9), None);
    assert_eq!(*vec.index(2), 3);
    assert_eq!(vec.len(), 3);
    vec.clear();
    assert_eq!(vec.len(), 0);
}

#[test]
fn shared_values_are_written_once() {
    let mut ids = NodeToId::new();
    let a = Node { unique: false, place: 16 };
    let b = Node { unique: false, place: 32 };
    let c = Node { unique: true, place: 48 };
    assert_eq!(node_to_id(&mut ids, &a), Lookup::Inserted(0));
    assert_eq!(node_to_id(&mut ids, &b), Lookup::Inserted(1));
    assert_eq!(node_to_id(&mut ids, &a), Lookup::Found(0));
    assert_eq!(node_to_id(&mut ids, &c), Lookup::Unique);
}

#[test]
fn shared_values_are_read_back() {
    let mut ids = NodeToId::new();
    let mut nodes = NodeMap::new();
    let a = Node { unique: false, place: 16 };
    let first = serialize(&mut ids, &a, Type::int_());
    assert!(matches!(&first, Variant::Marked(0, _)));
    let second = serialize(&mut ids, &a, Type::int_());
    assert!(matches!(&second, Variant::Reference(0)));
    for variant in vec![first, second] {
        match deserialize(&mut nodes, variant) {
            Ok(typ) => assert!(typ.same(&Type::int_())),
            Err(_) => assert!(false),
        }
    }
    let plain = serialize(&mut ids, &Node { unique: true, place: 1 }, Type::char());
    assert!(deserialize(&mut nodes, plain).map_or(false, |t| t.same(&Type::char())));
    match deserialize(&mut nodes, Variant::Reference(7)) {
        Ok(_) => assert!(false),
        Err(missing) => assert_eq!(missing.message(), "missing id 7"),
    }
    assert!(nodes.get(&7).is_none());
    nodes.insert(7, Type::string());
    assert!(nodes.get(&7).map_or(false, |t| t.same(&Type::string())));
}

fn at(start: u32) -> Span {
    Span::new(BytePos(start), BytePos(start + 1))
}

fn ident(name: &str) -> SpannedExpr {
    spanned(
        at(0),
        Expr::Ident(TypedIdent { name: Symbol::new(name.to_string()), typ: Type::hole() }),
    )
}

#[test]
fn macros_apply_to_calls_of_their_names() {
    let mut macros: MacroEnv<i32> = MacroEnv::new();
    macros.insert("m".to_string(), 1);
    macros.insert("n".to_string(), 2);
    macros.insert("m".to_string(), 3);
    assert_eq!(macros.get("m").map(|m| *m), Some(3));
    assert_eq!(macros.get("o").map(|m| *m), None);
    let call = spanned(at(0), Expr::App(Box::new(ident("n")), vec![]));
    assert_eq!(macros.macro_for(&call).map(|m| *m), Some(2));
    assert_eq!(macros.macro_for(&ident("n")).map(|m| *m), None);
}

/// Expands to a call of `name` with the same arguments, if there are as many as asked for.
struct Forward {
    name: &'static str,
}

impl Macro<usize> for Forward {
    fn expand(
        &self,
        env: &usize,
        arguments: &mut Vec<SpannedExpr>,
    ) -> Result<SpannedExpr, String> {
        if arguments.len() == *env {
            let args = std::mem::replace(arguments, vec![]);
            Ok(spanned(at(70), Expr::App(Box::new(ident(self.name)), args)))
        } else {
            arguments.push(ident("added"));
            Err(format!("{} arguments", arguments.len() - 1))
        }
    }
}

fn call(start: u32, name: &str, args: Vec<SpannedExpr>) -> SpannedExpr {
    spanned(at(start), Expr::App(Box::new(ident(name)), args))
}

fn show(expr: &SpannedExpr) -> String {
    match &expr.value {
        Expr::Ident(id) => id.name.as_str().to_string(),
        Expr::App(func, args) => format!(
            "{}({})@{}",
            show(func),
            args.iter().map(|arg| show(arg)).collect::<Vec<_>>().join(" "),
            expr.span.start.0
        ),
        Expr::IfElse(pred, yes, no) => {
            format!("if {} {} {}", show(pred), show(yes), show(no))
        }
        _ => "?".to_string(),
    }
}

#[test]
fn macros_are_expanded_in_place() {
    let mut macros = MacroEnv::new();
    macros.insert("m".to_string(), Forward { name: "n" });
    macros.insert("n".to_string(), Forward { name: "o" });
    // What came of a macro is not expanded again, its parts are
    let mut expr = call(3, "m", vec![call(5, "n", vec![ident("x")])]);
    assert_eq!(macros.run(&1, &mut expr), Ok(()));
    assert_eq!(show(&expr), "n(o(x)@5)@3");
}

#[test]
fn errors_of_macros_are_collected_in_order() {
    let mut macros = MacroEnv::new();
    macros.insert("m".to_string(), Forward { name: "n" });
    let two = call(5, "m", vec![ident("x"), ident("y")]);
    let none = call(7, "m", vec![]);
    let one = call(9, "m", vec![none]);
    let mut expr = spanned(
        at(1),
        Expr::IfElse(Box::new(two), Box::new(one), Box::new(call(11, "m", vec![]))),
    );
    assert_eq!(
        macros.run(&1, &mut expr),
        Err(vec!["2 arguments".to_string(), "0 arguments".to_string(), "0 arguments".to_string()])
    );
    // The calls stay, with what the macro did to their arguments
    assert_eq!(show(&expr), "if m(x y added)@5 n(m(added)@7)@9 m(added)@11");
}

#[test]
fn without_macros_nothing_is_expanded() {
    let macros: MacroEnv<Forward> = MacroEnv::new();
    let mut expr = call(3, "m", vec![ident("x")]);
    assert_eq!(macros.run(&1, &mut expr), Ok(()));
    assert_eq!(show(&expr), "m(x)@3");
}

#[test]
fn merging_metadata_is_associative() {
    let meta = |comment: &str, name: &str| {
        let mut m = Metadata::new();
        m.attributes.push(Attribute { name: comment.to_string(), arguments: None });
        let mut inner = Metadata::new();
        inner.attributes.push(Attribute { name: comment.to_string(), arguments: None });
        m.module.push((name.to_string(), inner));
        m
    };
    let names = |m: &Metadata| {
        m.attributes.iter().map(|a| a.name.clone()).collect::<Vec<_>>()
    };
    let (a, b, c) = (|| meta("a", "x"), || meta("b", "x"), || meta("c", "y"));
    let left = a().merge(b()).merge(c());
    let right = a().merge(b().merge(c()));
    assert_eq!(names(&left), vec!["a", "b", "c"]);
    assert_eq!(names(&left), names(&right));
    for name in vec!["x", "y"] {
        assert_eq!(left.get(name).map(&names), right.get(name).map(&names));
    }
    assert_eq!(left.get("x").map(&names), Some(vec!["a".to_string(), "b".to_string()]));
    assert_eq!(names(&a().merge(Metadata::new())), names(&Metadata::new().merge(a())));
}

#[test]
fn values_are_pushed_in_reverse() {
    let plan = gen_push_impl(None, &Fields::Named(vec!["x".to_string(), "y".to_string()]));
    assert_eq!(plan.pushes, vec!["y", "x"]);
    assert_eq!(plan.pops, 2);
    assert!(matches!(plan.data, NewData::Record(names) if names == vec!["x", "y"]));
    let plan = gen_push_impl(Some(3), &Fields::Unnamed(2));
    assert_eq!(plan.pushes, vec!["_1", "_0"]);
    assert!(matches!(plan.data, NewData::Tagged(3)));
    assert_eq!(gen_push_impl(Some(0), &Fields::Unit).pops, 0);
}

#[test]
fn crates_are_named_by_attributes() {
    let named = |name: &str| MetaItem::NameValue("crate_name".to_string(), name.to_string());
    assert!(matches!(crate_name(&vec![]), Ok(CrateName::Default)));
    assert!(matches!(
        crate_name(&vec![named("a"), named("b")]),
        Ok(CrateName::Named(name)) if name == "b"
    ));
    let vm = MetaItem::Word("gluon_vm".to_string());
    let vm_type = MetaItem::NameValue("vm_type".to_string(), "x".to_string());
    assert!(matches!(crate_name(&vec![vm, vm_type]), Ok(CrateName::GluonVm)));
    assert!(matches!(
        crate_name(&vec![named("a"), MetaItem::Word("other".to_string())]),
        Err(1)
    ));
    let other = || MetaItem::Word("other".to_string());
    assert!(matches!(crate_name(&vec![other(), other()]), Err(0)));
}

#[test]
fn metadata_is_merged() {
    let mut a = Metadata::new();
    assert!(!a.has_data());
    a.attributes.push(Attribute { name: "x".to_string(), arguments: Some("1".to_string()) });
    a.module.push(("f".to_string(), Metadata::new()));
    let mut b = Metadata::new();
    b.definition = Some(Symbol::new("d".to_string()));
    b.module.push(("g".to_string(), Metadata::new()));
    let c = a.merge(b);
    assert!(c.has_data());
    assert_eq!(c.get_attribute("x"), Some("1"));
    assert_eq!(c.get_attribute("y"), None);
    assert!(c.get("f").is_some());
    assert!(c.get("g").is_some());
    assert!(c.definition.is_some());
}
