use gluon::ast::AstType;
use gluon::kind::{apply_kind, Kind};
use gluon::pos::{BytePos, Span};
use gluon::resolve::{
    canonical_alias, peek_alias, remove_alias, remove_aliases, AliasRemover, EmptyEnv, Error,
    RecordSelector, TypeEnv, TypeTable,
};
use gluon::substitution::FreshTypes;
use gluon::symbol::{split_name, Symbol};
use gluon::symbol_map::SymbolMap;
use gluon::text::{decimal_string, lines, trim_right};
use gluon::types::cache::{fold_type, Interner, NullInterner, TypeCache};
use gluon::types::display::{display_type, pretty_print_ast, Printer};
use gluon::types::query::walk_type;
use gluon::types::rows::{forall_params, remove_forall, row_iter, type_field_iter};
use gluon::types::translate::{translate_type, translate_type_with};
use gluon::types::flags::{Flags, HAS_GENERICS};
use gluon::types::visit::{visit_type_opt, walk_move_type, ControlVisitation, FlagsVisitor};
use gluon::types::walk::walk_move_types;
use gluon::types::parts::{walk_type_, walk_type_mut, Walker, WalkerMut};
use gluon::types::{Alias, AliasRef, ArcType, BuiltinType, Field, Generic, Type, TypeField};
use std::sync::Arc;

fn sym(s: &str) -> Symbol {
    Symbol::new(s.to_string())
}

fn param(s: &str) -> Generic {
    Generic::new(sym(s), Arc::new(Kind::Type))
}

fn generic(s: &str) -> ArcType {
    Type::generic(param(s))
}

fn show(typ: &ArcType) -> String {
    display_type(typ).format()
}

fn field(name: &str, typ: ArcType) -> Field {
    Field::new(sym(name), typ)
}

#[test]
fn walk_move_types_test() {
    assert_eq!(
        walk_move_types(&[1, 2, 3], |i: &i32| if *i == 2 { Some(4) } else { None }),
        Some(vec![1, 4, 3])
    );
}

#[test]
fn nothing_is_replaced_where_nothing_changes() {
    assert_eq!(walk_move_types(&[1, 2, 3], |_: &i32| None), None);
}

#[test]
fn types_are_printed() {
    assert_eq!(show(&Type::int_()), "Int");
    assert_eq!(show(&Type::function(vec![Type::int_(), Type::float()], Type::string())), "Int -> Float -> String");
    assert_eq!(
        show(&Type::function(
            vec![Type::function(vec![Type::int_()], Type::int_())],
            Type::int_()
        )),
        "(Int -> Int) -> Int"
    );
    assert_eq!(show(&Type::array(Type::array(Type::int_()))), "Array (Array Int)");
    assert_eq!(show(&Type::unit()), "()");
    assert_eq!(show(&Type::tuple(vec![Type::int_(), Type::char()])), "(Int, Char)");
    assert_eq!(
        show(&Type::record(vec![], vec![field("x", Type::int_()), field("+", Type::int_())])),
        "{ x : Int, (+) : Int }"
    );
    assert_eq!(
        show(&Type::function_implicit(vec![Type::int_()], Type::int_())),
        "[Int] -> Int"
    );
    assert_eq!(
        show(&Type::forall_(vec![param("a")], generic("a"))),
        "forall a . a"
    );
}

#[test]
fn fields_are_filtered_and_lines_are_broken() {
    let record = Type::record(
        vec![],
        vec![field("xxxxxxxxxx", Type::int_()), field("yyyyyyyyyy", Type::int_())],
    );
    assert_eq!(
        display_type(&record).width(20).format(),
        "{\n    xxxxxxxxxx : Int,\n    yyyyyyyyyy : Int\n}"
    );
    let mut printer = Printer::new();
    printer.shortened.push(sym("xxxxxxxxxx"));
    assert_eq!(
        display_type(&record).filter(printer).format(),
        "{ xxxxxxxxxx : ..., yyyyyyyyyy : Int }"
    );
}

#[test]
fn rows_are_walked() {
    let alias = Alias::new(sym("Test"), vec![], Type::int_());
    let record = Type::record(
        vec![TypeField { name: sym("Test"), typ: alias }],
        vec![field("x", Type::int_()), field("y", Type::string())],
    );
    let mut names = vec![];
    let mut iter = row_iter(&record);
    while let Some(field) = iter.next() {
        names.push(field.name.as_str().to_string());
    }
    assert_eq!(names, vec!["x", "y"]);
    assert!(iter.current_type().same(&Type::empty_row()));
    let mut iter = type_field_iter(&record);
    assert_eq!(iter.next().map(|f| f.name.as_str().to_string()), Some("Test".to_string()));
    assert!(iter.next().is_none());
}

#[test]
fn quantifiers_are_removed_and_instantiated() {
    let typ = Type::forall_(
        vec![param("a")],
        Type::forall_(vec![param("b")], Type::function(vec![generic("a")], generic("b"))),
    );
    let names: Vec<String> =
        forall_params(&typ).iter().map(|p| p.id.as_str().to_string()).collect();
    assert_eq!(names, vec!["a", "b"]);
    assert_eq!(show(remove_forall(&typ)), "a -> b");
    let mut fresh = FreshTypes::new(5);
    let mut named: SymbolMap<ArcType> = SymbolMap::new();
    let inst = typ.instantiate_generics(&mut fresh, &mut named);
    assert_eq!(show(&inst), "5 -> 6");
}

#[test]
fn generics_are_replaced() {
    let mut map: SymbolMap<ArcType> = SymbolMap::new();
    assert!(generic("a").replace_generics(&map).is_none());
    map.insert(sym("a"), Type::int_());
    let typ = Type::function(vec![generic("a"), generic("b")], generic("a"));
    assert_eq!(typ.replace_generics(&map).map(|t| show(&t)), Some("Int -> b -> Int".to_string()));
    assert!(generic("b").replace_generics(&map).is_none());
}

#[test]
fn aliases_are_removed() {
    let option = Alias::new(
        sym("Pair"),
        vec![param("a")],
        Type::tuple(vec![generic("a"), generic("a")]),
    );
    let mut env = TypeTable::new();
    env.aliases.insert(sym("Pair"), option.as_ref().clone());
    let typ = Type::app(Type::ident(sym("Pair")), vec![Type::int_()]);
    assert_eq!(show(&remove_aliases(&env, typ.clone())), "(Int, Int)");
    assert!(matches!(remove_alias(&env, &Type::int_()), Ok(None)));
    assert!(matches!(peek_alias(&EmptyEnv, &typ), Ok(None)));
    let direct = Type::app(option.as_type().clone(), vec![Type::char()]);
    assert_eq!(show(&remove_aliases(&EmptyEnv, direct)), "(Char, Char)");
}

#[test]
fn an_alias_is_not_removed_inside_itself() {
    let mut env = TypeTable::new();
    let alias = Alias::new(sym("A"), vec![], Type::ident(sym("A")));
    env.aliases.insert(sym("A"), alias.as_ref().clone());
    let mut remover = AliasRemover::new();
    match remover.remove_aliases(&env, Type::ident(sym("A"))) {
        Err(err @ Error::SelfRecursiveAlias(_)) => {
            assert_eq!(err.message(), "Tried to remove self recursive alias `A`.")
        }
        _ => assert!(false),
    }
    assert_eq!(remover.len(), 1);
    remover.reset(0);
    assert!(remover.is_empty());
    assert_eq!(Error::UndefinedType(sym("B")).message(), "Type `B` does not exist.");
}

#[test]
fn canonical_aliases_are_kept() {
    let mut env = TypeTable::new();
    let inner = Alias::new(sym("Inner"), vec![], Type::int_());
    let outer = Alias::new(sym("Outer"), vec![], Type::ident(sym("Inner")));
    env.aliases.insert(sym("Inner"), inner.as_ref().clone());
    env.aliases.insert(sym("Outer"), outer.as_ref().clone());
    let is_inner = |alias: &AliasRef| alias.data().name().as_str() == "Inner";
    let found = canonical_alias(&env, &Type::ident(sym("Outer")), is_inner);
    assert_eq!(show(&found), "Inner");
    let mut remover = AliasRemover::new();
    match remover.canonical_alias(&env, &Type::ident(sym("Outer")), is_inner) {
        Ok(found) => assert_eq!(show(&found), "Inner"),
        Err(_) => assert!(false),
    }
    assert_eq!(remover.len(), 2);
}

#[test]
fn canonical_aliases_are_unpacked() {
    let alias = Alias::new(sym("A"), vec![], Type::int_());
    let typ = Type::forall_(vec![param("a")], alias.as_type().clone());
    let other = Alias::new(sym("B"), vec![], Type::int_());
    let (params, found, inner) =
        Alias::unpack_canonical_alias(other.as_ref(), &typ, |_: &AliasRef| Type::string());
    assert_eq!(params.len(), 1);
    assert_eq!(found.data().name().as_str(), "A");
    assert_eq!(show(&inner), "String");
    let (_, found, inner) =
        Alias::unpack_canonical_alias(other.as_ref(), &Type::char(), |_: &AliasRef| Type::string());
    assert_eq!(found.data().name().as_str(), "B");
    assert_eq!(show(&inner), "Char");
}

#[test]
fn environments_answer() {
    let mut env = TypeTable::new();
    env.values.insert(sym("x"), Type::int_());
    assert!(env.find_type(&sym("x")).map_or(false, |t| t.same(&Type::int_())));
    assert!(env.find_type(&sym("y")).is_none());
    assert!(EmptyEnv.find_type(&sym("x")).is_none());
    assert!(EmptyEnv.find_type_info(&sym("x")).is_none());
}

#[test]
fn records_are_selected() {
    let record = vec![sym("x"), sym("y")];
    assert!(RecordSelector::Exact.matches(&record, &vec![sym("x"), sym("y")]));
    assert!(!RecordSelector::Exact.matches(&record, &vec![sym("y"), sym("x")]));
    assert!(RecordSelector::Subset.matches(&record, &vec![sym("y")]));
    assert!(!RecordSelector::Subset.matches(&record, &vec![sym("z")]));
}

#[test]
fn types_are_interned_once() {
    let mut interner = Interner::new();
    let a = interner.intern(Type::Ident(sym("T")));
    let b = interner.intern(Type::Ident(sym("T")));
    assert!(a.same(&b));
    assert!(interner.intern(Type::EmptyRow).same(&Type::empty_row()));
    assert!(NullInterner.intern(Type::Hole).same(&Type::hole()));
}

#[test]
fn cached_types_are_the_types() {
    let cache = TypeCache::new();
    assert_eq!(show(&cache.builtin_type(BuiltinType::Function)), "(->)");
    assert_eq!(show(&cache.array(cache.int_())), "Array Int");
    assert_eq!(show(&cache.tuple(vec![])), "()");
    assert_eq!(show(&cache.function(vec![cache.byte()], cache.char())), "Byte -> Char");
    assert!(cache.error().same(&Type::error()));
}

#[test]
fn builtin_types_are_read_back() {
    for typ in vec![
        BuiltinType::String,
        BuiltinType::Byte,
        BuiltinType::Char,
        BuiltinType::Int,
        BuiltinType::Float,
        BuiltinType::Array,
        BuiltinType::Function,
    ] {
        assert_eq!(BuiltinType::from_str(typ.to_str()), Ok(typ));
    }
    assert_eq!(BuiltinType::from_str("int"), Err(()));
}

#[test]
fn types_are_walked_and_folded() {
    let typ = Type::function(vec![Type::int_()], Type::array(Type::char()));
    let all: Vec<String> = walk_type(&typ).into_iter().map(show).collect();
    assert_eq!(all[0], "Int -> Array Char");
    assert_eq!(all[1], "Int");
    assert_eq!(fold_type(&typ, |_: &ArcType, n: usize| n + 1, 0), all.len());
    assert!(Type::int_().as_variable().is_none());
}

#[test]
fn types_are_translated_to_themselves() {
    let typ = Type::record(vec![], vec![field("x", Type::function(vec![Type::int_()], Type::int_()))]);
    assert!(translate_type(&typ).same(&typ));
}

#[test]
fn arguments_are_applied() {
    let alias = Alias::new(sym("F"), vec![param("a")], Type::function(vec![generic("a")], generic("a")));
    let mut named: SymbolMap<ArcType> = SymbolMap::new();
    let applied = alias
        .as_ref()
        .typ()
        .apply_args(alias.as_ref().data().params(), &vec![Type::int_()], &mut named);
    assert_eq!(applied.map(|t| show(&t)), Some("Int -> Int".to_string()));
}

#[test]
fn kinds_are_applied() {
    let kind = Kind::function(Kind::typ(), Kind::function(Kind::row(), Kind::typ()));
    assert!(apply_kind(kind.clone(), 1).same(&Kind::function(Kind::row(), Kind::typ())));
    assert!(apply_kind(kind, 2).same(&Kind::typ()));
}

#[test]
fn symbols_have_parts() {
    assert_eq!(split_name("std.list.List"), ("std.list", "List"));
    assert_eq!(split_name("List"), ("", "List"));
    assert_eq!(sym("std.list.List").declared_name(), "List");
    assert!(sym("Some").is_constructor());
    assert!(!sym("some").is_constructor());
    assert!(sym("\u{c9}a").is_constructor());
    assert!(sym("@global").is_global());
}

#[test]
fn texts_are_cut() {
    assert_eq!(trim_right("x \t\n"), "x");
    assert_eq!(trim_right("x\u{a0}"), "x");
    assert_eq!(decimal_string(1203), "1203");
    assert_eq!(lines("a\nb\r\nc"), vec!["a", "b", "c"]);
}

struct Ints(usize);

impl WalkerMut for Ints {
    fn walk_mut(&mut self, typ: &mut ArcType) {
        if typ.same(&Type::int_()) {
            self.0 += 1;
            *typ = Type::string();
        } else {
            walk_type_mut(typ, self);
        }
    }
}

#[test]
fn parts_are_changed_in_place() {
    let field = |typ: ArcType| Field::new(Symbol::new("x".to_string()), typ);
    let mut walker = Ints(0);
    let mut typ = Type::function(
        vec![Type::array(Type::int_()), Type::record(vec![], vec![field(Type::int_())])],
        Type::float(),
    );
    let shared = typ.clone();
    walk_type_mut(&mut typ, &mut walker);
    assert_eq!(walker.0, 2);
    let expected = Type::function(
        vec![Type::array(Type::string()), Type::record(vec![], vec![field(Type::string())])],
        Type::float(),
    );
    assert!(typ.same(&expected));
    assert!(!shared.same(&expected));
}

struct Seen(Vec<String>);

impl Walker for Seen {
    fn walk(&mut self, typ: &ArcType) {
        self.0.push(display_type(typ).format());
    }
}

#[test]
fn parts_are_seen_in_order() {
    let mut seen = Seen(vec![]);
    let pair = |x: ArcType, y: ArcType| {
        Type::record(
            vec![TypeField { name: sym("T"), typ: Alias::new(sym("T"), vec![], Type::char()) }],
            vec![Field::new(sym("x"), x), Field::new(sym("y"), y)],
        )
    };
    let typ = pair(Type::int_(), Type::string());
    walk_type_(&typ, &mut seen);
    assert_eq!(seen.0.len(), 1);
    let row = match typ.as_type() {
        Type::Record(row) => row.clone(),
        _ => panic!(),
    };
    seen.0.clear();
    walk_type_(&row, &mut seen);
    assert_eq!(seen.0[0], "Char");
    assert_eq!(seen.0.len(), 2);
    let row = match row.as_type() {
        Type::ExtendTypeRow { rest, .. } => rest.clone(),
        _ => panic!(),
    };
    seen.0.clear();
    walk_type_(&row, &mut seen);
    assert_eq!(seen.0[0], "Int");
    assert_eq!(seen.0[1], "String");
    assert_eq!(seen.0.len(), 3);
}

#[test]
fn types_are_translated_one_level_deep() {
    let replace = |typ: &ArcType| {
        if typ.same(&Type::int_()) {
            Type::string()
        } else {
            typ.clone()
        }
    };
    let typ = Type::function(vec![Type::int_()], Type::array(Type::int_()));
    let res = translate_type_with(&typ, replace);
    assert!(res.same(&Type::function(vec![Type::string()], Type::array(Type::int_()))));
    let alias = Alias::new(sym("T"), vec![], Type::int_());
    let res = translate_type_with(alias.as_type(), replace);
    assert!(res.same(Alias::new(sym("T"), vec![], Type::string()).as_type()));
    assert!(translate_type_with(&Type::int_(), replace).same(&Type::int_()));
}

#[test]
fn types_are_visited_from_the_inside_out() {
    // A parameter becomes `Int`, and an array of `Int` becomes a string
    let replace = |typ: &ArcType| {
        if typ.same(&generic("a")) {
            Some(Type::int_())
        } else if typ.same(&Type::array(Type::int_())) {
            Some(Type::string())
        } else {
            None
        }
    };
    let visitor = FlagsVisitor(Flags::from_bits(HAS_GENERICS), replace);
    let ints = || Type::array(Type::int_());
    // The second argument has no parameter in it and is not visited
    let typ = Type::function(vec![Type::array(generic("a")), ints()], generic("b"));
    let expected = Type::function(vec![Type::string(), ints()], generic("b"));
    match visit_type_opt(&typ, &visitor) {
        Some(res) => assert!(res.same(&expected)),
        None => assert!(false),
    }
    assert!(visit_type_opt(&ints(), &visitor).is_none());
    assert!(visit_type_opt(&generic("b"), &visitor).is_none());
}

#[test]
fn the_function_controls_the_visit() {
    let control = ControlVisitation(|typ: &ArcType| {
        if typ.same(&Type::int_()) {
            Some(Type::string())
        } else {
            None
        }
    });
    let typ = Type::function(vec![Type::int_()], Type::array(Type::int_()));
    assert!(control.visit(&typ).is_none());
    match control.walk_move_parts(&typ) {
        Some(res) => {
            assert!(res.same(&Type::function(vec![Type::string()], Type::array(Type::int_()))))
        }
        None => assert!(false),
    }
    assert!(control.walk_move_parts(&Type::array(Type::array(Type::int_()))).is_none());
}

#[test]
fn a_quantifier_without_parameters_is_left_out_where_names_are_resolved() {
    let id = Type::ident(sym("T"));
    let inner = ArcType::new(Type::Forall(vec![], Type::array(id)));
    let alias = Alias::new(sym("T"), vec![], inner);
    let typ = alias.as_ref().typ();
    assert!(typ.same(&Type::array(alias.as_type().clone())));
}

#[test]
fn every_inner_type_is_offered() {
    // `Int` becomes `Char`, and an array of `Char` becomes a string
    let replace = |typ: &ArcType| {
        if typ.same(&Type::int_()) {
            Some(Type::char())
        } else if typ.same(&Type::array(Type::char())) {
            Some(Type::string())
        } else {
            None
        }
    };
    let typ = Type::function(vec![Type::array(Type::int_())], Type::int_());
    let expected = Type::function(vec![Type::string()], Type::char());
    assert!(walk_move_type(typ.clone(), replace).same(&expected));
    assert!(walk_move_type(typ.clone(), |_: &ArcType| None).same(&typ));
}

#[test]
fn rows_have_as_many_fields_as_are_listed() {
    let alias = |name: &str| TypeField {
        name: sym(name),
        typ: Alias::new(sym(name), vec![], Type::int_()),
    };
    let typ = Type::record(
        vec![alias("Test"), alias("Test2")],
        vec![Field::new(sym("x"), Type::int_()), Field::new(sym("y"), Type::string())],
    );
    assert_eq!(row_iter(&typ).len(), 2);
    let mut iter = row_iter(&typ);
    assert_eq!(iter.next().map(|f| f.name.as_str().to_string()), Some("x".to_string()));
    assert_eq!(iter.next().map(|f| f.name.as_str().to_string()), Some("y".to_string()));
    assert!(iter.next().is_none());
}

#[test]
fn an_endless_alias_is_stopped_by_its_canonical_form() {
    let mut env = TypeTable::new();
    let loops = Alias::new(sym("Loop"), vec![], Type::ident(sym("Loop")));
    env.aliases.insert(sym("Loop"), loops.as_ref().clone());
    let typ = Type::ident(sym("Loop"));
    assert!(canonical_alias(&env, &typ, |_: &AliasRef| true).same(&typ));
    let mut remover = AliasRemover::new();
    match remover.canonical_alias(&env, &typ, |_: &AliasRef| false) {
        Err(Error::SelfRecursiveAlias(id)) => assert_eq!(id.as_str(), "Loop"),
        _ => assert!(false),
    }
}

#[test]
fn positions_in_tuples_are_numbers() {
    let record = |names: Vec<&str>| {
        let fields = names.into_iter().map(|n| Field::new(sym(n), Type::int_())).collect();
        Type::record(vec![], fields)
    };
    assert!(record(vec!["_0", "_1"]).is_tuple());
    assert!(record(vec!["_00", "_+1"]).is_tuple());
    assert!(!record(vec!["_1", "_0"]).is_tuple());
    assert!(!record(vec!["_"]).is_tuple());
    assert!(!record(vec!["_+"]).is_tuple());
    assert!(!record(vec!["_0", "_99999999999999999999999999"]).is_tuple());
    assert!(!record(vec!["_0x"]).is_tuple());
}

#[test]
fn an_alias_stands_for_its_type() {
    let alias = Alias::new(sym("T"), vec![], Type::array(Type::ident(sym("T"))));
    assert!(alias.typ().same(&Type::array(alias.as_type().clone())));
}

#[test]
fn comments_in_types_are_kept() {
    let ast = |before: Vec<&str>, after: Vec<&str>, parts: Vec<AstType>| AstType {
        span: Span::new(BytePos(0), BytePos(0)),
        comment: None,
        before: before.into_iter().map(|c| c.to_string()).collect(),
        after: after.into_iter().map(|c| c.to_string()).collect(),
        typ: Type::hole(),
        parts,
    };
    let print = |ast: &AstType, typ: &ArcType| {
        pretty_print_ast(&Printer::new(), ast, typ).pretty(80)
    };
    let typ = Type::function(vec![Type::int_()], Type::float());
    let first = ast(vec!["/* first */"], vec!["/* Int */"], vec![]);
    let marked = ast(vec![], vec![], vec![first, ast(vec!["", "// Float"], vec![], vec![])]);
    assert_eq!(
        print(&marked, &typ),
        "/* first */ Int /* Int */ -> \n    // Float\n    Float"
    );
    assert_eq!(print(&ast(vec![], vec![], vec![]), &typ), "Int -> Float");
    let applied = Type::app(Type::ident(sym("Test")), vec![Type::int_()]);
    let marked = ast(
        vec![],
        vec![],
        vec![ast(vec![], vec![], vec![]), ast(vec!["/* first */"], vec![], vec![])],
    );
    assert_eq!(print(&marked, &applied), "Test /* first */ Int");
}
