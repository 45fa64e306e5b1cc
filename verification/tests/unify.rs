use gluon::resolve::{EmptyEnv, TypeTable};
use gluon::substitution::Substitution;
use gluon::symbol::Symbol;
use gluon::symbol_map::SymbolMap;
use gluon::types::rows::row_iter;
use gluon::types::{Alias, ArcType, Field, Generic, Type};
use gluon::unify_type::{merge_signature, unify, Error, State, TypeError};

fn intern(s: &str) -> Symbol {
    Symbol::new(s.to_string())
}

fn mismatch(error: &Error, l: ArcType, r: ArcType) -> bool {
    match error {
        Error::TypeMismatch(a, b) => a.same(&l) && b.same(&r),
        _ => false,
    }
}

#[test]
fn detect_multiple_type_errors_in_single_type() {
    let (x, y) = (intern("x"), intern("y"));
    let l: ArcType = Type::record(
        vec![],
        vec![
            Field { name: x.clone(), typ: Type::int_() },
            Field { name: y.clone(), typ: Type::string() },
        ],
    );
    let r = Type::record(
        vec![],
        vec![
            Field { name: x.clone(), typ: Type::string() },
            Field { name: y.clone(), typ: Type::int_() },
        ],
    );
    let env = EmptyEnv;
    let mut state = State::new(&env, Substitution::new());
    match unify(&mut state, &l, &r) {
        Ok(_) => assert!(false),
        Err(errors) => {
            assert_eq!(errors.len(), 2);
            assert!(mismatch(&errors[0], Type::int_(), Type::string()));
            assert!(mismatch(&errors[1], Type::string(), Type::int_()));
        }
    }
}

#[test]
fn unify_row_polymorphism() {
    let x = || Field { name: intern("x"), typ: Type::int_() };
    let y = || Field { name: intern("y"), typ: Type::int_() };
    let mut subs = Substitution::new();
    let l: ArcType = Type::poly_record(vec![], vec![x()], subs.new_var());
    let r = Type::poly_record(vec![], vec![y()], subs.new_var());

    let env = EmptyEnv;
    let mut state = State::new(&env, subs);
    match unify(&mut state, &l, &r) {
        Ok(result) => {
            // Get the row variable at the end of the resulting type so we can compare the types
            let mut iter = row_iter(&result);
            while iter.next().is_some() {}
            let row_variable = iter.current_type().clone();
            let expected = Type::poly_record(vec![], vec![x(), y()], row_variable);
            assert!(result.same(&expected));
        }
        Err(_) => assert!(false),
    }
}

#[test]
fn variables_are_bound() {
    let mut subs = Substitution::new();
    let var = subs.new_var();
    let env = EmptyEnv;
    let mut state = State::new(&env, subs);
    let l = Type::function(vec![var.clone()], Type::int_());
    let r = Type::function(vec![Type::string()], Type::int_());
    match unify(&mut state, &l, &r) {
        Ok(result) => assert!(result.same(&r)),
        Err(_) => assert!(false),
    }
    assert!(state.substitution().actual(&var).same(&Type::string()));
}

#[test]
fn a_variable_does_not_occur_in_what_it_is_bound_to() {
    let mut subs = Substitution::new();
    let var = subs.new_var();
    let env = EmptyEnv;
    let mut state = State::new(&env, subs);
    match unify(&mut state, &var, &Type::array(var.clone())) {
        Ok(_) => assert!(false),
        Err(errors) => {
            assert_eq!(errors.len(), 1);
            assert!(matches!(&errors[0], Error::Occurs(v, _) if v.id == 0));
        }
    }
}

#[test]
fn missing_fields_are_reported() {
    let l = Type::record(vec![], vec![Field::new(intern("x"), Type::int_())]);
    let r = Type::record(
        vec![],
        vec![
            Field::new(intern("x"), Type::int_()),
            Field::new(intern("y"), Type::int_()),
            Field::new(intern("z"), Type::int_()),
        ],
    );
    let mut subs = Substitution::new();
    let open = Type::poly_record(
        vec![],
        vec![Field::new(intern("y"), Type::int_()), Field::new(intern("z"), Type::int_())],
        subs.new_var(),
    );
    let env = EmptyEnv;
    let mut state = State::new(&env, subs);
    match unify(&mut state, &l, &open) {
        Ok(_) => assert!(false),
        Err(errors) => match &errors[0] {
            Error::Other(error) => assert_eq!(
                error.message(),
                "The type `{ x : Int }` lacks the following fields: y and z"
            ),
            _ => assert!(false),
        },
    }
    let mut state = State::new(&env, Substitution::new());
    match unify(&mut state, &l, &r) {
        Ok(_) => assert!(false),
        Err(errors) => match &errors[0] {
            Error::Other(error) => assert_eq!(
                error.message(),
                "The type `{ x : Int }` lacks the following fields: y and z"
            ),
            _ => assert!(false),
        },
    }
}

#[test]
fn field_names_have_to_match() {
    let l = Type::record(vec![], vec![Field::new(intern("x"), Type::int_())]);
    let r = Type::record(vec![], vec![Field::new(intern("y"), Type::int_())]);
    let env = EmptyEnv;
    let mut state = State::new(&env, Substitution::new());
    match unify(&mut state, &l, &r) {
        Ok(_) => assert!(false),
        Err(errors) => match &errors[0] {
            Error::Other(error) => assert_eq!(
                error.message(),
                "Field names in record do not match.\n\tExpected: x\n\tFound: y"
            ),
            _ => assert!(false),
        },
    }
}

#[test]
fn aliases_are_expanded() {
    let mut env = TypeTable::new();
    let alias = Alias::new(intern("Name"), vec![], Type::string());
    env.aliases.insert(intern("Name"), alias.as_ref().clone());
    let mut state = State::new(&env, Substitution::new());
    assert!(unify(&mut state, &Type::ident(intern("Name")), &Type::string()).is_ok());
    assert!(unify(&mut state, &Type::ident(intern("Name")), &Type::int_()).is_err());
    assert!(unify(&mut state, &Type::ident(intern("Name")), alias.as_type()).is_ok());
}

#[test]
fn an_alias_inside_its_own_expansion_is_reported() {
    let mut env = TypeTable::new();
    let alias = Alias::new(intern("Loop"), vec![], Type::ident(intern("Loop")));
    env.aliases.insert(intern("Loop"), alias.as_ref().clone());
    let mut state = State::new(&env, Substitution::new());
    match unify(&mut state, &Type::ident(intern("Loop")), &Type::int_()) {
        Ok(_) => assert!(false),
        Err(errors) => match &errors[0] {
            Error::Other(error) => {
                assert_eq!(
                    error.message(),
                    "The use of self recursion in type `Loop` could not be unified."
                );
            }
            _ => assert!(false),
        },
    }
}

#[test]
fn parameters_of_a_signature_do_not_escape() {
    let mut subs = Substitution::new();
    let inner = subs.new_var();
    let outer = subs.new_var();
    let kind = std::sync::Arc::new(gluon::kind::Kind::Type);
    let param = Type::generic(Generic::new(intern("a"), kind));
    let mut variables: SymbolMap<ArcType> = SymbolMap::new();
    variables.insert(intern("a"), outer.clone());
    let env = EmptyEnv;
    let mut state = State::new(&env, subs);
    match merge_signature(&variables, 0, &mut state, &param, &inner) {
        Ok(_) => assert!(false),
        Err(errors) => match &errors[0] {
            Error::Other(error) => assert_eq!(
                error.message(),
                "Could not generalize the variable bound to `a` as the variable was used outside \
                 its scope"
            ),
            _ => assert!(false),
        },
    }
    assert!(merge_signature(&variables, 5, &mut state, &param, &inner).is_ok());
    assert!(state.substitution().actual(&inner).same(&outer));
}

#[test]
fn undefined_types_have_a_message() {
    assert_eq!(TypeError::UndefinedType(intern("T")).message(), "Type `T` does not exist.");
}

#[test]
fn a_bound_variable_stays_bound() {
    let mut subs = Substitution::new();
    let (a, b) = (subs.new_var(), subs.new_var());
    let env = EmptyEnv;
    let mut state = State::new(&env, subs);
    assert!(unify(&mut state, &a, &Type::int_()).is_ok());
    // The second part fails and the first is kept
    let l = Type::function(vec![b.clone()], a.clone());
    let r = Type::function(vec![Type::string()], Type::string());
    match unify(&mut state, &l, &r) {
        Ok(_) => assert!(false),
        Err(errors) => {
            assert_eq!(errors.len(), 1);
            assert!(mismatch(&errors[0], Type::int_(), Type::string()));
        }
    }
    assert!(state.substitution().actual(&a).same(&Type::int_()));
    assert!(state.substitution().actual(&b).same(&Type::string()));
}

#[test]
fn unified_types_agree_through_their_variables() {
    let mut subs = Substitution::new();
    let (a, b) = (subs.new_var(), subs.new_var());
    let env = EmptyEnv;
    let mut state = State::new(&env, subs);
    let l = Type::function(vec![a.clone(), Type::array(b.clone())], b.clone());
    let r = Type::function(vec![b.clone(), Type::array(Type::int_())], a.clone());
    assert!(unify(&mut state, &l, &r).is_ok());
    assert!(state.substitution().actual(&a).same(&Type::int_()));
    assert!(state.substitution().actual(&b).same(&Type::int_()));
}

#[test]
fn closed_rows_have_the_same_fields() {
    let x = || Field { name: intern("x"), typ: Type::int_() };
    let y = || Field { name: intern("y"), typ: Type::int_() };
    let env = EmptyEnv;
    let mut state = State::new(&env, Substitution::new());
    let l = Type::record(vec![], vec![x()]);
    let r = Type::record(vec![], vec![x(), y()]);
    match unify(&mut state, &l, &r) {
        Ok(_) => assert!(false),
        Err(errors) => {
            assert_eq!(errors.len(), 1);
            match &errors[0] {
                Error::Other(TypeError::MissingFields(_, fields)) => {
                    assert_eq!(fields.len(), 1);
                    assert_eq!(fields[0].as_str(), "y");
                }
                _ => assert!(false),
            }
        }
    }
    let mut state = State::new(&env, Substitution::new());
    assert!(unify(&mut state, &r, &l).is_err());
    let empty = Type::record(vec![], vec![]);
    let mut state = State::new(&env, Substitution::new());
    assert!(unify(&mut state, &l, &empty).is_err());
}
