use gluon::ast::{
    Alternative, AstType, Do, Expr, ExprField, ExprTypeField, Lambda, Literal, Pattern, PatternField,
    PatternTypeField, SpannedExpr, SpannedIdent, SpannedPattern, TypeBinding, TypedIdent,
    ValueBinding,
};
use gluon::metadata::{Comment, CommentType};
use gluon::pos::{spanned, BytePos, Span};
use gluon::pretty_print::ExprPrinter;
use gluon::resolve::TypeTable;
use gluon::source::Source;
use gluon::symbol::Symbol;
use gluon::typecheck::kinds;
use gluon::typecheck::state::{TypeError, Typecheck};
use gluon::types::display::display_type;
use gluon::types::rows::row_iter;
use gluon::types::{Alias, AliasData, ArcType, BuiltinType, Field, Generic, Type, TypeField};
use gluon::unify_type;
use std::sync::Arc;

// A reader for the programs below. A binding ends where a line begins at its column or before it.

#[derive(Clone, Debug, PartialEq)]
enum Kind {
    Name,
    Op,
    Int(i64),
    Float,
    Str(String),
    Char(char),
    Mark,
    End,
}

#[derive(Clone, Debug)]
struct Token {
    kind: Kind,
    text: String,
    column: usize,
    first: bool,
    start: u32,
    end: u32,
}

fn is_op(c: char) -> bool {
    "+-*/&|=<>:.!".contains(c)
}

fn tokens(source: &str) -> Vec<Token> {
    let chars: Vec<char> = source.chars().collect();
    let mut out = vec![];
    let (mut i, mut line_start, mut first) = (0, 0, true);
    while i < chars.len() {
        let c = chars[i];
        if c == '\n' {
            i += 1;
            line_start = i;
            first = true;
            continue;
        }
        if c.is_whitespace() {
            i += 1;
            continue;
        }
        let two: String = chars[i..].iter().take(2).collect();
        if two == "//" || two == "#!" {
            while chars[i] != '\n' {
                i += 1;
            }
            continue;
        }
        if two == "/*" {
            while chars[i] != '*' || chars[i + 1] != '/' || i < 2 {
                i += 1;
            }
            i += 2;
            continue;
        }
        let start = i;
        let kind;
        if c.is_alphabetic() || c == '_' {
            while i < chars.len() && (chars[i].is_alphanumeric() || chars[i] == '_') {
                i += 1;
            }
            kind = Kind::Name;
        } else if c.is_numeric() {
            while i < chars.len() && (chars[i].is_numeric() || chars[i] == '.') {
                i += 1;
            }
            let text: String = chars[start..i].iter().collect();
            kind = match text.parse() {
                Ok(n) => Kind::Int(n),
                Err(_) => Kind::Float,
            };
        } else if c == '"' {
            i += 1;
            while chars[i] != '"' {
                i += if chars[i] == '\\' { 2 } else { 1 };
            }
            i += 1;
            kind = Kind::Str(chars[start + 1..i - 1].iter().collect());
        } else if c == '\'' {
            i += 3;
            kind = Kind::Char(chars[start + 1]);
        } else if c == '#' || is_op(c) {
            if c == '#' {
                i += 1;
                while chars[i].is_alphabetic() {
                    i += 1;
                }
            }
            while i < chars.len() && is_op(chars[i]) {
                i += 1;
            }
            let text: String = chars[start..i].iter().collect();
            kind = match &text[..] {
                "->" | "=" | ":" | "|" | "." | ".." => Kind::Mark,
                _ => Kind::Op,
            };
        } else {
            i += 1;
            kind = Kind::Mark;
        }
        out.push(Token {
            kind,
            text: chars[start..i].iter().collect(),
            column: start - line_start + 1,
            first,
            start: start as u32,
            end: i as u32,
        });
        first = false;
    }
    let len = chars.len() as u32;
    out.push(Token {
        kind: Kind::End,
        text: String::new(),
        column: 0,
        first: true,
        start: len,
        end: len,
    });
    out
}

fn sym(s: &str) -> Symbol {
    Symbol::new(s.to_string())
}

fn ident(s: &str) -> TypedIdent {
    TypedIdent { name: sym(s), typ: Type::hole() }
}

fn param(s: &str) -> Generic {
    Generic::new(sym(s), Arc::new(gluon::kind::Kind::Type))
}

fn is_lower(s: &str) -> bool {
    s.chars().next().map_or(false, |c| c.is_lowercase())
}

fn named(s: &str) -> ArcType {
    if is_lower(s) {
        Type::generic(param(s))
    } else {
        match BuiltinType::from_str(s) {
            Ok(b) => Type::builtin(b),
            Err(()) => Type::ident(sym(s)),
        }
    }
}

struct Reader {
    tokens: Vec<Token>,
    at: usize,
    limits: Vec<usize>,
}

impl Reader {
    fn peek(&self) -> &Token {
        &self.tokens[self.at]
    }

    fn next(&mut self) -> Token {
        let token = self.tokens[self.at].clone();
        self.at += 1;
        token
    }

    fn stops(&self) -> bool {
        let token = self.peek();
        token.first && token.column <= *self.limits.last().unwrap_or(&0)
    }

    fn is(&self, text: &str) -> bool {
        let token = self.peek();
        token.text == text && !matches!(token.kind, Kind::Str(_) | Kind::Char(_))
    }

    fn skip(&mut self, text: &str) -> bool {
        let found = self.is(text);
        if found {
            self.at += 1;
        }
        found
    }

    fn expect(&mut self, text: &str) {
        assert!(self.skip(text), "expected {} at {:?}", text, self.peek());
    }

    fn within<T, F: FnOnce(&mut Reader) -> T>(&mut self, limit: usize, f: F) -> T {
        self.limits.push(limit);
        let out = f(self);
        self.limits.pop();
        out
    }

    // A name or an operator in parentheses
    fn name(&mut self) -> String {
        if self.skip("(") {
            let name = self.next().text;
            self.expect(")");
            name
        } else {
            self.next().text
        }
    }

    fn span(&self, start: u32) -> Span {
        Span::new(BytePos(start), BytePos(self.tokens[self.at - 1].end))
    }

    fn is_keyword(&self) -> bool {
        ["in", "and", "then", "else", "with", "let", "type", "if", "match"]
            .contains(&&self.peek().text[..])
    }

    fn type_atom(&mut self) -> Option<ArcType> {
        if self.stops() || self.is_keyword() {
            return None;
        }
        if self.skip("(") {
            if self.skip(")") {
                return Some(Type::unit());
            }
            let typ = self.within(0, |r| r.typ());
            self.expect(")");
            return Some(typ);
        }
        if self.skip("{") {
            let fields = self.within(0, |r| {
                let mut fields = vec![];
                while !r.is("}") {
                    let name = r.name();
                    r.expect(":");
                    fields.push(Field::new(sym(&name), r.typ()));
                    r.skip(",");
                }
                fields
            });
            self.expect("}");
            return Some(Type::record(vec![], fields));
        }
        if self.peek().kind == Kind::Name {
            let name = self.next().text;
            let mut path = vec![sym(&name)];
            while self.skip(".") {
                path.push(sym(&self.next().text));
            }
            if path.len() > 1 {
                return Some(Type::projection(path));
            }
            return Some(named(&name));
        }
        None
    }

    fn typ(&mut self) -> ArcType {
        let first = match self.type_atom() {
            Some(typ) => typ,
            None => panic!("expected a type at {:?}", self.peek()),
        };
        let mut args = vec![];
        while let Some(arg) = self.type_atom() {
            args.push(arg);
        }
        let arg = Type::app(first, args);
        if !self.stops() && self.skip("->") {
            Type::function(vec![arg], self.typ())
        } else {
            arg
        }
    }

    fn kind(&mut self) -> Arc<gluon::kind::Kind> {
        let arg = match &self.next().text[..] {
            "Type" => gluon::kind::Kind::typ(),
            "Row" => gluon::kind::Kind::row(),
            other => panic!("{}", other),
        };
        if self.skip("->") {
            gluon::kind::Kind::function(arg, self.kind())
        } else {
            arg
        }
    }

    // A parameter, which may have a kind
    fn type_param(&mut self) -> Generic {
        if self.skip("(") {
            let name = self.next().text;
            self.expect(":");
            let kind = self.kind();
            self.expect(")");
            Generic::new(sym(&name), kind)
        } else {
            Generic::new(sym(&self.next().text), gluon::kind::Kind::hole())
        }
    }

    fn type_binding(&mut self) -> TypeBinding {
        let start = self.peek().start;
        let name = self.next().text;
        let mut params = vec![];
        while !self.is("=") {
            params.push(self.type_param());
        }
        self.expect("=");
        let own = Type::app(
            Type::ident(sym(&name)),
            params.iter().map(|p| Type::generic(param(p.id.as_str()))).collect(),
        );
        let typ = if self.is("|") {
            let mut fields = vec![];
            while !self.stops() && self.skip("|") {
                let ctor = self.next().text;
                let mut args = vec![];
                while let Some(arg) = self.type_atom() {
                    args.push(arg);
                }
                fields.push(Field::new(sym(&ctor), Type::function(args, own.clone())));
            }
            Type::variant(fields)
        } else {
            self.typ()
        };
        let span = self.span(start);
        TypeBinding {
            comment: None,
            name: spanned(span, sym(&name)),
            alias: spanned(span, AliasData::new(sym(&name), params, typ.clone())),
            aliased_type: AstType { span, comment: None, before: vec![], after: vec![], typ, parts: vec![] },
            finalized_alias: None,
        }
    }

    fn pattern(&mut self) -> SpannedPattern {
        let start = self.peek().start;
        let value = if self.skip("{") {
            let mut types = vec![];
            let mut fields = vec![];
            while !self.is("}") {
                let name_start = self.peek().start;
                let name = self.name();
                let span = self.span(name_start);
                if !is_lower(&name) && name.chars().all(|c| c.is_alphanumeric()) {
                    types.push(PatternTypeField { name: spanned(span, sym(&name)), value: None });
                } else {
                    let value = if self.skip("=") { Some(self.pattern()) } else { None };
                    fields.push(PatternField { name: spanned(span, sym(&name)), value });
                }
                self.skip(",");
            }
            self.expect("}");
            Pattern::Record { typ: Type::hole(), types, fields }
        } else if self.peek().kind == Kind::Name && !is_lower(&self.peek().text) && !self.is("_") {
            let name = self.next().text;
            let mut args = vec![];
            while self.peek().kind == Kind::Name || self.is("(") {
                if self.skip("(") {
                    args.push(self.pattern());
                    self.expect(")");
                } else {
                    let arg = self.next();
                    let span = Span::new(BytePos(arg.start), BytePos(arg.end));
                    args.push(spanned(span, Pattern::Ident(ident(&arg.text))));
                }
            }
            Pattern::Constructor(ident(&name), args)
        } else {
            let name = self.name();
            Pattern::Ident(ident(&name))
        };
        spanned(self.span(start), value)
    }

    fn args(&mut self) -> Vec<SpannedIdent> {
        let mut args = vec![];
        while self.peek().kind == Kind::Name || self.is("(") {
            let start = self.peek().start;
            let name = self.name();
            args.push(spanned(self.span(start), ident(&name)));
        }
        args
    }

    fn binding(&mut self) -> ValueBinding {
        let name = self.pattern();
        let args = self.args();
        let typ = if self.skip(":") {
            let start = self.peek().start;
            let typ = self.typ();
            Some(AstType { span: self.span(start), comment: None, before: vec![], after: vec![], typ, parts: vec![] })
        } else {
            None
        };
        self.expect("=");
        ValueBinding { comment: None, name, typ, args, expr: self.expr() }
    }

    fn bindings<T, F: Fn(&mut Reader) -> T>(&mut self, f: F) -> Vec<T> {
        let column = self.next().column;
        let mut all = self.within(column, |r| vec![f(r)]);
        while self.skip("and") {
            all.push(self.within(column, &f));
        }
        self.skip("in");
        all
    }

    fn expr(&mut self) -> SpannedExpr {
        let start = self.peek().start;
        let value = if self.skip("\\") {
            let args = self.args();
            self.expect("->");
            let body = Box::new(self.expr());
            Expr::Lambda(Lambda { id: ident("lambda"), args, body })
        } else if self.is("let") {
            let bindings = self.bindings(|r| r.binding());
            Expr::LetBindings(bindings, Box::new(self.expr()))
        } else if self.is("type") {
            let bindings = self.bindings(|r| r.type_binding());
            Expr::TypeBindings(bindings, Box::new(self.expr()))
        } else if self.skip("do") {
            let id_start = self.peek().start;
            let name = self.name();
            let id = spanned(self.span(id_start), ident(&name));
            self.expect("=");
            let column = self.tokens[0].column;
            let bound = self.within(column, |r| r.expr());
            let body = Box::new(self.expr());
            Expr::Do(Do { id, bound: Box::new(bound), body })
        } else if self.skip("if") {
            let pred = self.expr();
            self.expect("then");
            let yes = self.expr();
            self.expect("else");
            let no = self.expr();
            Expr::IfElse(Box::new(pred), Box::new(yes), Box::new(no))
        } else if self.skip("match") {
            let value = self.expr();
            self.expect("with");
            let mut alts = vec![];
            while self.skip("|") {
                let pattern = self.pattern();
                self.expect("->");
                alts.push(Alternative { pattern, expr: self.expr() });
            }
            Expr::Match(Box::new(value), alts)
        } else {
            let mut lhs = self.call();
            while !self.stops() && self.peek().kind == Kind::Op {
                let op = self.next();
                let op_span = Span::new(BytePos(op.start), BytePos(op.end));
                let rhs = if self.is("\\") { self.expr() } else { self.call() };
                let span = self.span(start);
                let op = spanned(op_span, ident(&op.text));
                lhs = spanned(span, Expr::Infix(Box::new(lhs), op, Box::new(rhs)));
            }
            return lhs;
        };
        spanned(self.span(start), value)
    }

    fn call(&mut self) -> SpannedExpr {
        let start = self.peek().start;
        let f = match self.atom() {
            Some(f) => f,
            None => panic!("expected an expression at {:?}", self.peek()),
        };
        let mut args = vec![];
        while !self.stops() {
            match self.atom() {
                Some(arg) => args.push(arg),
                None => break,
            }
        }
        if args.is_empty() {
            f
        } else {
            spanned(self.span(start), Expr::App(Box::new(f), args))
        }
    }

    fn atom(&mut self) -> Option<SpannedExpr> {
        if self.is_keyword() {
            return None;
        }
        let token = self.peek().clone();
        let start = token.start;
        let literal = match token.kind.clone() {
            Kind::Int(n) => Some(Literal::Int(n)),
            Kind::Float => Some(Literal::Float(0)),
            Kind::Str(s) => Some(Literal::String(s)),
            Kind::Char(c) => Some(Literal::Char(c)),
            _ => None,
        };
        let mut expr = if let Some(literal) = literal {
            self.at += 1;
            spanned(self.span(start), Expr::Literal(literal))
        } else if token.kind == Kind::Name {
            self.at += 1;
            spanned(self.span(start), Expr::Ident(ident(&token.text)))
        } else if token.text == "(" {
            if self.tokens[self.at + 1].kind == Kind::Op {
                let name = self.name();
                spanned(self.span(start), Expr::Ident(ident(&name)))
            } else {
                self.at += 1;
                if self.skip(")") {
                    let unit = Expr::Tuple { typ: Type::hole(), elems: vec![] };
                    spanned(self.span(start), unit)
                } else {
                    let inner = self.within(0, |r| r.expr());
                    self.expect(")");
                    inner
                }
            }
        } else if token.text == "{" {
            self.at += 1;
            self.within(0, |r| r.record(start))
        } else {
            return None;
        };
        while self.skip(".") {
            let field = self.name();
            let span = self.span(start);
            expr = spanned(span, Expr::Projection(Box::new(expr), sym(&field), Type::hole()));
        }
        Some(expr)
    }

    fn record(&mut self, start: u32) -> SpannedExpr {
        let mut types = vec![];
        let mut exprs = vec![];
        let mut base = None;
        while !self.is("}") {
            if self.skip("..") {
                base = Some(Box::new(self.expr()));
                break;
            }
            let field_start = self.peek().start;
            let name = self.name();
            let field = spanned(self.span(field_start), sym(&name));
            if !is_lower(&name) && name.chars().all(|c| c.is_alphanumeric()) {
                types.push(ExprTypeField { name: field });
            } else {
                let value = if self.skip("=") { Some(self.expr()) } else { None };
                exprs.push(ExprField { name: field, value });
            }
            self.skip(",");
        }
        self.expect("}");
        spanned(self.span(start), Expr::Record { typ: Type::hole(), types, exprs, base })
    }
}

fn read(text: &str) -> SpannedExpr {
    let mut reader = Reader { tokens: tokens(text), at: 0, limits: vec![] };
    let expr = reader.expr();
    assert!(reader.peek().kind == Kind::End, "{:?}", reader.peek());
    expr
}

struct Checked {
    expr: SpannedExpr,
    typ: Option<ArcType>,
    errors: Vec<(Span, TypeError)>,
    notes: Vec<(String, ArcType)>,
}

fn typecheck(text: &str) -> Checked {
    let mut expr = read(text);
    let mut env = TypeTable::new();
    let bool_type = Type::ident(sym("Bool"));
    env.values.insert(sym("True"), bool_type.clone());
    env.values.insert(sym("False"), bool_type.clone());
    let alias = Alias::new(sym("Bool"), vec![], Type::opaque());
    env.aliases.insert(sym("Bool"), alias.as_ref().clone());
    let mut tc = Typecheck::new(sym("test"), &env, bool_type, vec![]);
    let typ = tc.typecheck_expr(&mut expr);
    let notes = tc.notes().iter().map(|n| (n.0.as_str().to_string(), n.1.clone())).collect();
    let errors = tc.errors().iter().map(|e| (e.span, copy(&e.value))).collect();
    Checked { expr, typ, errors, notes }
}

// Errors as far as the tests look at them
fn copy(error: &TypeError) -> TypeError {
    match error {
        TypeError::UndefinedVariable(id) => TypeError::UndefinedVariable(id.clone()),
        TypeError::UndefinedType(id) => TypeError::UndefinedType(id.clone()),
        TypeError::UndefinedField(t, id) => TypeError::UndefinedField(t.clone(), id.clone()),
        TypeError::DuplicateTypeDefinition(id) => TypeError::DuplicateTypeDefinition(id.clone()),
        TypeError::Rename(id, t) => TypeError::Rename(id.clone(), t.clone()),
        TypeError::KindError(kinds::Error::TypeMismatch(l, r)) => {
            TypeError::KindError(kinds::Error::TypeMismatch(l.clone(), r.clone()))
        }
        TypeError::KindError(kinds::Error::Occurs(id, kind)) => {
            TypeError::KindError(kinds::Error::Occurs(*id, kind.clone()))
        }
        TypeError::Unification(l, r, errors) => TypeError::Unification(
            l.clone(),
            r.clone(),
            errors
                .iter()
                .filter_map(|e| match e {
                    unify_type::Error::TypeMismatch(a, b) => {
                        Some(unify_type::Error::TypeMismatch(a.clone(), b.clone()))
                    }
                    _ => None,
                })
                .collect(),
        ),
        _ => TypeError::EmptyCase,
    }
}

fn typ(s: &str) -> ArcType {
    typ_a(s, vec![])
}

fn typ_a(s: &str, args: Vec<ArcType>) -> ArcType {
    let typ = match BuiltinType::from_str(s) {
        Ok(b) => Type::builtin(b),
        Err(()) if is_lower(s) => Type::generic(param(s)),
        Err(()) => Type::ident(sym(&format!("test.{}", s))),
    };
    Type::app(typ, args)
}

fn show(typ: &ArcType) -> String {
    display_type(typ).format()
}

fn assert_type(text: &str, expected: ArcType) {
    let result = typecheck(text);
    match &result.typ {
        Some(typ) => {
            assert!(typ.same(&expected), "{} is not {}", show(typ), show(&expected))
        }
        None => panic!("{:?}", result.errors.iter().map(|e| e.1.message()).collect::<Vec<_>>()),
    }
}

// `typ` without the variables in it that rows end with
fn close_record(typ: &ArcType) -> ArcType {
    match typ.as_type() {
        Type::Forall(_, inner) => close_record(inner),
        Type::Function(_, arg, ret) => Type::function(vec![close_record(arg)], close_record(ret)),
        Type::Record(row) => ArcType::new(Type::Record(close_record(row))),
        Type::ExtendRow { .. } => {
            let mut fields = vec![];
            let mut iter = row_iter(typ);
            while let Some(f) = iter.next() {
                fields.push(Field::new(f.name.clone(), f.typ.clone()));
            }
            Type::extend_row(fields, Type::empty_row())
        }
        _ => typ.clone(),
    }
}

fn assert_pass(text: &str) {
    let result = typecheck(text);
    assert!(
        result.typ.is_some(),
        "{:?}",
        result.errors.iter().map(|e| e.1.message()).collect::<Vec<_>>()
    );
}

fn only_error(text: &str) -> TypeError {
    let mut result = typecheck(text);
    assert!(result.typ.is_none());
    assert_eq!(
        result.errors.len(),
        1,
        "{:?}",
        result.errors.iter().map(|e| e.1.message()).collect::<Vec<_>>()
    );
    result.errors.remove(0).1
}

#[test]
fn typecheck_function_type_new() {
    let text = r"
\x -> x
";
    let result = typecheck(text);
    match result.typ {
        Some(typ) => assert!(matches!(typ.as_type(), Type::Function(_, _, _))),
        None => assert!(false),
    }
}

#[test]
fn typecheck_char_literal() {
    let text = r"
'a'
";
    assert_type(text, Type::char());
}

#[test]
fn typecheck_function_2_args() {
    let text = r"
\x y -> 1 #Int+ x #Int+ y
";
    assert_type(text, Type::function(vec![typ("Int"), typ("Int")], typ("Int")));
}

#[test]
fn typecheck_type_decl() {
    let text = r"
type Test = { x: Int } in { x = 0 }
";
    assert_type(text, typ("Test"));
}

#[test]
fn typecheck_type_decl_multiple() {
    let text = r"
type Test = Int -> Int
and Test2 = | Test2 Test
in Test2 (\x -> x #Int+ 2)
";
    assert_type(text, typ("Test2"));
}

#[test]
fn typecheck_record_type_simple() {
    let text = r"
type T = { y: Int } in
let f: T -> Int = \x -> x.y in { y = f { y = 123 } }
";
    assert_type(text, typ("T"));
}

#[test]
fn typecheck_let_binding_type() {
    let text = r"
let f: a -> b -> a = \x y -> x in f 1.0 ()
";
    assert_type(text, typ("Float"));
    match typecheck(text).expr.value {
        Expr::LetBindings(bindings, _) => match &bindings[0].expr.value {
            Expr::Lambda(lambda) => {
                let expected = Type::function(vec![typ("a"), typ("b")], typ("a"));
                assert!(lambda.id.typ.same(&expected), "{}", show(&lambda.id.typ));
            }
            _ => assert!(false),
        },
        _ => assert!(false),
    }
}

#[test]
fn typecheck_let_binding_recursive() {
    let text = r"
let fac x = if x #Int== 0 then 1 else x #Int* fac (x #Int- 1) in fac
";
    assert_type(text, Type::function(vec![typ("Int")], typ("Int")));
}

#[test]
fn typecheck_let_binding_mutually_recursive() {
    let text = r"
let f x = if x #Int< 0
      then x
      else g x
and g x = f (x #Int- 1)
in g 5
";
    assert_type(text, typ("Int"));
}

#[test]
fn typecheck_let_binding_general_mutually_recursive() {
    let text = r"
let test x = (1 #Int+ 2) #Int+ test2 x
and test2 x = 2 #Int+ test x
in test2 1";
    let result = typecheck(text);
    assert!(result.typ.map_or(false, |t| t.same(&typ("Int"))));
    for name in vec!["test", "test2"] {
        match result.notes.iter().find(|n| n.0 == name) {
            Some((_, bound)) => match bound.as_type() {
                Type::Function(_, arg, _) => assert!(matches!(arg.as_type(), Type::Generic(_))),
                _ => assert!(false, "{}", show(bound)),
            },
            None => assert!(false),
        }
    }
}

#[test]
fn identifiers_are_filled_with_their_types() {
    let result = typecheck("let f x = x in f 1");
    match result.expr.value {
        Expr::LetBindings(bindings, body) => {
            match &bindings[0].name.value {
                Pattern::Ident(id) => match id.typ.as_type() {
                    Type::Function(_, arg, ret) => {
                        assert!(matches!(arg.as_type(), Type::Generic(_)));
                        assert!(ret.same(arg));
                    }
                    _ => assert!(false),
                },
                _ => assert!(false),
            }
            assert!(matches!(bindings[0].args[0].value.typ.as_type(), Type::Generic(_)));
            match body.value {
                Expr::App(func, _) => match func.value {
                    Expr::Ident(id) => {
                        let expected = Type::function(vec![typ("Int")], typ("Int"));
                        assert!(id.typ.same(&expected), "{}", show(&id.typ));
                    }
                    _ => assert!(false),
                },
                _ => assert!(false),
            }
        }
        _ => assert!(false),
    }
}

#[test]
fn names_that_are_looked_up_are_filled_in() {
    // The constructor is in scope under its name in the module
    let result = typecheck("type Test = | Test Int in Test 1");
    assert!(result.typ.map_or(false, |t| t.same(&typ("Test"))));
    match result.expr.value {
        Expr::TypeBindings(_, body) => match body.value {
            Expr::App(func, _) => match func.value {
                Expr::Ident(id) => assert_eq!(id.name.as_str(), "test.Test"),
                _ => assert!(false),
            },
            _ => assert!(false),
        },
        _ => assert!(false),
    }
}

#[test]
fn a_call_is_left_at_the_first_wrong_argument() {
    // Neither the second argument nor the use of the result is reported
    let text = r#"
let f x y = (x #Int+ 1) #Int+ y
in 1.0 #Float+ f "123" "456"
"#;
    let result = typecheck(text);
    assert_eq!(result.errors.len(), 1);
    let start = text.find("\"123\"").map_or(0, |i| i as u32);
    assert_eq!(result.errors[0].0, Span::new(BytePos(start), BytePos(start + 5)));
}

#[test]
fn typecheck_primitive_error() {
    let text = r"
1 #Int== 2.2
";
    assert!(typecheck(text).typ.is_none());
}

#[test]
fn typecheck_binop_as_function() {
    let text = r"
let (+) = \x y -> x #Int+ y
in 1 + 2
";
    assert_type(text, typ("Int"));
}

#[test]
fn typecheck_adt() {
    let text = r"
type Option a = | None | Some a
in Some 1
";
    assert_type(text, typ_a("Option", vec![typ("Int")]));
}

#[test]
fn typecheck_case_constructor() {
    let text = r"
type Option a = | None | Some a
in match Some 1 with
    | Some x -> x
    | None -> 2
";
    assert_type(text, typ("Int"));
}

#[test]
fn typecheck_real_type() {
    let text = r"
type Eq a = {
    (==) : a -> a -> Bool
} in

let eq_Int: Eq Int = {
    (==) = \l r -> l #Int== r
}
in eq_Int
";
    assert_type(text, typ_a("Eq", vec![typ("Int")]));
}

#[test]
fn functor() {
    let text = r"
type Functor f = {
    map : (a -> b) -> f a -> f b
} in
type Option a = | None | Some a in
let option_Functor: Functor Option = {
    map = \f x -> match x with
                    | Some y -> Some (f y)
                    | None -> None
}
in option_Functor.map (\x -> x #Int- 1) (Some 2)
";
    assert_type(text, typ_a("Option", vec![typ("Int")]));
}

#[test]
fn typecheck_app_app_unify() {
    let text = r"
type Monad m = {
    (>>=): m a -> (a -> m b) -> m b,
    return: a -> m a
}

type Test a = | T a

let monad_Test: Monad Test = {
    (>>=) = \ta f ->
        match ta with
            | T a -> f a,
    return = \x -> T x
}

let (>>=) = monad_Test.(>>=)

let test: Test () = T 1 >>= \x -> monad_Test.return ()

test
";
    assert_type(text, typ_a("Test", vec![Type::unit()]));
}

#[test]
fn typecheck_record_missing_field() {
    let text = r"
match { x = 1 } with
| { x, y } -> 1
";
    assert!(matches!(only_error(text), TypeError::UndefinedField(..)));
}

#[test]
fn typecheck_type_alias_function() {
    let text = r"
type Fn a b = a -> b
in
let f: Fn String Int = \x -> 123
in f
";
    assert_type(text, typ_a("Fn", vec![typ("String"), typ("Int")]));
}

#[test]
fn typecheck_infer_mutually_recursive() {
    let text = r"
let id x = x
and const x = \_ -> x

let c: a -> b -> a = const
c
";
    assert_pass(text);
}

#[test]
fn typecheck_error_mutually_recursive() {
    let text = r"
let id x = x
and const x = \_ -> x
in const #Int+ 1
";
    assert!(typecheck(text).typ.is_none());
}

#[test]
fn typecheck_infer_ord_int() {
    let text = r#"
type Ordering = | LT | EQ | GT
type Ord a = {
    compare : a -> a -> Ordering
}
let ord_Int = {
    compare = \l r ->
        if l #Int< r
        then LT
        else if l #Int== r
        then EQ
        else GT
}
let make_Ord ord =
    let compare = ord.compare
    in {
        (<=) = \l r ->
            match compare l r with
                | LT -> True
                | EQ -> True
                | GT -> False
    }
let (<=) = (make_Ord ord_Int).(<=)

"" <= ""
"#;
    let result = typecheck(text);
    assert!(result.typ.is_none());
    for (_, error) in &result.errors {
        match error {
            TypeError::Unification(_, _, errors) => {
                assert_eq!(errors.len(), 2);
                assert!(matches!(errors[0], unify_type::Error::TypeMismatch(..)));
                assert!(matches!(errors[1], unify_type::Error::TypeMismatch(..)));
            }
            _ => assert!(false, "{}", error.message()),
        }
    }
}

#[test]
fn typecheck_partial_function_unify() {
    let text = r"
type Monad m = {
    (>>=) : m a -> (a -> m b) -> m b,
    return : a -> m a
} in
type State s a = s -> { value: a, state: s }
in
let (>>=) m f: State s a -> (a -> State s b) -> State s b =
    \state ->
        let { value, state } = m state
        and m2 = f value
        in m2 state
in
let return value: a -> State s a = \state -> { value, state }
in
let monad_State: Monad (State s) = { (>>=), return }
in { monad_State }
";
    assert_pass(text);
}

#[test]
fn typecheck_partial_pattern() {
    let text = r#"
let { y } = { x = 1, y = "" }
in y
"#;
    assert_type(text, typ("String"));
}

#[test]
fn typecheck_type_pattern() {
    let text = r#"
type Test = | Test String Int in { Test, x = 1 }
"#;
    let result = typecheck(text);
    let typ = match result.typ {
        Some(typ) => typ,
        None => panic!("no type"),
    };
    let test = Type::variant(vec![Field::new(
        sym("test.Test"),
        Type::function(vec![self::typ("String"), self::typ("Int")], self::typ("Test")),
    )]);
    let expected = Type::record(
        vec![TypeField { name: sym("Test"), typ: Alias::new(sym("test.Test"), vec![], test) }],
        vec![Field::new(sym("x"), self::typ("Int"))],
    );
    assert!(typ.same(&expected), "{} is not {}", show(&typ), show(&expected));
}

#[test]
fn undefined_type() {
    let text = r#"
let x =
    type Test = | Test String Int
    in { Test, x = 1 }
in
type Test2 = Test
in x
"#;
    assert!(matches!(only_error(text), TypeError::UndefinedType(..)));
}

#[test]
fn record_type_out_of_scope() {
    let text = r#"
let test =
    type Test = { x: Int }
    in let y: Test = { x = 0 }
    in y
in match test with
    | { x } -> x
"#;
    assert!(matches!(only_error(text), TypeError::Unification(..)));
}

#[test]
fn typecheck_undefined_variant() {
    let text = r#"
let x =
    type Test = | Test String Int
    { Test, x = 1 }
Test "" 2
"#;
    assert!(matches!(only_error(text), TypeError::UndefinedVariable(..)));
}

#[test]
fn typecheck_unify_variant() {
    let text = r#"
type Test a = | Test a
Test 1
"#;
    assert_type(text, typ_a("Test", vec![typ("Int")]));
}

#[test]
fn typecheck_unify_transformer() {
    let text = r#"
type Test a = | Test a
type Id a = | Id a
type IdT m a = m (Id a)
let return x: a -> IdT Test a = Test (Id x)
return 1
"#;
    assert_type(text, typ_a("IdT", vec![typ("Test"), typ("Int")]));
}

#[test]
fn typecheck_mutually_recursive_types() {
    let text = r#"
type Tree a = | Empty | Node (Data a) (Data a)
and Data a = { value: a, tree: Tree a }
in
let rhs = { value = 123, tree = Node { value = 0, tree = Empty } { value = 42, tree = Empty } }
in Node { value = 1, tree = Empty } rhs
"#;
    assert_type(text, typ_a("Tree", vec![typ("Int")]));
}

#[test]
fn typecheck_field_access_through_multiple_aliases() {
    let text = r#"
type Test1 = { x: Int }
and Test2 = Test1

let t: Test2 = { x = 1 }

t.x
"#;
    assert_type(text, typ("Int"));
}

#[test]
fn typecheck_unify_equal_hkt_aliases() {
    let text = r#"
type M a = | M a
and M2 a = M a
and HKT m = { x: m Int }
in
let eq: a -> a -> Int = \x y -> 1
and t: HKT M = { x = M 1 }
and u: HKT M2 = t
in eq t u
"#;
    assert_type(text, typ("Int"));
}

#[test]
fn typecheck_duplicate_type_definition() {
    let text = r#"
type Test = Int
in
type Test = Float
in 1
"#;
    assert!(matches!(only_error(text), TypeError::DuplicateTypeDefinition(..)));
}

#[test]
fn typecheck_type_field_mismatch() {
    let text = r#"
if True then
    type Test = Int
    { Test }
else
    type Test = Float
    { Test }
"#;
    match only_error(text) {
        TypeError::Unification(_, _, errors) => {
            assert_eq!(errors.len(), 1);
            assert!(matches!(errors[0], unify_type::Error::TypeMismatch(..)));
        }
        error => assert!(false, "{}", error.message()),
    }
}

#[test]
fn module() {
    let text = r"
type SortedList a = | Cons a (SortedList a)
                | Nil
in \(<) ->
    let empty = Nil
    let insert x xs =
        match xs with
        | Nil -> Cons x Nil
        | Cons y ys -> if x < y
                       then Cons x xs
                       else Cons y (insert x ys)
    let ret : { empty: SortedList a, insert: a -> SortedList a -> SortedList a }
        = { empty, insert }
    ret
";
    assert_pass(text);
}

#[test]
fn call_error_span() {
    let text = r#"
let f x = x #Int+ 1
in f "123"
"#;
    let result = typecheck(text);
    assert!(result.typ.is_none());
    assert_eq!(result.errors.len(), 1);
    // The argument
    let start = text.find("\"123\"").map_or(0, |i| i as u32);
    assert_eq!(result.errors[0].0, Span::new(BytePos(start), BytePos(start + 5)));
}

fn format_expr(text: &str) -> String {
    let source = Source::new(text.to_string());
    ExprPrinter::new(&source).format(100, "\n", &read(text))
}

#[test]
fn dont_add_newline_for_let_literal() {
    let expr = r#"
let x = 1
x
"#;
    assert_eq!(
        &format_expr(expr),
        r#"
let x = 1
x
"#
    );
}

#[test]
fn dont_lose_information_in_literals() {
    let expr = r#"
3.14 "\t\n\r\""
"#;
    assert_eq!(&format_expr(expr), expr);
}

#[test]
fn preserve_block_comments() {
    let expr = r#"
/* test */
let x = { field = f /* test */ 123 /* doc */ }
/* test */
x
"#;
    assert_eq!(&format_expr(expr), expr);
}

#[test]
fn preserve_shebang_line() {
    let expr = r#"#!/bin/gluon
/* test */
let x = { field = f /* test */ 123 /* doc */ }
/* test */
x
"#;
    assert_eq!(&format_expr(expr), expr);
}

#[test]
fn nested_constructor_pattern() {
    let expr = r#"
match None with
| Some (Some x) -> x
| _ -> 123
"#;
    assert_eq!(&format_expr(expr), expr);
}

#[test]
fn long_pattern_match() {
    let expr = r#"
let {
    CCCCCCCCCCCCCC,
    aaaaaaaaaaaaaaaaaaaaaaaaaaaaaaaaaaaa,
    bbbbbbbbbbbbbbbbbbbbbbbbbbbbbbbbbbbbbbbbbbbbbbbbbbbbb
} =
    test
123
"#;
    assert_eq!(&format_expr(expr), expr);
}

#[test]
fn preserve_comment_between_let_in() {
    let expr = r#"
// test1
let x = 1
// test2
type Test = Int
// test3
1
// test4
"#;
    assert_eq!(&format_expr(expr), expr);
}

#[test]
fn preserve_comments_in_record_base() {
    let expr = r#"
{
    // 123
    ..
    // abc
    test
/* x */
}
"#;
    assert_eq!(&format_expr(expr), expr);
}

#[test]
fn do_expression() {
    let expr = r#"
do /* x1 */ x /* x2 */ = Some 1
// test
test abc 1232 ""
"#;
    assert_eq!(&format_expr(expr), expr);
}

#[test]
fn multiline_string() {
    let expr = r#"
let x = "abc
        123
    "
x
"#;
    assert_eq!(&format_expr(expr), expr);
}

#[test]
fn a_record_that_extends_another() {
    assert_eq!(&format_expr("{ x = 1, .. base }"), "{ x = 1, .. base }\n");
    assert_eq!(&format_expr("{ .. base }"), "{ .. base }\n");
}

#[test]
fn preserve_doc_comments_in_record_types() {
    let text = r#"#!/bin/gluon
type Test = {
    /// test
    field1 : Int,
    /**
     middle
    */
    field2 : Float
}
x
"#;
    let mut expr = read(text);
    let documented = |typ: ArcType, comment: Option<(CommentType, &str)>, parts: Vec<AstType>| {
        AstType {
            span: Span::new(BytePos(0), BytePos(0)),
            comment: comment.map(|c| Comment { typ: c.0, content: c.1.to_string() }),
            before: vec![],
            after: vec![],
            typ,
            parts,
        }
    };
    match &mut expr.value {
        Expr::TypeBindings(bindings, _) => {
            let typ = bindings[0].aliased_type.typ.clone();
            let row = documented(
                Type::hole(),
                None,
                vec![
                    documented(Type::int_(), Some((CommentType::Line, "test")), vec![]),
                    documented(Type::float(), Some((CommentType::Block, " middle")), vec![]),
                ],
            );
            bindings[0].aliased_type = documented(typ, None, vec![row]);
        }
        _ => assert!(false),
    }
    let source = Source::new(text.to_string());
    assert_eq!(ExprPrinter::new(&source).format(100, "\n", &expr), text);
}

#[test]
fn preserve_more_block_comments() {
    let expr = r#"
{ /* abc */ field /* abc */ = /* test */ 123 }
"#;
    assert_eq!(&format_expr(expr), expr);
}

#[test]
fn overloaded_bindings() {
    let text = r#"
let (+) x y = x #Int+ y
in
let (+) x y = x #Float+ y
in
{ x = 1 + 2, y = 1.0 + 2.0 }
"#;
    assert_type(
        text,
        Type::record(
            vec![],
            vec![Field::new(sym("x"), typ("Int")), Field::new(sym("y"), typ("Float"))],
        ),
    );
}

#[test]
fn overloaded_record_binding() {
    let text = r#"
let { f } = { f = \x -> x #Int+ 1 }
in
let { f } = { f = \x -> x #Float+ 1.0 }
in
{ x = f 1, y = f 1.0 }
"#;
    assert_type(
        text,
        Type::record(
            vec![],
            vec![Field::new(sym("x"), typ("Int")), Field::new(sym("y"), typ("Float"))],
        ),
    );
}

#[test]
fn no_matching_overloaded_binding() {
    let text = r#"
let f x = x #Int+ 1
in
let f x = x #Float+ 1.0
in f ""
"#;
    assert!(matches!(only_error(text), TypeError::Rename(..)));
}

#[test]
fn not_enough_information_to_decide_overload() {
    let text = r#"
let f x = x #Int+ 1
let f x = x #Float+ 1.0
\x -> f x
"#;
    assert!(matches!(only_error(text), TypeError::Rename(..)));
}

#[test]
fn a_name_that_is_bound_again_with_the_same_type_hides() {
    assert_type("let x = 1 in let x = 2 in x", typ("Int"));
    assert_type("let f x = x in let f x = x in f 1", typ("Int"));
    // A field that stands for its name is a use
    let text = "let x = 1 in let x = 2.0 in { x, y = x #Int+ 1 }";
    assert!(matches!(only_error(text), TypeError::Rename(..)));
}

#[test]
fn mutually_recursive_types_error() {
    let text = r#"
type List a = | Empty | Node (a (Data a))
and Data a = { value: a, list: List a }
in 1
"#;
    let error = only_error(text);
    assert!(matches!(error, TypeError::KindError(kinds::Error::TypeMismatch(..))));
    assert!(error.message().starts_with("Kind mismatch\nExpected: "));
}

#[test]
fn a_type_that_is_declared_for_a_value_has_a_value() {
    let text = r#"
type Box a = { value: a }
in
let f x : Box -> Int = 1
in f
"#;
    let error = only_error(text);
    assert_eq!(error.message(), "Kind mismatch\nExpected: Type\nFound: Type -> Type");
    let text = r#"
type Wrap m = { value: m Int }
in
let f x : Wrap Int -> Int = 1
in f
"#;
    let error = only_error(text);
    assert_eq!(error.message(), "Kind mismatch\nExpected: Type -> Type\nFound: Type");
}

#[test]
fn a_parameter_that_is_applied_to_itself_has_no_kind() {
    let text = r#"
type Loop f = { value: f f }
in 1
"#;
    assert!(matches!(only_error(text), TypeError::KindError(kinds::Error::Occurs(..))));
}

#[test]
fn infer_fields() {
    let text = r#"
let f vec = vec.x #Int+ vec.y
f
"#;
    let result = typecheck(text);
    let record = Type::record(
        vec![],
        vec![Field::new(sym("x"), typ("Int")), Field::new(sym("y"), typ("Int"))],
    );
    let found = result.typ.expect("type");
    let expected = Type::function(vec![record], typ("Int"));
    assert!(close_record(&found).same(&expected), "{}", show(&found));
}

#[test]
fn infer_additional_fields() {
    let text = r#"
let f vec = vec.x #Int+ vec.y
f { x = 1, y = 2, z = 3 }
"#;
    assert_type(text, typ("Int"));
}

#[test]
fn field_access_on_record_with_type() {
    let text = r#"
type Test = Int
let record = { Test, x = 1, y = "" }
record.y
"#;
    assert_type(text, typ("String"));
}

#[test]
fn if_else_different_records() {
    let text = r#"
if True then
    { y = "" }
else
    { x = 1 }
"#;
    assert!(typecheck(text).typ.is_none());
}

#[test]
fn missing_field() {
    let text = r#"
let f vec = vec.x #Int+ vec.y
f { x = 1 }
"#;
    assert!(typecheck(text).typ.is_none());
}

#[test]
fn type_alias_with_explicit_type_kind() {
    let text = r#"
type Test (a : Type) = a
type Foo a = a
type Bar = Test Foo
()
"#;
    assert!(matches!(
        only_error(text),
        TypeError::KindError(kinds::Error::TypeMismatch(..))
    ));
}

#[test]
fn type_alias_with_explicit_function_kind() {
    let text = r#"
type Test (a : Type -> Type) = a Int
type Foo = Test Int
()
"#;
    assert!(matches!(
        only_error(text),
        TypeError::KindError(kinds::Error::TypeMismatch(..))
    ));
}

#[test]
fn undefined_type_not_in_scope() {
    let text = r#"
let x =
    type Test = | Test String Int
    in { Test, x = 1 }
in
type Test2 = Test
in x
"#;
    assert!(matches!(only_error(text), TypeError::UndefinedType(..)));
}

#[test]
fn undefined_variant() {
    let text = r#"
let x =
    type Test = | Test String Int
    { Test, x = 1 }
Test "" 2
"#;
    assert!(matches!(only_error(text), TypeError::UndefinedVariable(..)));
}

#[test]
fn unpack_type_field_which_does_not_exist() {
    let text = r#"
type Test = Int
let { Test2 } = { Test }
2
"#;
    assert!(matches!(only_error(text), TypeError::UndefinedField(..)));
}

#[test]
fn duplicate_type_definition() {
    let text = r#"
type Test = Int
in
type Test = Float
in 1
"#;
    assert!(matches!(only_error(text), TypeError::DuplicateTypeDefinition(..)));
}

#[test]
fn type_field_mismatch() {
    let text = r#"
if True then
    type Test = Int
    { Test }
else
    type Test = Float
    { Test }
"#;
    assert!(matches!(
        only_error(text),
        TypeError::Unification(_, _, errors)
            if matches!(errors[..], [unify_type::Error::TypeMismatch(..)])
    ));
}

#[test]
fn undefined_type_in_variant() {
    let text = r#"
type Test = | Test In
2
"#;
    assert!(matches!(only_error(text), TypeError::UndefinedType(..)));
}

#[test]
fn fields_in_a_pattern_are_found_by_name() {
    let text = r#"
type Point = { x: Int, y: String }
let f r =
    match r with
    | { y, x } -> y
f { x = 1, y = "" }
"#;
    assert_type(text, typ("String"));
}

#[test]
fn preserve_comments_in_empty_record() {
    let expr = r#"
{
// 123
}
"#;
    assert_eq!(&format_expr(expr), expr);
}

#[test]
fn comments_in_block_exprs() {
    let expr = r#"
// test
test 123

// test1

// test1

abc ""
// test2
"#;
    let at = |part: &str| {
        let start = expr.find(part).expect("part") as u32;
        Span::new(BytePos(start), BytePos(start + part.len() as u32))
    };
    let call = |whole: &str, name: &str, arg: &str, literal: Literal| {
        let func = spanned(at(name), Expr::Ident(ident(name.trim())));
        let args = vec![spanned(at(arg), Expr::Literal(literal))];
        spanned(at(whole), Expr::App(Box::new(func), args))
    };
    let elems = vec![
        call("test 123", "test ", "123", Literal::Int(123)),
        call("abc \"\"", "abc", "\"\"", Literal::String(String::new())),
    ];
    let span = Span::new(elems[0].span.start, elems[1].span.end);
    let source = Source::new(expr.to_string());
    let block = spanned(span, Expr::Block(elems));
    assert_eq!(&ExprPrinter::new(&source).format(100, "\n", &block), expr);
}

#[test]
fn pass_function_type_new() {
    let text = r"
\x -> x #Int+ 1
";
    assert_type(text, Type::function(vec![typ("Int")], typ("Int")));
}

#[test]
fn pass_char_literal() {
    let text = r"
'a'
";
    assert_type(text, Type::char());
}

#[test]
fn pass_function_2_args() {
    let text = r"
\x y -> 1 #Int+ x #Int+ y
";
    assert_type(text, Type::function(vec![typ("Int"), typ("Int")], typ("Int")));
}

#[test]
fn pass_let_binding_recursive() {
    let text = r"
let fac x = if x #Int== 0 then 1 else x #Int* fac (x #Int- 1) in fac
";
    assert_type(text, Type::function(vec![typ("Int")], typ("Int")));
}

#[test]
fn pass_let_binding_mutually_recursive() {
    let text = r"
let f x = if x #Int< 0
      then x
      else g x
and g x = f (x #Int- 1)
in g 5
";
    assert_type(text, typ("Int"));
}

#[test]
fn pass_primitive_error() {
    let text = r"
1 #Int== 2.2
";
    assert!(typecheck(text).typ.is_none());
}

#[test]
fn pass_binop_as_function() {
    let text = r"
let (+) = \x y -> x #Int+ y
in 1 + 2
";
    assert_type(text, typ("Int"));
}

#[test]
fn pass_adt() {
    let text = r"
type Option a = | None | Some a
in Some 1
";
    assert_type(text, typ_a("Option", vec![typ("Int")]));
}

#[test]
fn pass_case_constructor() {
    let text = r"
type Option a = | None | Some a
in match Some 1 with
    | Some x -> x
    | None -> 2
";
    assert_type(text, typ("Int"));
}

#[test]
fn pass_infer_mutually_recursive() {
    let text = r"
let id x = x
and const x = \_ -> x

let c: a -> b -> a = const
c
";
    assert_pass(text);
}

#[test]
fn pass_error_mutually_recursive() {
    let text = r"
let id x = x
and const x = \_ -> x
in const #Int+ 1
";
    assert!(typecheck(text).typ.is_none());
}

#[test]
fn pass_partial_function_unify() {
    let text = r"
type Monad m = {
    (>>=) : m a -> (a -> m b) -> m b,
    return : a -> m a
} in
type State s a = s -> { value: a, state: s }
in
let (>>=) m f: State s a -> (a -> State s b) -> State s b =
    \state ->
        let { value, state } = m state
        and m2 = f value
        in m2 state
in
let return value: a -> State s a = \state -> { value, state }
in
let monad_State: Monad (State s) = { (>>=), return }
in { monad_State }
";
    assert_pass(text);
}

#[test]
fn pass_partial_pattern() {
    let text = r#"
let { y } = { x = 1, y = "" }
in y
"#;
    assert_type(text, typ("String"));
}

#[test]
fn pass_unify_variant() {
    let text = r#"
type Test a = | Test a
Test 1
"#;
    assert_type(text, typ_a("Test", vec![typ("Int")]));
}

#[test]
fn pass_mutually_recursive_types() {
    let text = r#"
type Tree a = | Empty | Node (Data a) (Data a)
and Data a = { value: a, tree: Tree a }
in
let rhs : Data Int = {
    value = 123,
    tree = Node { value = 0, tree = Empty } { value = 42, tree = Empty }
}
in Node { value = 1, tree = Empty } rhs
"#;
    assert_type(text, typ_a("Tree", vec![typ("Int")]));
}

#[test]
fn pass_field_access_through_multiple_aliases() {
    let text = r#"
type Test1 = { x: Int }
and Test2 = Test1

let t: Test2 = { x = 1 }

t.x
"#;
    assert_type(text, typ("Int"));
}

#[test]
fn pass_unify_equal_hkt_aliases() {
    let text = r#"
type M a = | M a
and M2 a = M a
and HKT m = { x: m Int }
in
let eq: a -> a -> Int = \x y -> 1
and t: HKT M = { x = M 1 }
and u: HKT M2 = t
in eq t u
"#;
    assert_pass(text);
}

#[test]
fn functions_are_called_what_they_are_bound_to() {
    let result = typecheck("let f x = \\y -> x in f");
    assert!(result.typ.is_some());
    match &result.expr.value {
        Expr::LetBindings(bindings, _) => match &bindings[0].expr.value {
            Expr::Lambda(lambda) => {
                assert_eq!(lambda.id.name.as_str(), "f");
                assert_eq!(lambda.args[0].value.name.as_str(), "y");
            }
            _ => assert!(false),
        },
        _ => assert!(false),
    }
}
