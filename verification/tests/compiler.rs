use gluon::compiler::{
    Compiler, VmAlternative, VmConstructor, VmEnum, VmExpr, VmExprKind, VmField, VmFunction,
    VmIdent, VmLiteral, VmModule, VmPattern, VmStruct, VmType,
};
use gluon::symbol::Symbol;
use std::sync::Arc;

fn sym(s: &str) -> Symbol {
    Symbol::new(s.to_string())
}

fn expr(value: VmExprKind, typ: VmType) -> VmExpr {
    VmExpr { value, typ: Arc::new(typ) }
}

fn num(i: i64) -> VmExpr {
    expr(VmExprKind::Literal(VmLiteral::Integer(i)), VmType::Int)
}

fn ident(s: &str, typ: VmType) -> VmIdent {
    VmIdent { name: sym(s), typ: Arc::new(typ) }
}

fn var(s: &str) -> VmExpr {
    expr(VmExprKind::Identifier(ident(s, VmType::Int)), VmType::Int)
}

fn code(e: &VmExpr) -> String {
    let globals = ();
    let mut compiler = Compiler::new(&globals);
    let mut out = vec![];
    compiler.compile(e, &mut out);
    format!("{:?}", out)
}

#[test]
fn operators_come_behind_their_operands() {
    let e = expr(
        VmExprKind::BinOp(Box::new(num(1)), sym("+"), Box::new(num(2))),
        VmType::Int,
    );
    assert_eq!(code(&e), "[PushInt(1), PushInt(2), AddInt]");
}

#[test]
fn branches_jump_over_each_other() {
    let yes = expr(VmExprKind::Literal(VmLiteral::Bool(true)), VmType::Bool);
    let e = expr(
        VmExprKind::IfElse(Box::new(yes), Box::new(num(1)), Box::new(num(2))),
        VmType::Int,
    );
    assert_eq!(code(&e), "[PushInt(1), CJump(4), PushInt(2), Jump(5), PushInt(1)]");
}

#[test]
fn loops_jump_back() {
    let no = expr(VmExprKind::Literal(VmLiteral::Bool(false)), VmType::Bool);
    let body = expr(VmExprKind::Block(vec![]), VmType::Unit);
    let e = expr(VmExprKind::While(Box::new(no), Box::new(body)), VmType::Unit);
    assert_eq!(code(&e), "[Jump(1), PushInt(0), CJump(1)]");
}

#[test]
fn blocks_take_their_variables_off_the_stack() {
    let bind = expr(VmExprKind::Let(ident("x", VmType::Int), Box::new(num(1))), VmType::Unit);
    let e = expr(VmExprKind::Block(vec![bind, var("x")]), VmType::Int);
    assert_eq!(code(&e), "[PushInt(1), Push(0), Slide(1)]");
}

#[test]
fn modules_are_compiled() {
    let data = || VmType::Data(sym("E"));
    let module = VmModule {
        enums: vec![VmEnum {
            name: sym("E"),
            constructors: Arc::new(vec![
                VmConstructor { name: sym("A"), arguments: vec![VmType::Int] },
                VmConstructor { name: sym("B"), arguments: vec![] },
            ]),
        }],
        structs: vec![VmStruct {
            name: sym("S"),
            fields: Arc::new(vec![
                VmField { name: sym("x"), typ: VmType::Int },
                VmField { name: sym("y"), typ: VmType::Int },
            ]),
        }],
        functions: vec![VmFunction {
            name: sym("f"),
            typ: Arc::new(VmType::Function(vec![data()], Box::new(VmType::Int))),
            arguments: vec![VmField { name: sym("e"), typ: data() }],
            expression: expr(
                VmExprKind::Match(
                    Box::new(expr(VmExprKind::Identifier(ident("e", data())), data())),
                    vec![
                        VmAlternative {
                            pattern: VmPattern::ConstructorPattern(
                                ident("B", data()),
                                vec![],
                            ),
                            expression: num(0),
                        },
                        VmAlternative {
                            pattern: VmPattern::ConstructorPattern(
                                ident("A", data()),
                                vec![ident("n", VmType::Int)],
                            ),
                            expression: num(7),
                        },
                    ],
                ),
                VmType::Int,
            ),
        }],
    };
    let mut compiler = Compiler::new(&module);
    let assembly = compiler.compile_module(&module);
    assert_eq!(assembly.functions.len(), 1);
    assert_eq!(assembly.functions[0].id.as_str(), "f");
    assert_eq!(assembly.types.len(), 2);
    assert_eq!(
        format!("{:?}", assembly.functions[0].instructions),
        "[Push(0), TestTag(1), CJump(5), TestTag(0), CJump(8), Split, PushInt(0), Jump(11), Split, \
         PushInt(7), Jump(11)]"
    );
}
