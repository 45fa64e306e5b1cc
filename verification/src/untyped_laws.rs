//! Reading with and without the types of bindings.

use vstd::prelude::*;
use crate::lexer::{
    arrow_at, blank_end, char_at, ident_at, infix_at, reserved_op_at, word_at, Blank, Read,
};
use crate::parser::{
    accesses_at, annotation_at, arg_at, args_at, atom_at, call_at, clause_at, enclosed_at, expr_at,
    field_at, fields_at, idents_at, if_else_at, lambda_at, let_in_at, location_at, operations_at,
    parsed, record_at, simple_at, type_at, type_decl_at, IdentTree, Location, Node,
    RecordFieldTree, Tree,
};

verus! {

/// `tree` without the types that are written for its bindings.
pub open spec fn erased(tree: Tree) -> Tree
    decreases tree,
{
    match tree {
        Tree::Call(f, args) => Tree::Call(Box::new(erased_node(*f)), erased_nodes(args)),
        Tree::IfElse(pred, if_true, if_false) => Tree::IfElse(
            Box::new(erased_node(*pred)),
            Box::new(erased_node(*if_true)),
            match if_false {
                Some(if_false) => Some(Box::new(erased_node(*if_false))),
                None => None,
            },
        ),
        Tree::Block(exprs) => Tree::Block(erased_nodes(exprs)),
        Tree::BinOp(l, op, r) => Tree::BinOp(
            Box::new(erased_node(*l)),
            op,
            Box::new(erased_node(*r)),
        ),
        Tree::Let(id, bound, body) => Tree::Let(
            IdentTree { name: id.name, typ: None },
            Box::new(erased_node(*bound)),
            match body {
                Some(body) => Some(Box::new(erased_node(*body))),
                None => None,
            },
        ),
        Tree::FieldAccess(expr, field) => Tree::FieldAccess(Box::new(erased_node(*expr)), field),
        Tree::Lambda(id, free, args, body) => Tree::Lambda(
            id,
            free,
            args,
            Box::new(erased_node(*body)),
        ),
        Tree::Type(name, typ, body) => Tree::Type(name, typ, Box::new(erased_node(*body))),
        Tree::Record(id, fields) => Tree::Record(id, erased_fields(fields)),
        _ => tree,
    }
}

pub open spec fn erased_node(node: Node) -> Node
    decreases node,
{
    Node { location: node.location, value: erased(node.value) }
}

pub open spec fn erased_nodes(nodes: Seq<Node>) -> Seq<Node>
    decreases nodes,
{
    Seq::new(
        nodes.len(),
        |i: int|
            if 0 <= i < nodes.len() {
                erased_node(nodes[i])
            } else {
                arbitrary()
            },
    )
}

pub open spec fn erased_fields(fields: Seq<RecordFieldTree>) -> Seq<RecordFieldTree>
    decreases fields,
{
    Seq::new(
        fields.len(),
        |i: int|
            if 0 <= i < fields.len() {
                RecordFieldTree { name: fields[i].name, value: erased_node(fields[i].value) }
            } else {
                arbitrary()
            },
    )
}

/// The two say the same but for the types of bindings, and end at the same position.
pub open spec fn same_node(typed: Read<Node>, untyped: Read<Node>) -> bool {
    match (typed, untyped) {
        (Read::Done(a, p), Read::Done(b, q)) => p == q && b == erased_node(a),
        (Read::Empty, Read::Empty) => true,
        (Read::Failed, Read::Failed) => true,
        _ => false,
    }
}

spec fn same_tree(typed: Read<Tree>, untyped: Read<Tree>) -> bool {
    match (typed, untyped) {
        (Read::Done(a, p), Read::Done(b, q)) => p == q && b == erased(a),
        (Read::Empty, Read::Empty) => true,
        (Read::Failed, Read::Failed) => true,
        _ => false,
    }
}

spec fn same_nodes(typed: Read<Seq<Node>>, untyped: Read<Seq<Node>>) -> bool {
    match (typed, untyped) {
        (Read::Done(a, p), Read::Done(b, q)) => p == q && b == erased_nodes(a),
        (Read::Empty, Read::Empty) => true,
        (Read::Failed, Read::Failed) => true,
        _ => false,
    }
}

spec fn erased_field(field: RecordFieldTree) -> RecordFieldTree {
    RecordFieldTree { name: field.name, value: erased_node(field.value) }
}

spec fn same_field(typed: Read<RecordFieldTree>, untyped: Read<RecordFieldTree>) -> bool {
    match (typed, untyped) {
        (Read::Done(a, p), Read::Done(b, q)) => p == q && b == erased_field(a),
        (Read::Empty, Read::Empty) => true,
        (Read::Failed, Read::Failed) => true,
        _ => false,
    }
}

spec fn same_fields(
    typed: Read<Seq<RecordFieldTree>>,
    untyped: Read<Seq<RecordFieldTree>>,
) -> bool {
    match (typed, untyped) {
        (Read::Done(a, p), Read::Done(b, q)) => p == q && b == erased_fields(a),
        (Read::Empty, Read::Empty) => true,
        (Read::Failed, Read::Failed) => true,
        _ => false,
    }
}

proof fn clause_is_erased(t: Seq<char>, p: int, name: Seq<char>)
    ensures
        same_node(clause_at(t, true, p, name), clause_at(t, false, p, name)),
    decreases t.len() - p, 0nat,
{
    if let Read::Done(_, q) = word_at(t, p, name) {
        if p < q <= t.len() {
            expr_is_erased(t, q);
        }
    }
}

proof fn if_else_is_erased(t: Seq<char>, p: int)
    ensures
        same_tree(if_else_at(t, true, p), if_else_at(t, false, p)),
    decreases t.len() - p, 1nat,
{
    clause_is_erased(t, p, "if"@);
    if let Read::Done(_, q) = clause_at(t, true, p, "if"@) {
        if p < q <= t.len() {
            clause_is_erased(t, q, "then"@);
            if let Read::Done(_, r) = clause_at(t, true, q, "then"@) {
                if q < r <= t.len() {
                    clause_is_erased(t, r, "else"@);
                }
            }
        }
    }
}

proof fn let_in_is_erased(t: Seq<char>, p: int)
    ensures
        same_tree(let_in_at(t, true, p), let_in_at(t, false, p)),
    decreases t.len() - p, 1nat,
{
    if let Read::Done(_, q) = word_at(t, p, "let"@) {
        if let Read::Done(name, r) = ident_at(t, q) {
            if let Read::Done(typ, a) = annotation_at(t, r) {
                if let Read::Done(_, b) = reserved_op_at(t, a, "="@) {
                    if p < q < r <= a < b <= t.len() {
                        expr_is_erased(t, b);
                        if let Read::Done(_, c) = expr_at(t, true, b) {
                            if b < c <= t.len() {
                                clause_is_erased(t, c, "in"@);
                            }
                        }
                    }
                }
            }
        }
    }
}

proof fn lambda_is_erased(t: Seq<char>, p: int)
    ensures
        same_tree(lambda_at(t, true, p), lambda_at(t, false, p)),
    decreases t.len() - p, 1nat,
{
    if let Read::Done(_, q) = char_at(t, p, '\\') {
        if let Read::Done(args, r) = idents_at(t, q, Seq::empty()) {
            if let Read::Done(_, b) = arrow_at(t, r) {
                if p < q <= r < b <= t.len() {
                    expr_is_erased(t, b);
                }
            }
        }
    }
}

proof fn type_decl_is_erased(t: Seq<char>, p: int)
    ensures
        same_tree(type_decl_at(t, true, p), type_decl_at(t, false, p)),
    decreases t.len() - p, 1nat,
{
    if let Read::Done(_, q) = word_at(t, p, "type"@) {
        if let Read::Done(name, r) = ident_at(t, q) {
            if let Read::Done(_, a) = reserved_op_at(t, r, "="@) {
                if let Read::Done(typ, b) = type_at(t, a) {
                    if p < q < r < a < b <= t.len() {
                        clause_is_erased(t, b, "in"@);
                    }
                }
            }
        }
    }
}

proof fn field_is_erased(t: Seq<char>, p: int)
    ensures
        same_field(field_at(t, true, p), field_at(t, false, p)),
    decreases t.len() - p, 0nat,
{
    if let Read::Done(name, q) = ident_at(t, p) {
        if let Read::Done(_, r) = char_at(t, q, ':') {
            if p < q < r <= t.len() {
                expr_is_erased(t, r);
            }
        }
    }
}

proof fn fields_are_erased(t: Seq<char>, p: int, fields: Seq<RecordFieldTree>)
    ensures
        same_fields(fields_at(t, true, p, fields), fields_at(t, false, p, erased_fields(fields))),
    decreases t.len() - p, 5nat,
{
    if let Read::Done(_, q) = char_at(t, p, ',') {
        if p < q <= t.len() {
            field_is_erased(t, q);
            if let Read::Done(field, e) = field_at(t, true, q) {
                if q < e <= t.len() {
                    fields_are_erased(t, e, fields.push(field));
                    assert(erased_fields(fields.push(field)) =~= erased_fields(fields).push(
                        erased_field(field),
                    ));
                }
            }
        }
    }
}

proof fn record_is_erased(t: Seq<char>, p: int)
    ensures
        same_tree(record_at(t, true, p), record_at(t, false, p)),
    decreases t.len() - p, 1nat,
{
    assert(erased_fields(Seq::empty()) =~= Seq::empty());
    if let Read::Done(_, q) = char_at(t, p, '{') {
        if p < q <= t.len() {
            field_is_erased(t, q);
            if let Read::Done(field, e) = field_at(t, true, q) {
                if q < e <= t.len() {
                    fields_are_erased(t, e, seq![field]);
                    assert(erased_fields(seq![field]) =~= seq![erased_field(field)]);
                }
            }
        }
    }
}

/// The first of two readings that reads something.
spec fn first_read(a: Read<Tree>, b: Read<Tree>) -> Read<Tree> {
    match a {
        Read::Empty => b,
        _ => a,
    }
}

proof fn first_is_erased(a: Read<Tree>, x: Read<Tree>, b: Read<Tree>, y: Read<Tree>)
    requires
        same_tree(a, x),
        same_tree(b, y),
    ensures
        same_tree(first_read(a, b), first_read(x, y)),
{
}

proof fn simple_is_first(t: Seq<char>, typed: bool, p: int)
    ensures
        simple_at(t, typed, p) == first_read(
            if_else_at(t, typed, p),
            first_read(
                let_in_at(t, typed, p),
                first_read(
                    lambda_at(t, typed, p),
                    first_read(
                        type_decl_at(t, typed, p),
                        first_read(atom_at(t, p), record_at(t, typed, p)),
                    ),
                ),
            ),
        ),
{
}

proof fn atom_is_erased(t: Seq<char>, p: int)
    ensures
        same_tree(atom_at(t, p), atom_at(t, p)),
{
}

proof fn simple_is_erased(t: Seq<char>, p: int)
    ensures
        same_tree(simple_at(t, true, p), simple_at(t, false, p)),
    decreases t.len() - p, 2nat,
{
    if_else_is_erased(t, p);
    let_in_is_erased(t, p);
    lambda_is_erased(t, p);
    type_decl_is_erased(t, p);
    atom_is_erased(t, p);
    record_is_erased(t, p);
    parts_are_erased(
        (if_else_at(t, true, p), if_else_at(t, false, p)),
        (let_in_at(t, true, p), let_in_at(t, false, p)),
        (lambda_at(t, true, p), lambda_at(t, false, p)),
        (type_decl_at(t, true, p), type_decl_at(t, false, p)),
        (atom_at(t, p), atom_at(t, p)),
        (record_at(t, true, p), record_at(t, false, p)),
    );
    simple_is_first(t, true, p);
    simple_is_first(t, false, p);
}

proof fn parts_are_erased(
    a: (Read<Tree>, Read<Tree>),
    b: (Read<Tree>, Read<Tree>),
    c: (Read<Tree>, Read<Tree>),
    d: (Read<Tree>, Read<Tree>),
    e: (Read<Tree>, Read<Tree>),
    f: (Read<Tree>, Read<Tree>),
)
    requires
        same_tree(a.0, a.1),
        same_tree(b.0, b.1),
        same_tree(c.0, c.1),
        same_tree(d.0, d.1),
        same_tree(e.0, e.1),
        same_tree(f.0, f.1),
    ensures
        same_tree(
            first_read(
                a.0,
                first_read(b.0, first_read(c.0, first_read(d.0, first_read(e.0, f.0)))),
            ),
            first_read(
                a.1,
                first_read(b.1, first_read(c.1, first_read(d.1, first_read(e.1, f.1)))),
            ),
        ),
{
    first_is_erased(e.0, e.1, f.0, f.1);
    let (e0, e1) = (first_read(e.0, f.0), first_read(e.1, f.1));
    first_is_erased(d.0, d.1, e0, e1);
    let (d0, d1) = (first_read(d.0, e0), first_read(d.1, e1));
    first_is_erased(c.0, c.1, d0, d1);
    let (c0, c1) = (first_read(c.0, d0), first_read(c.1, d1));
    first_is_erased(b.0, b.1, c0, c1);
    first_is_erased(a.0, a.1, first_read(b.0, c0), first_read(b.1, c1));
}

proof fn enclosed_is_erased(t: Seq<char>, p: int)
    ensures
        same_node(enclosed_at(t, true, p), enclosed_at(t, false, p)),
    decreases t.len() - p, 1nat,
{
    assert(erased_nodes(Seq::empty()) =~= Seq::empty());
    if let Read::Done(_, q) = char_at(t, p, '(') {
        if p < q <= t.len() {
            expr_is_erased(t, q);
        }
    }
}

proof fn accesses_are_erased(t: Seq<char>, p: int, expr: Node, location: Location)
    ensures
        same_node(
            accesses_at(t, p, expr, location),
            accesses_at(t, p, erased_node(expr), location),
        ),
    decreases t.len() - p,
{
    if let Read::Done(_, q) = char_at(t, p, '.') {
        if let Read::Done(name, e) = ident_at(t, q) {
            if p < q < e <= t.len() {
                let next = Node {
                    location,
                    value: Tree::FieldAccess(Box::new(expr), IdentTree { name, typ: None }),
                };
                accesses_are_erased(t, e, next, location);
                assert(erased_node(next).value == Tree::FieldAccess(
                    Box::new(erased_node(expr)),
                    IdentTree { name, typ: None },
                ));
            }
        }
    }
}

proof fn arg_is_erased(t: Seq<char>, p: int)
    ensures
        same_node(arg_at(t, true, p), arg_at(t, false, p)),
    decreases t.len() - p, 3nat,
{
    let location = location_at(t, p);
    simple_is_erased(t, p);
    match simple_at(t, true, p) {
        Read::Done(tree, q) => accesses_are_erased(t, q, Node { location, value: tree }, location),
        Read::Empty => {
            enclosed_is_erased(t, p);
            if let Read::Done(expr, q) = enclosed_at(t, true, p) {
                accesses_are_erased(t, q, expr, location);
            }
        },
        Read::Failed => {},
    }
}

proof fn args_are_erased(t: Seq<char>, p: int, args: Seq<Node>)
    ensures
        same_nodes(args_at(t, true, p, args), args_at(t, false, p, erased_nodes(args))),
    decreases t.len() - p, 4nat,
{
    arg_is_erased(t, p);
    if let Read::Done(arg, q) = arg_at(t, true, p) {
        if p < q <= t.len() {
            args_are_erased(t, q, args.push(arg));
            assert(erased_nodes(args.push(arg)) =~= erased_nodes(args).push(erased_node(arg)));
        }
    }
}

proof fn call_is_erased(t: Seq<char>, p: int)
    ensures
        same_node(call_at(t, true, p), call_at(t, false, p)),
    decreases t.len() - p, 4nat,
{
    arg_is_erased(t, p);
    if let Read::Done(f, q) = arg_at(t, true, p) {
        if p < q <= t.len() {
            args_are_erased(t, q, Seq::empty());
            assert(erased_nodes(Seq::empty()) =~= Seq::empty());
        }
    }
}

proof fn operations_are_erased(t: Seq<char>, p: int, l: Node)
    ensures
        same_node(
            operations_at(t, true, p, l),
            operations_at(t, false, p, erased_node(l)),
        ),
    decreases t.len() - p, 5nat,
{
    if let Read::Done(op, q) = infix_at(t, p) {
        if p < q <= t.len() {
            call_is_erased(t, q);
            if let Read::Done(r, e) = call_at(t, true, q) {
                if q < e <= t.len() {
                    let id = IdentTree { name: op, typ: None };
                    let next = Node {
                        location: l.location,
                        value: Tree::BinOp(Box::new(l), id, Box::new(r)),
                    };
                    operations_are_erased(t, e, next);
                    assert(erased_node(next).value == Tree::BinOp(
                        Box::new(erased_node(l)),
                        id,
                        Box::new(erased_node(r)),
                    ));
                }
            }
        }
    }
}

proof fn expr_is_erased(t: Seq<char>, p: int)
    ensures
        same_node(expr_at(t, true, p), expr_at(t, false, p)),
    decreases t.len() - p, 5nat,
{
    call_is_erased(t, p);
    if let Read::Done(l, q) = call_at(t, true, p) {
        if p < q <= t.len() {
            operations_are_erased(t, q, l);
        }
    }
}

/// Whether types are kept makes no other difference: without them, the same texts are read, to the
/// same trees, but for the types that are written for bindings.
pub proof fn types_make_no_other_difference(t: Seq<char>)
    ensures
        match (parsed(t, true), parsed(t, false)) {
            (Some(typed), Some(untyped)) => untyped == erased_node(typed),
            (None, None) => true,
            _ => false,
        },
{
    if let Some(p) = blank_end(t, 0, Blank::Space) {
        expr_is_erased(t, p);
    }
}

} // verus!
