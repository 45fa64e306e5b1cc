//! What reading promises: a tree says what stands in the text, word by word.

use vstd::prelude::*;
use crate::lexer::{
    arrow_at, blank_end, char_at, digits_end, float_at, float_end, ident_at, infix_at, integer_at,
    letters_end, name_at, name_end, number, op_at, op_end, reserved_op_at, stands_at, tried,
    word_at, Blank, Read,
};
use crate::parser::{
    accesses_at, annotation_at, arg_at, args_at, atom_at, call_at, clause_at, enclosed_at, expr_at,
    field_at, fields_at, idents_at, if_else_at, lambda_at, let_in_at, named_type, operations_at,
    parsed, record_at, record_type_at, simple_at, type_arg_at, type_args_at, type_at, type_decl_at,
    type_field_at, type_fields_at, FieldTree, IdentTree, Node, Primitive, RecordFieldTree, Tree,
    TypeTree,
};

verus! {

/// A word of the language.
pub enum Word {
    /// A name, an operator or a sign
    Text(Seq<char>),
    /// A number, in any way that it can be written
    Number(i64),
    /// A parenthesis
    Paren(char),
}

/// Where `word` ends if it stands at `p`.
pub open spec fn word_end(t: Seq<char>, p: int, word: Word) -> Option<int> {
    match word {
        Word::Text(text) => if stands_at(t, p, text) {
            Some(p + text.len())
        } else {
            None
        },
        Word::Number(n) => {
            let end = digits_end(t, p);
            if p < end <= t.len() && number(t.subrange(p, end)) == n {
                Some(end)
            } else {
                None
            }
        },
        Word::Paren(c) => if (c == '(' || c == ')') && 0 <= p < t.len() && t[p] == c {
            Some(p + 1)
        } else {
            None
        },
    }
}

/// Where `words` end if they stand at `p` one behind the other. White space and comments may follow
/// each of them.
pub open spec fn words_end(t: Seq<char>, p: int, words: Seq<Word>) -> Option<int>
    decreases words.len(),
{
    if words.len() == 0 {
        Some(p)
    } else {
        match words_end(t, p, words.drop_last()) {
            None => None,
            Some(q) => match word_end(t, q, words.last()) {
                None => None,
                Some(e) => blank_end(t, e, Blank::Space),
            },
        }
    }
}

/// `words` without the parentheses.
pub open spec fn without_parens(words: Seq<Word>) -> Seq<Word>
    decreases words.len(),
{
    if words.len() == 0 {
        Seq::empty()
    } else if words.last() is Paren {
        without_parens(words.drop_last())
    } else {
        without_parens(words.drop_last()).push(words.last())
    }
}

pub open spec fn text(word: Seq<char>) -> Seq<Word> {
    seq![Word::Text(word)]
}

pub open spec fn sign(c: char) -> Seq<Word> {
    seq![Word::Text(seq![c])]
}

/// The words of a type. The unit type is an empty pair of parentheses.
pub open spec fn type_words(typ: TypeTree) -> Seq<Word>
    decreases typ, 0nat,
{
    match typ {
        TypeTree::Generic(name) => text(name),
        TypeTree::Data(name) => text(name),
        TypeTree::Builtin(Primitive::Int) => text("Int"@),
        TypeTree::Builtin(Primitive::Float) => text("Float"@),
        TypeTree::Builtin(Primitive::String) => text("String"@),
        TypeTree::Builtin(Primitive::Bool) => text("Bool"@),
        TypeTree::Builtin(Primitive::Unit) => Seq::empty(),
        TypeTree::App(l, r) => type_words(*l) + type_words(*r),
        TypeTree::Function(args, ret) => types_words(args, args.len()) + text("->"@) + type_words(
            *ret,
        ),
        TypeTree::Record(fields) => sign('{') + type_fields_words(fields, fields.len()) + sign('}'),
        TypeTree::Array(elem) => sign('[') + type_words(*elem) + sign(']'),
    }
}

pub open spec fn types_words(types: Seq<TypeTree>, n: nat) -> Seq<Word>
    decreases types, n,
{
    if n == 0 || n > types.len() {
        Seq::empty()
    } else {
        types_words(types, (n - 1) as nat) + type_words(types[n - 1])
    }
}

/// The fields of a record type, with commas between them.
pub open spec fn type_fields_words(fields: Seq<FieldTree>, n: nat) -> Seq<Word>
    decreases fields, n,
{
    if n == 0 || n > fields.len() {
        Seq::empty()
    } else {
        let field = text(fields[n - 1].name) + sign(':') + type_words(fields[n - 1].typ);
        if n == 1 {
            field
        } else {
            type_fields_words(fields, (n - 1) as nat) + sign(',') + field
        }
    }
}

pub open spec fn idents_words(idents: Seq<IdentTree>, n: nat) -> Seq<Word>
    decreases n,
{
    if n == 0 || n > idents.len() {
        Seq::empty()
    } else {
        idents_words(idents, (n - 1) as nat) + text(idents[n - 1].name)
    }
}

/// The words that `tree` is made of, in the order in which they are written.
pub open spec fn words(tree: Tree) -> Seq<Word>
    decreases tree, 0nat,
{
    match tree {
        Tree::Identifier(id) => text(id.name),
        Tree::Integer(n) => seq![Word::Number(n)],
        Tree::Float(float) => text(float),
        Tree::Bool(true) => text("True"@),
        Tree::Bool(false) => text("False"@),
        Tree::Call(f, args) => words(f.value) + all_words(args, args.len()),
        Tree::IfElse(pred, if_true, if_false) => text("if"@) + words(pred.value) + text("then"@)
            + words(if_true.value) + match if_false {
            Some(if_false) => text("else"@) + words(if_false.value),
            None => Seq::empty(),
        },
        Tree::Block(exprs) => all_words(exprs, exprs.len()),
        Tree::BinOp(l, op, r) => words(l.value) + text(op.name) + words(r.value),
        Tree::Let(id, bound, body) => text("let"@) + text(id.name) + match id.typ {
            Some(typ) => text(":"@) + type_words(typ),
            None => Seq::empty(),
        } + text("="@) + words(bound.value) + match body {
            Some(body) => text("in"@) + words(body.value),
            None => Seq::empty(),
        },
        Tree::FieldAccess(expr, field) => words(expr.value) + sign('.') + text(field.name),
        Tree::Lambda(_, _, args, body) => sign('\\') + idents_words(args, args.len()) + text(
            seq!['-', '>'],
        ) + words(body.value),
        Tree::Type(name, typ, body) => text("type"@) + text(name) + text("="@) + type_words(typ)
            + text("in"@) + words(body.value),
        Tree::Record(_, fields) => sign('{') + fields_words(fields, fields.len()) + sign('}'),
    }
}

pub open spec fn all_words(nodes: Seq<Node>, n: nat) -> Seq<Word>
    decreases nodes, n,
{
    if n == 0 || n > nodes.len() {
        Seq::empty()
    } else {
        all_words(nodes, (n - 1) as nat) + words(nodes[n - 1].value)
    }
}

/// The fields of a record, with commas between them.
pub open spec fn fields_words(fields: Seq<RecordFieldTree>, n: nat) -> Seq<Word>
    decreases fields, n,
{
    if n == 0 || n > fields.len() {
        Seq::empty()
    } else {
        let field = text(fields[n - 1].name) + sign(':') + words(fields[n - 1].value.value);
        if n == 1 {
            field
        } else {
            fields_words(fields, (n - 1) as nat) + sign(',') + field
        }
    }
}

/// `found` stands between `p` and `q`, and without parentheses it is `said`.
pub open spec fn says(t: Seq<char>, p: int, q: int, found: Seq<Word>, said: Seq<Word>) -> bool {
    words_end(t, p, found) == Some(q) && without_parens(found) == said
}

proof fn follows(t: Seq<char>, p: int, a: Seq<Word>, b: Seq<Word>)
    requires
        words_end(t, p, a) is Some,
    ensures
        words_end(t, p, a + b) == words_end(t, words_end(t, p, a)->0, b),
        without_parens(a + b) == without_parens(a) + without_parens(b),
    decreases b.len(),
{
    if b.len() == 0 {
        assert(a + b =~= a);
        assert(without_parens(a) + without_parens(b) =~= without_parens(a));
    } else {
        assert((a + b).drop_last() =~= a + b.drop_last());
        assert((a + b).last() == b.last());
        follows(t, p, a, b.drop_last());
        assert(without_parens(a + b) =~= without_parens(a) + without_parens(b));
    }
}

/// What stands next to each other is said one behind the other.
proof fn says_both(
    t: Seq<char>,
    p: int,
    q: int,
    r: int,
    a: Seq<Word>,
    b: Seq<Word>,
    x: Seq<Word>,
    y: Seq<Word>,
) -> (found: Seq<Word>)
    requires
        says(t, p, q, a, x),
        says(t, q, r, b, y),
    ensures
        says(t, p, r, found, x + y),
{
    follows(t, p, a, b);
    a + b
}

proof fn says_one(t: Seq<char>, p: int, e: int, q: int, word: Word) -> (found: Seq<Word>)
    requires
        word_end(t, p, word) == Some(e),
        blank_end(t, e, Blank::Space) == Some(q),
    ensures
        says(
            t,
            p,
            q,
            found,
            if word is Paren {
                Seq::empty()
            } else {
                seq![word]
            },
        ),
{
    let found = seq![word];
    assert(found.drop_last() =~= Seq::empty());
    assert(words_end(t, p, found.drop_last()) == Some(p));
    assert(without_parens(found.drop_last()) =~= Seq::empty());
    assert(without_parens(found) =~= if word is Paren {
        Seq::empty()
    } else {
        seq![word]
    });
    found
}

proof fn says_nothing(t: Seq<char>, p: int) -> (found: Seq<Word>)
    ensures
        says(t, p, p, found, Seq::empty()),
{
    Seq::empty()
}

proof fn word_is_said(t: Seq<char>, p: int, name: Seq<char>, q: int) -> (found: Seq<Word>)
    requires
        (word_at(t, p, name) matches Read::Done(_, e) && e == q) || (reserved_op_at(
            t,
            p,
            name,
        ) matches Read::Done(_, e) && e == q),
    ensures
        says(t, p, q, found, text(name)),
{
    reveal(word_at);
    reveal(reserved_op_at);
    says_one(t, p, p + name.len(), q, Word::Text(name))
}

proof fn char_is_said(t: Seq<char>, p: int, c: char, q: int) -> (found: Seq<Word>)
    requires
        char_at(t, p, c) matches Read::Done(_, e) && e == q,
    ensures
        says(
            t,
            p,
            q,
            found,
            if c == '(' || c == ')' {
                Seq::empty()
            } else {
                sign(c)
            },
        ),
{
    reveal(char_at);
    if c == '(' || c == ')' {
        says_one(t, p, p + 1, q, Word::Paren(c))
    } else {
        assert(t.subrange(p, p + 1) =~= seq![c]);
        says_one(t, p, p + 1, q, Word::Text(seq![c]))
    }
}

proof fn arrow_is_said(t: Seq<char>, p: int, q: int) -> (found: Seq<Word>)
    requires
        arrow_at(t, p) matches Read::Done(_, e) && e == q,
    ensures
        says(t, p, q, found, text(seq!['-', '>'])),
{
    reveal(arrow_at);
    assert(t.subrange(p, p + 2) =~= seq!['-', '>']);
    says_one(t, p, p + 2, q, Word::Text(seq!['-', '>']))
}

proof fn name_end_fits(t: Seq<char>, p: int)
    requires
        0 <= p <= t.len(),
    ensures
        p <= name_end(t, p) <= t.len(),
        p <= op_end(t, p) <= t.len(),
        p <= letters_end(t, p) <= t.len(),
        p <= digits_end(t, p) <= t.len(),
    decreases t.len() - p,
{
    if p < t.len() {
        name_end_fits(t, p + 1);
    }
}

proof fn name_is_said(t: Seq<char>, p: int, name: Seq<char>, q: int) -> (found: Seq<Word>)
    requires
        name_at(t, p) == Read::Done(name, q),
    ensures
        says(t, p, q, found, text(name)),
{
    reveal(name_at);
    name_end_fits(t, p + 1);
    says_one(t, p, name_end(t, p + 1), q, Word::Text(name))
}

proof fn op_is_said(t: Seq<char>, p: int, name: Seq<char>, q: int) -> (found: Seq<Word>)
    requires
        op_at(t, p) == Read::Done(name, q),
    ensures
        says(t, p, q, found, text(name)),
{
    reveal(op_at);
    name_end_fits(t, p + 1);
    says_one(t, p, op_end(t, p + 1), q, Word::Text(name))
}

proof fn ident_is_said(t: Seq<char>, p: int, name: Seq<char>, q: int) -> (found: Seq<Word>)
    requires
        ident_at(t, p) == Read::Done(name, q),
    ensures
        says(t, p, q, found, text(name)),
{
    reveal(ident_at);
    match tried(name_at(t, p)) {
        Read::Empty => {
            let m = match char_at(t, p, '(') {
                Read::Done(_, m) => m,
                _ => 0,
            };
            let e = match op_at(t, m) {
                Read::Done(_, e) => e,
                _ => 0,
            };
            let a = char_is_said(t, p, '(', m);
            let b = op_is_said(t, m, name, e);
            let c = char_is_said(t, e, ')', q);
            let ab = says_both(t, p, m, e, a, b, Seq::empty(), text(name));
            let abc = says_both(t, p, e, q, ab, c, Seq::empty() + text(name), Seq::empty());
            assert(Seq::<Word>::empty() + text(name) + Seq::<Word>::empty() =~= text(name));
            abc
        },
        _ => name_is_said(t, p, name, q),
    }
}

proof fn infix_is_said(t: Seq<char>, p: int, name: Seq<char>, q: int) -> (found: Seq<Word>)
    requires
        infix_at(t, p) == Read::Done(name, q),
    ensures
        says(t, p, q, found, text(name)),
{
    reveal(infix_at);
    if 0 <= p < t.len() && t[p] == '#' {
        reveal(op_at);
        name_end_fits(t, p + 1);
        let mid = letters_end(t, p + 1);
        name_end_fits(t, mid + 1);
        let end = op_end(t, mid + 1);
        assert(t.subrange(p, mid) + t.subrange(mid, end) =~= t.subrange(p, end));
        says_one(t, p, end, q, Word::Text(name))
    } else {
        op_is_said(t, p, name, q)
    }
}

proof fn atom_is_said(t: Seq<char>, p: int, tree: Tree, q: int) -> (found: Seq<Word>)
    requires
        0 <= p <= t.len(),
        atom_at(t, p) == Read::Done(tree, q),
    ensures
        says(t, p, q, found, words(tree)),
{
    if let Read::Done(n, _) = integer_at(t, p) {
        reveal(integer_at);
        name_end_fits(t, p);
        says_one(t, p, digits_end(t, p), q, Word::Number(n))
    } else if let Read::Done(float, _) = float_at(t, p) {
        reveal(float_at);
        let end = float_end(t, p)->0;
        float_fits(t, p);
        says_one(t, p, end, q, Word::Text(float))
    } else {
        match word_at(t, p, "True"@) {
            Read::Done(_, e) => word_is_said(t, p, "True"@, e),
            _ => match word_at(t, p, "False"@) {
                Read::Done(_, e) => word_is_said(t, p, "False"@, e),
                _ => match ident_at(t, p) {
                    Read::Done(name, e) => ident_is_said(t, p, name, e),
                    _ => Seq::empty(),
                },
            },
        }
    }
}

proof fn float_fits(t: Seq<char>, p: int)
    requires
        0 <= p <= t.len(),
    ensures
        float_end(t, p) matches Some(end) ==> p <= end <= t.len(),
{
    let start = crate::lexer::past(t, p, '-');
    name_end_fits(t, start);
    let whole = digits_end(t, start);
    let point = crate::lexer::past(t, whole, '.');
    name_end_fits(t, point);
    let end = digits_end(t, point);
    if end < t.len() {
        name_end_fits(t, crate::lexer::past(t, end + 1, '-'));
    }
}

proof fn type_is_said(t: Seq<char>, p: int, typ: TypeTree, q: int) -> (found: Seq<Word>)
    requires
        0 <= p <= t.len(),
        type_at(t, p) == Read::Done(typ, q),
    ensures
        says(t, p, q, found, type_words(typ)),
    decreases t.len() - p, 2nat,
{
    if let Read::Done(first, m) = type_arg_at(t, p) {
        if let Read::Done(arg, e) = type_args_at(t, m, first) {
            let a = type_arg_is_said(t, p, first, m);
            let b = type_args_are_said(t, p, m, first, arg, e, a);
            match reserved_op_at(t, e, "->"@) {
                Read::Done(_, r) => {
                    if let Read::Done(ret, end) = type_at(t, r) {
                        let c = word_is_said(t, e, "->"@, r);
                        let d = type_is_said(t, r, ret, q);
                        let bc = says_both(t, p, e, r, b, c, type_words(arg), text("->"@));
                        let bcd = says_both(
                            t,
                            p,
                            r,
                            q,
                            bc,
                            d,
                            type_words(arg) + text("->"@),
                            type_words(ret),
                        );
                        let args = seq![arg];
                        assert(types_words(args, 0) =~= Seq::<Word>::empty());
                        assert(types_words(args, 1) =~= type_words(arg));
                        assert(type_words(typ) =~= type_words(arg) + text("->"@) + type_words(ret));
                        bcd
                    } else {
                        Seq::empty()
                    }
                },
                _ => b,
            }
        } else {
            Seq::empty()
        }
    } else {
        Seq::empty()
    }
}

proof fn type_args_are_said(
    t: Seq<char>,
    start: int,
    p: int,
    first: TypeTree,
    typ: TypeTree,
    q: int,
    before: Seq<Word>,
) -> (found: Seq<Word>)
    requires
        0 <= p <= t.len(),
        says(t, start, p, before, type_words(first)),
        type_args_at(t, p, first) == Read::Done(typ, q),
    ensures
        says(t, start, q, found, type_words(typ)),
    decreases t.len() - p, 2nat,
{
    match type_arg_at(t, p) {
        Read::Done(arg, m) => {
            let a = type_arg_is_said(t, p, arg, m);
            let ab = says_both(t, start, p, m, before, a, type_words(first), type_words(arg));
            let applied = TypeTree::App(Box::new(first), Box::new(arg));
            type_args_are_said(t, start, m, applied, typ, q, ab)
        },
        _ => before,
    }
}

proof fn type_arg_is_said(t: Seq<char>, p: int, typ: TypeTree, q: int) -> (found: Seq<Word>)
    requires
        0 <= p <= t.len(),
        type_arg_at(t, p) == Read::Done(typ, q),
    ensures
        says(t, p, q, found, type_words(typ)),
    decreases t.len() - p, 1nat,
{
    match char_at(t, p, '[') {
        Read::Done(_, m) => {
            if let Read::Done(elem, e) = type_at(t, m) {
                let a = char_is_said(t, p, '[', m);
                let b = type_is_said(t, m, elem, e);
                let c = char_is_said(t, e, ']', q);
                let ab = says_both(t, p, m, e, a, b, sign('['), type_words(elem));
                says_both(t, p, e, q, ab, c, sign('[') + type_words(elem), sign(']'))
            } else {
                Seq::empty()
            }
        },
        _ => match record_type_at(t, p) {
            Read::Empty => match char_at(t, p, '(') {
                Read::Done(_, m) => match type_at(t, m) {
                    Read::Done(inner, e) => {
                        let a = char_is_said(t, p, '(', m);
                        let b = type_is_said(t, m, inner, e);
                        let c = char_is_said(t, e, ')', q);
                        let none = Seq::<Word>::empty();
                        let ab = says_both(t, p, m, e, a, b, none, type_words(inner));
                        let abc = says_both(t, p, e, q, ab, c, none + type_words(inner), none);
                        assert(none + type_words(inner) + none =~= type_words(inner));
                        abc
                    },
                    _ => {
                        let a = char_is_said(t, p, '(', m);
                        let b = char_is_said(t, m, ')', q);
                        let none = Seq::<Word>::empty();
                        let ab = says_both(t, p, m, q, a, b, none, none);
                        assert(none + none =~= none);
                        ab
                    },
                },
                _ => {
                    if let Read::Done(name, e) = tried(name_at(t, p)) {
                        assert(type_words(named_type(name)) == text(name));
                        name_is_said(t, p, name, q)
                    } else {
                        Seq::empty()
                    }
                },
            },
            _ => record_type_is_said(t, p, typ, q),
        },
    }
}

proof fn record_type_is_said(t: Seq<char>, p: int, typ: TypeTree, q: int) -> (found: Seq<Word>)
    requires
        0 <= p <= t.len(),
        record_type_at(t, p) == Read::Done(typ, q),
    ensures
        says(t, p, q, found, type_words(typ)),
    decreases t.len() - p, 0nat,
{
    if let Read::Done(_, m) = char_at(t, p, '{') {
        let a = char_is_said(t, p, '{', m);
        match type_field_at(t, m) {
            Read::Done(field, e) => {
                if let Read::Done(fields, r) = type_fields_at(t, e, seq![field]) {
                    let b = type_field_is_said(t, m, field, e);
                    let one = seq![field];
                    assert(type_fields_words(one, 1) == text(field.name) + sign(':') + type_words(
                        field.typ,
                    ));
                    let c = type_fields_are_said(t, m, e, one, fields, r, b);
                    let d = char_is_said(t, r, '}', q);
                    let all = type_fields_words(fields, fields.len());
                    let ac = says_both(t, p, m, r, a, c, sign('{'), all);
                    says_both(t, p, r, q, ac, d, sign('{') + all, sign('}'))
                } else {
                    Seq::empty()
                }
            },
            _ => {
                let b = char_is_said(t, m, '}', q);
                let ab = says_both(t, p, m, q, a, b, sign('{'), sign('}'));
                let fields = Seq::<FieldTree>::empty();
                assert(type_fields_words(fields, 0) == Seq::<Word>::empty());
                assert(typ == TypeTree::Record(fields));
                assert(type_words(typ) =~= sign('{') + sign('}'));
                ab
            },
        }
    } else {
        Seq::empty()
    }
}

proof fn type_field_is_said(t: Seq<char>, p: int, field: FieldTree, q: int) -> (found: Seq<Word>)
    requires
        0 <= p <= t.len(),
        type_field_at(t, p) == Read::Done(field, q),
    ensures
        says(t, p, q, found, text(field.name) + sign(':') + type_words(field.typ)),
    decreases t.len() - p, 0nat,
{
    if let Read::Done(name, m) = ident_at(t, p) {
        if let Read::Done(_, r) = char_at(t, m, ':') {
            let a = ident_is_said(t, p, name, m);
            let b = char_is_said(t, m, ':', r);
            let c = type_is_said(t, r, field.typ, q);
            let ab = says_both(t, p, m, r, a, b, text(name), sign(':'));
            says_both(t, p, r, q, ab, c, text(name) + sign(':'), type_words(field.typ))
        } else {
            Seq::empty()
        }
    } else {
        Seq::empty()
    }
}

proof fn same_type_fields(a: Seq<FieldTree>, b: Seq<FieldTree>, n: nat)
    requires
        n <= a.len() <= b.len(),
        forall|i: int| 0 <= i < n ==> a[i] == b[i],
    ensures
        type_fields_words(a, n) == type_fields_words(b, n),
    decreases n,
{
    if n > 0 {
        same_type_fields(a, b, (n - 1) as nat);
        assert(a[n - 1] == b[n - 1]);
    }
}

proof fn type_fields_are_said(
    t: Seq<char>,
    start: int,
    p: int,
    fields: Seq<FieldTree>,
    all: Seq<FieldTree>,
    q: int,
    before: Seq<Word>,
) -> (found: Seq<Word>)
    requires
        0 <= p <= t.len(),
        fields.len() > 0,
        says(t, start, p, before, type_fields_words(fields, fields.len())),
        type_fields_at(t, p, fields) == Read::Done(all, q),
    ensures
        says(t, start, q, found, type_fields_words(all, all.len())),
    decreases t.len() - p, 2nat,
{
    match char_at(t, p, ',') {
        Read::Done(_, m) => {
            if let Read::Done(field, e) = type_field_at(t, m) {
                let more = fields.push(field);
                let said = type_fields_words(fields, fields.len());
                let a = char_is_said(t, p, ',', m);
                let b = type_field_is_said(t, m, field, e);
                let own = text(field.name) + sign(':') + type_words(field.typ);
                let ca = says_both(t, start, p, m, before, a, said, sign(','));
                let cab = says_both(t, start, m, e, ca, b, said + sign(','), own);
                same_type_fields(fields, more, fields.len());
                assert(type_fields_words(more, more.len()) == said + sign(',') + own);
                type_fields_are_said(t, start, e, more, all, q, cab)
            } else {
                Seq::empty()
            }
        },
        _ => before,
    }
}

proof fn same_idents(a: Seq<IdentTree>, b: Seq<IdentTree>, n: nat)
    requires
        n <= a.len() <= b.len(),
        forall|i: int| 0 <= i < n ==> a[i] == b[i],
    ensures
        idents_words(a, n) == idents_words(b, n),
    decreases n,
{
    if n > 0 {
        same_idents(a, b, (n - 1) as nat);
        assert(a[n - 1] == b[n - 1]);
    }
}

proof fn idents_are_said(
    t: Seq<char>,
    start: int,
    p: int,
    idents: Seq<IdentTree>,
    all: Seq<IdentTree>,
    q: int,
    before: Seq<Word>,
) -> (found: Seq<Word>)
    requires
        0 <= p <= t.len(),
        says(t, start, p, before, idents_words(idents, idents.len())),
        idents_at(t, p, idents) == Read::Done(all, q),
    ensures
        says(t, start, q, found, idents_words(all, all.len())),
    decreases t.len() - p,
{
    match ident_at(t, p) {
        Read::Done(name, m) => {
            let more = idents.push(IdentTree { name, typ: None });
            let said = idents_words(idents, idents.len());
            let a = ident_is_said(t, p, name, m);
            let ba = says_both(t, start, p, m, before, a, said, text(name));
            same_idents(idents, more, idents.len());
            idents_are_said(t, start, m, more, all, q, ba)
        },
        _ => before,
    }
}

proof fn same_nodes(a: Seq<Node>, b: Seq<Node>, n: nat)
    requires
        n <= a.len() <= b.len(),
        forall|i: int| 0 <= i < n ==> a[i] == b[i],
    ensures
        all_words(a, n) == all_words(b, n),
    decreases n,
{
    if n > 0 {
        same_nodes(a, b, (n - 1) as nat);
        assert(a[n - 1] == b[n - 1]);
    }
}

proof fn same_fields(a: Seq<RecordFieldTree>, b: Seq<RecordFieldTree>, n: nat)
    requires
        n <= a.len() <= b.len(),
        forall|i: int| 0 <= i < n ==> a[i] == b[i],
    ensures
        fields_words(a, n) == fields_words(b, n),
    decreases n,
{
    if n > 0 {
        same_fields(a, b, (n - 1) as nat);
        assert(a[n - 1] == b[n - 1]);
    }
}

proof fn clause_is_said(t: Seq<char>, p: int, name: Seq<char>, node: Node, q: int) -> (found: Seq<
    Word,
>)
    requires
        0 <= p <= t.len(),
        clause_at(t, true, p, name) == Read::Done(node, q),
    ensures
        says(t, p, q, found, text(name) + words(node.value)),
    decreases t.len() - p, 0nat,
{
    if let Read::Done(_, m) = word_at(t, p, name) {
        let a = word_is_said(t, p, name, m);
        let b = expr_is_said(t, m, node, q);
        says_both(t, p, m, q, a, b, text(name), words(node.value))
    } else {
        Seq::empty()
    }
}

proof fn if_else_is_said(t: Seq<char>, p: int, tree: Tree, q: int) -> (found: Seq<Word>)
    requires
        0 <= p <= t.len(),
        if_else_at(t, true, p) == Read::Done(tree, q),
    ensures
        says(t, p, q, found, words(tree)),
    decreases t.len() - p, 1nat,
{
    if let Read::Done(pred, m) = clause_at(t, true, p, "if"@) {
        if let Read::Done(yes, r) = clause_at(t, true, m, "then"@) {
            if let Read::Done(no, e) = clause_at(t, true, r, "else"@) {
                let (x, y, z) = (
                    text("if"@) + words(pred.value),
                    text("then"@) + words(yes.value),
                    text("else"@) + words(no.value),
                );
                let a = clause_is_said(t, p, "if"@, pred, m);
                let b = clause_is_said(t, m, "then"@, yes, r);
                let c = clause_is_said(t, r, "else"@, no, q);
                let ab = says_both(t, p, m, r, a, b, x, y);
                let abc = says_both(t, p, r, q, ab, c, x + y, z);
                assert(words(tree) =~= x + y + z);
                abc
            } else {
                Seq::empty()
            }
        } else {
            Seq::empty()
        }
    } else {
        Seq::empty()
    }
}

proof fn annotation_is_said(t: Seq<char>, p: int, typ: Option<TypeTree>, q: int) -> (found: Seq<
    Word,
>)
    requires
        0 <= p <= t.len(),
        annotation_at(t, p) == Read::Done(typ, q),
        q <= t.len(),
        reserved_op_at(t, p, ":"@) matches Read::Done(_, m) ==> 0 <= m <= t.len(),
    ensures
        says(
            t,
            p,
            q,
            found,
            match typ {
                Some(typ) => text(":"@) + type_words(typ),
                None => Seq::empty(),
            },
        ),
{
    match reserved_op_at(t, p, ":"@) {
        Read::Done(_, m) => {
            let a = word_is_said(t, p, ":"@, m);
            let b = type_is_said(t, m, typ->0, q);
            says_both(t, p, m, q, a, b, text(":"@), type_words(typ->0))
        },
        _ => says_nothing(t, p),
    }
}

proof fn blank_fits(t: Seq<char>, p: int, blank: Blank)
    requires
        0 <= p <= t.len(),
    ensures
        blank_end(t, p, blank) matches Some(e) ==> p <= e <= t.len(),
    decreases
            t.len() - p,
            match blank {
                Blank::Space => 0nat,
                _ => 1nat,
            },
{
    match blank {
        Blank::Space => {
            if p < t.len() {
                blank_fits(t, p + 1, Blank::Space);
            }
            if p + 2 <= t.len() {
                blank_fits(t, p + 2, Blank::LineComment);
                blank_fits(t, p + 2, Blank::BlockComment);
            }
        },
        Blank::LineComment => {
            if p < t.len() {
                blank_fits(t, p + 1, Blank::LineComment);
            }
            blank_fits(t, p, Blank::Space);
        },
        Blank::BlockComment => {
            if p + 2 <= t.len() {
                blank_fits(t, p + 2, Blank::Space);
            }
            if p < t.len() {
                blank_fits(t, p + 1, Blank::BlockComment);
            }
        },
    }
}

proof fn let_in_is_said(t: Seq<char>, p: int, tree: Tree, q: int) -> (found: Seq<Word>)
    requires
        0 <= p <= t.len(),
        let_in_at(t, true, p) == Read::Done(tree, q),
    ensures
        says(t, p, q, found, words(tree)),
    decreases t.len() - p, 1nat,
{
    if let Read::Done(_, m) = word_at(t, p, "let"@) {
        if let Read::Done(name, r) = ident_at(t, m) {
            if let Read::Done(typ, a) = annotation_at(t, r) {
                if let Read::Done(_, b) = reserved_op_at(t, a, "="@) {
                    if let Read::Done(bound, c) = expr_at(t, true, b) {
                        if let Read::Done(body, e) = clause_at(t, true, c, "in"@) {
                            let said = match typ {
                                Some(typ) => text(":"@) + type_words(typ),
                                None => Seq::empty(),
                            };
                            assert(reserved_op_at(t, r, ":"@) matches Read::Done(_, z) ==> 0 <= z
                                <= t.len()) by {
                                reveal(reserved_op_at);
                                if stands_at(t, r, ":"@) {
                                    blank_fits(t, r + ":"@.len(), Blank::Space);
                                }
                            }
                            let f1 = word_is_said(t, p, "let"@, m);
                            let f2 = ident_is_said(t, m, name, r);
                            let f3 = annotation_is_said(t, r, typ, a);
                            let f4 = word_is_said(t, a, "="@, b);
                            let f5 = expr_is_said(t, b, bound, c);
                            let f6 = clause_is_said(t, c, "in"@, body, q);
                            let x1 = text("let"@);
                            let x2 = x1 + text(name);
                            let x3 = x2 + said;
                            let x4 = x3 + text("="@);
                            let x5 = x4 + words(bound.value);
                            let last = text("in"@) + words(body.value);
                            let g2 = says_both(t, p, m, r, f1, f2, x1, text(name));
                            let g3 = says_both(t, p, r, a, g2, f3, x2, said);
                            let g4 = says_both(t, p, a, b, g3, f4, x3, text("="@));
                            let g5 = says_both(t, p, b, c, g4, f5, x4, words(bound.value));
                            let g6 = says_both(t, p, c, q, g5, f6, x5, last);
                            assert(words(tree) =~= x5 + last);
                            g6
                        } else {
                            Seq::empty()
                        }
                    } else {
                        Seq::empty()
                    }
                } else {
                    Seq::empty()
                }
            } else {
                Seq::empty()
            }
        } else {
            Seq::empty()
        }
    } else {
        Seq::empty()
    }
}

proof fn lambda_is_said(t: Seq<char>, p: int, tree: Tree, q: int) -> (found: Seq<Word>)
    requires
        0 <= p <= t.len(),
        lambda_at(t, true, p) == Read::Done(tree, q),
    ensures
        says(t, p, q, found, words(tree)),
    decreases t.len() - p, 1nat,
{
    if let Read::Done(_, m) = char_at(t, p, '\\') {
        if let Read::Done(args, r) = idents_at(t, m, Seq::empty()) {
            if let Read::Done(_, b) = arrow_at(t, r) {
                if let Read::Done(body, e) = expr_at(t, true, b) {
                    let none = says_nothing(t, m);
                    let f1 = char_is_said(t, p, '\\', m);
                    let f2 = idents_are_said(t, m, m, Seq::empty(), args, r, none);
                    let f3 = arrow_is_said(t, r, b);
                    let f4 = expr_is_said(t, b, body, q);
                    let x1 = sign('\\');
                    let x2 = x1 + idents_words(args, args.len());
                    let x3 = x2 + text(seq!['-', '>']);
                    let g2 = says_both(t, p, m, r, f1, f2, x1, idents_words(args, args.len()));
                    let g3 = says_both(t, p, r, b, g2, f3, x2, text(seq!['-', '>']));
                    says_both(t, p, b, q, g3, f4, x3, words(body.value))
                } else {
                    Seq::empty()
                }
            } else {
                Seq::empty()
            }
        } else {
            Seq::empty()
        }
    } else {
        Seq::empty()
    }
}

proof fn type_decl_is_said(t: Seq<char>, p: int, tree: Tree, q: int) -> (found: Seq<Word>)
    requires
        0 <= p <= t.len(),
        type_decl_at(t, true, p) == Read::Done(tree, q),
    ensures
        says(t, p, q, found, words(tree)),
    decreases t.len() - p, 1nat,
{
    if let Read::Done(_, m) = word_at(t, p, "type"@) {
        if let Read::Done(name, r) = ident_at(t, m) {
            if let Read::Done(_, a) = reserved_op_at(t, r, "="@) {
                if let Read::Done(typ, b) = type_at(t, a) {
                    if let Read::Done(body, e) = clause_at(t, true, b, "in"@) {
                        let f1 = word_is_said(t, p, "type"@, m);
                        let f2 = ident_is_said(t, m, name, r);
                        let f3 = word_is_said(t, r, "="@, a);
                        let f4 = type_is_said(t, a, typ, b);
                        let f5 = clause_is_said(t, b, "in"@, body, q);
                        let x1 = text("type"@);
                        let x2 = x1 + text(name);
                        let x3 = x2 + text("="@);
                        let x4 = x3 + type_words(typ);
                        let last = text("in"@) + words(body.value);
                        let g2 = says_both(t, p, m, r, f1, f2, x1, text(name));
                        let g3 = says_both(t, p, r, a, g2, f3, x2, text("="@));
                        let g4 = says_both(t, p, a, b, g3, f4, x3, type_words(typ));
                        let g5 = says_both(t, p, b, q, g4, f5, x4, last);
                        assert(words(tree) =~= x4 + last);
                        g5
                    } else {
                        Seq::empty()
                    }
                } else {
                    Seq::empty()
                }
            } else {
                Seq::empty()
            }
        } else {
            Seq::empty()
        }
    } else {
        Seq::empty()
    }
}

proof fn record_is_said(t: Seq<char>, p: int, tree: Tree, q: int) -> (found: Seq<Word>)
    requires
        0 <= p <= t.len(),
        record_at(t, true, p) == Read::Done(tree, q),
    ensures
        says(t, p, q, found, words(tree)),
    decreases t.len() - p, 1nat,
{
    if let Read::Done(_, m) = char_at(t, p, '{') {
        let a = char_is_said(t, p, '{', m);
        match field_at(t, true, m) {
            Read::Done(field, e) => {
                if let Read::Done(fields, r) = fields_at(t, true, e, seq![field]) {
                    let b = field_is_said(t, m, field, e);
                    let one = seq![field];
                    assert(fields_words(one, 1) == text(field.name) + sign(':') + words(
                        field.value.value,
                    ));
                    let c = fields_are_said(t, m, e, one, fields, r, b);
                    let d = char_is_said(t, r, '}', q);
                    let all = fields_words(fields, fields.len());
                    let ac = says_both(t, p, m, r, a, c, sign('{'), all);
                    says_both(t, p, r, q, ac, d, sign('{') + all, sign('}'))
                } else {
                    Seq::empty()
                }
            },
            _ => {
                let b = char_is_said(t, m, '}', q);
                let ab = says_both(t, p, m, q, a, b, sign('{'), sign('}'));
                assert(fields_words(Seq::<RecordFieldTree>::empty(), 0) == Seq::<Word>::empty());
                assert(words(tree) =~= sign('{') + sign('}'));
                ab
            },
        }
    } else {
        Seq::empty()
    }
}

proof fn field_is_said(t: Seq<char>, p: int, field: RecordFieldTree, q: int) -> (found: Seq<Word>)
    requires
        0 <= p <= t.len(),
        field_at(t, true, p) == Read::Done(field, q),
    ensures
        says(t, p, q, found, text(field.name) + sign(':') + words(field.value.value)),
    decreases t.len() - p, 0nat,
{
    if let Read::Done(name, m) = ident_at(t, p) {
        if let Read::Done(_, r) = char_at(t, m, ':') {
            let a = ident_is_said(t, p, name, m);
            let b = char_is_said(t, m, ':', r);
            let c = expr_is_said(t, r, field.value, q);
            let ab = says_both(t, p, m, r, a, b, text(name), sign(':'));
            says_both(t, p, r, q, ab, c, text(name) + sign(':'), words(field.value.value))
        } else {
            Seq::empty()
        }
    } else {
        Seq::empty()
    }
}

proof fn fields_are_said(
    t: Seq<char>,
    start: int,
    p: int,
    fields: Seq<RecordFieldTree>,
    all: Seq<RecordFieldTree>,
    q: int,
    before: Seq<Word>,
) -> (found: Seq<Word>)
    requires
        0 <= p <= t.len(),
        fields.len() > 0,
        says(t, start, p, before, fields_words(fields, fields.len())),
        fields_at(t, true, p, fields) == Read::Done(all, q),
    ensures
        says(t, start, q, found, fields_words(all, all.len())),
    decreases t.len() - p, 5nat,
{
    match char_at(t, p, ',') {
        Read::Done(_, m) => {
            if let Read::Done(field, e) = field_at(t, true, m) {
                let more = fields.push(field);
                let said = fields_words(fields, fields.len());
                let a = char_is_said(t, p, ',', m);
                let b = field_is_said(t, m, field, e);
                let own = text(field.name) + sign(':') + words(field.value.value);
                let ca = says_both(t, start, p, m, before, a, said, sign(','));
                let cab = says_both(t, start, m, e, ca, b, said + sign(','), own);
                same_fields(fields, more, fields.len());
                assert(fields_words(more, more.len()) == said + sign(',') + own);
                fields_are_said(t, start, e, more, all, q, cab)
            } else {
                Seq::empty()
            }
        },
        _ => before,
    }
}

proof fn simple_is_said(t: Seq<char>, p: int, tree: Tree, q: int) -> (found: Seq<Word>)
    requires
        0 <= p <= t.len(),
        simple_at(t, true, p) == Read::Done(tree, q),
    ensures
        says(t, p, q, found, words(tree)),
    decreases t.len() - p, 2nat,
{
    match if_else_at(t, true, p) {
        Read::Empty => match let_in_at(t, true, p) {
            Read::Empty => match lambda_at(t, true, p) {
                Read::Empty => match type_decl_at(t, true, p) {
                    Read::Empty => match atom_at(t, p) {
                        Read::Empty => record_is_said(t, p, tree, q),
                        _ => atom_is_said(t, p, tree, q),
                    },
                    _ => type_decl_is_said(t, p, tree, q),
                },
                _ => lambda_is_said(t, p, tree, q),
            },
            _ => let_in_is_said(t, p, tree, q),
        },
        _ => if_else_is_said(t, p, tree, q),
    }
}

proof fn enclosed_is_said(t: Seq<char>, p: int, node: Node, q: int) -> (found: Seq<Word>)
    requires
        0 <= p <= t.len(),
        enclosed_at(t, true, p) == Read::Done(node, q),
    ensures
        says(t, p, q, found, words(node.value)),
    decreases t.len() - p, 1nat,
{
    let none = Seq::<Word>::empty();
    if let Read::Done(_, m) = char_at(t, p, '(') {
        let a = char_is_said(t, p, '(', m);
        match expr_at(t, true, m) {
            Read::Done(inner, e) => {
                let b = expr_is_said(t, m, inner, e);
                let c = char_is_said(t, e, ')', q);
                let said = words(inner.value);
                let ab = says_both(t, p, m, e, a, b, none, said);
                let abc = says_both(t, p, e, q, ab, c, none + said, none);
                assert(none + said + none =~= said);
                abc
            },
            _ => {
                let b = char_is_said(t, m, ')', q);
                let ab = says_both(t, p, m, q, a, b, none, none);
                assert(none + none =~= none);
                assert(all_words(Seq::<Node>::empty(), 0) == none);
                assert(node.value == Tree::Block(Seq::empty()));
                assert(words(node.value) =~= none);
                ab
            },
        }
    } else {
        none
    }
}

proof fn accesses_are_said(
    t: Seq<char>,
    start: int,
    p: int,
    expr: Node,
    location: crate::parser::Location,
    node: Node,
    q: int,
    before: Seq<Word>,
) -> (found: Seq<Word>)
    requires
        0 <= p <= t.len(),
        says(t, start, p, before, words(expr.value)),
        accesses_at(t, p, expr, location) == Read::Done(node, q),
    ensures
        says(t, start, q, found, words(node.value)),
    decreases t.len() - p,
{
    match char_at(t, p, '.') {
        Read::Done(_, m) => {
            if let Read::Done(name, e) = ident_at(t, m) {
                let next = Node {
                    location,
                    value: Tree::FieldAccess(Box::new(expr), IdentTree { name, typ: None }),
                };
                let said = words(expr.value);
                let a = char_is_said(t, p, '.', m);
                let b = ident_is_said(t, m, name, e);
                let ca = says_both(t, start, p, m, before, a, said, sign('.'));
                let cab = says_both(t, start, m, e, ca, b, said + sign('.'), text(name));
                accesses_are_said(t, start, e, next, location, node, q, cab)
            } else {
                Seq::empty()
            }
        },
        _ => before,
    }
}

proof fn arg_is_said(t: Seq<char>, p: int, node: Node, q: int) -> (found: Seq<Word>)
    requires
        0 <= p <= t.len(),
        arg_at(t, true, p) == Read::Done(node, q),
    ensures
        says(t, p, q, found, words(node.value)),
    decreases t.len() - p, 3nat,
{
    let location = crate::parser::location_at(t, p);
    match simple_at(t, true, p) {
        Read::Done(tree, m) => {
            let first = Node { location, value: tree };
            let a = simple_is_said(t, p, tree, m);
            reading_goes_on(t, p, m, a);
            accesses_are_said(t, p, m, first, location, node, q, a)
        },
        _ => {
            if let Read::Done(first, m) = enclosed_at(t, true, p) {
                let a = enclosed_is_said(t, p, first, m);
                reading_goes_on(t, p, m, a);
                accesses_are_said(t, p, m, first, location, node, q, a)
            } else {
                Seq::empty()
            }
        },
    }
}

/// Words end in the text, behind where they begin.
proof fn reading_goes_on(t: Seq<char>, p: int, q: int, found: Seq<Word>)
    requires
        0 <= p <= t.len(),
        words_end(t, p, found) == Some(q),
    ensures
        p <= q <= t.len(),
    decreases found.len(),
{
    if found.len() > 0 {
        let m = words_end(t, p, found.drop_last())->0;
        reading_goes_on(t, p, m, found.drop_last());
        name_end_fits(t, m);
        blank_fits(t, word_end(t, m, found.last())->0, Blank::Space);
    }
}

proof fn args_are_said(
    t: Seq<char>,
    start: int,
    p: int,
    args: Seq<Node>,
    all: Seq<Node>,
    q: int,
    before: Seq<Word>,
) -> (found: Seq<Word>)
    requires
        0 <= p <= t.len(),
        says(t, start, p, before, all_words(args, args.len())),
        args_at(t, true, p, args) == Read::Done(all, q),
    ensures
        says(t, start, q, found, all_words(all, all.len())),
    decreases t.len() - p, 4nat,
{
    match arg_at(t, true, p) {
        Read::Done(arg, m) => {
            let more = args.push(arg);
            let said = all_words(args, args.len());
            let a = arg_is_said(t, p, arg, m);
            let ba = says_both(t, start, p, m, before, a, said, words(arg.value));
            same_nodes(args, more, args.len());
            args_are_said(t, start, m, more, all, q, ba)
        },
        _ => before,
    }
}

proof fn call_is_said(t: Seq<char>, p: int, node: Node, q: int) -> (found: Seq<Word>)
    requires
        0 <= p <= t.len(),
        call_at(t, true, p) == Read::Done(node, q),
    ensures
        says(t, p, q, found, words(node.value)),
    decreases t.len() - p, 4nat,
{
    if let Read::Done(f, m) = arg_at(t, true, p) {
        if let Read::Done(args, e) = args_at(t, true, m, Seq::empty()) {
            let none = says_nothing(t, m);
            let a = arg_is_said(t, p, f, m);
            let b = args_are_said(t, m, m, Seq::empty(), args, e, none);
            let all = all_words(args, args.len());
            let ab = says_both(t, p, m, e, a, b, words(f.value), all);
            if args.len() == 0 {
                assert(words(f.value) + all =~= words(f.value));
            }
            ab
        } else {
            Seq::empty()
        }
    } else {
        Seq::empty()
    }
}

proof fn operations_are_said(
    t: Seq<char>,
    start: int,
    p: int,
    l: Node,
    node: Node,
    q: int,
    before: Seq<Word>,
) -> (found: Seq<Word>)
    requires
        0 <= p <= t.len(),
        says(t, start, p, before, words(l.value)),
        operations_at(t, true, p, l) == Read::Done(node, q),
    ensures
        says(t, start, q, found, words(node.value)),
    decreases t.len() - p, 5nat,
{
    match infix_at(t, p) {
        Read::Done(op, m) => {
            if let Read::Done(r, e) = call_at(t, true, m) {
                let next = Node {
                    location: l.location,
                    value: Tree::BinOp(Box::new(l), IdentTree { name: op, typ: None }, Box::new(r)),
                };
                let said = words(l.value);
                let a = infix_is_said(t, p, op, m);
                let b = call_is_said(t, m, r, e);
                let ca = says_both(t, start, p, m, before, a, said, text(op));
                let cab = says_both(t, start, m, e, ca, b, said + text(op), words(r.value));
                operations_are_said(t, start, e, next, node, q, cab)
            } else {
                Seq::empty()
            }
        },
        _ => before,
    }
}

proof fn expr_is_said(t: Seq<char>, p: int, node: Node, q: int) -> (found: Seq<Word>)
    requires
        0 <= p <= t.len(),
        expr_at(t, true, p) == Read::Done(node, q),
    ensures
        says(t, p, q, found, words(node.value)),
    decreases t.len() - p, 5nat,
{
    if let Read::Done(l, m) = call_at(t, true, p) {
        let a = call_is_said(t, p, l, m);
        operations_are_said(t, p, m, l, node, q, a)
    } else {
        Seq::empty()
    }
}

/// Reading loses and makes up nothing: the words of the tree that is read, in order, are the words
/// that the text begins with. Parentheses, white space and comments aside.
pub proof fn tree_says_what_is_written(t: Seq<char>, node: Node) -> (found: Seq<Word>)
    requires
        parsed(t, true) == Some(node),
    ensures
        blank_end(t, 0, Blank::Space) is Some,
        words_end(t, blank_end(t, 0, Blank::Space)->0, found) is Some,
        without_parens(found) == words(node.value),
{
    let p = blank_end(t, 0, Blank::Space)->0;
    blank_fits(t, 0, Blank::Space);
    if let Read::Done(_, q) = expr_at(t, true, p) {
        expr_is_said(t, p, node, q)
    } else {
        Seq::empty()
    }
}

/// `node` is an operation on `first`, or one whose left operand is, and so on; or `first` itself.
pub open spec fn begins_with(node: Node, first: Node) -> bool
    decreases node,
{
    node == first || (node.value matches Tree::BinOp(l, _, _) && begins_with(*l, first))
}

proof fn begins_further(node: Node, next: Node, first: Node)
    requires
        begins_with(node, next),
        begins_with(next, first),
    ensures
        begins_with(node, first),
    decreases node,
{
    if node != next {
        if let Tree::BinOp(l, _, _) = node.value {
            begins_further(*l, next, first);
        }
    }
}

proof fn operations_lean_left(t: Seq<char>, typed: bool, p: int, l: Node, node: Node, q: int) -> (at: (
    int,
    int,
))
    requires
        operations_at(t, typed, p, l) == Read::Done(node, q),
    ensures
        begins_with(node, l),
        (node == l && q == p) || (node.value matches Tree::BinOp(_, op, r) && infix_at(t, at.0)
            == Read::Done(op.name, at.1) && call_at(t, typed, at.1) == Read::Done(*r, q)),
    decreases t.len() - p,
{
    match infix_at(t, p) {
        Read::Done(op, m) => {
            if let Read::Done(r, e) = call_at(t, typed, m) {
                let next = Node {
                    location: l.location,
                    value: Tree::BinOp(Box::new(l), IdentTree { name: op, typ: None }, Box::new(r)),
                };
                assert(begins_with(l, l));
                assert(begins_with(next, l));
                let at = operations_lean_left(t, typed, e, next, node, q);
                begins_further(node, next, l);
                if node == next && q == e {
                    (p, m)
                } else {
                    at
                }
            } else {
                (0, 0)
            }
        },
        _ => (0, 0),
    }
}

/// Operators associate to the left: an expression begins with the call that it is read from first,
/// as the left operand of its left operands. If there is an operator, the right operand of the last
/// one is a call by itself, which ends where the expression does.
pub proof fn operators_associate_to_the_left(
    t: Seq<char>,
    typed: bool,
    p: int,
    node: Node,
    q: int,
) -> (at: (int, int))
    requires
        expr_at(t, typed, p) == Read::Done(node, q),
    ensures
        call_at(t, typed, p) matches Read::Done(first, m) && begins_with(node, first) && ((node
            == first && q == m) || (node.value matches Tree::BinOp(_, op, r) && infix_at(t, at.0)
            == Read::Done(op.name, at.1) && call_at(t, typed, at.1) == Read::Done(*r, q))),
{
    if let Read::Done(first, m) = call_at(t, typed, p) {
        operations_lean_left(t, typed, m, first, node, q)
    } else {
        (0, 0)
    }
}

} // verus!
