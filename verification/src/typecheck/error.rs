//! The messages for errors in types.

use vstd::prelude::*;
use crate::kind::Kind;
use crate::symbol::Symbol;
use crate::text::{decimal, decimal_string, join};
use crate::typecheck::kinds;
use crate::typecheck::state::TypeError;
use crate::types::display::{pretty_print, printable, type_text, Printer};
use crate::types::{symbols_view, ArcType};
use crate::unify_type;

verus! {

/// The types in the error can be printed.
pub open spec fn unify_printable(error: unify_type::Error) -> bool {
    match error {
        unify_type::Error::TypeMismatch(l, r) => printable(l@) && printable(r@),
        unify_type::Error::Occurs(_, typ) => printable(typ@),
        unify_type::Error::Other(error) => error.printable(),
    }
}

/// The message for an error of unification.
pub open spec fn unify_text(error: unify_type::Error, printer: &Printer) -> Seq<char> {
    match error {
        unify_type::Error::TypeMismatch(l, r) => "Types do not match:\n\tExpected: "@ + type_text(
            printer,
            l@,
            80,
        ) + "\n\tFound: "@ + type_text(printer, r@, 80),
        unify_type::Error::Occurs(var, typ) => "Variable `"@ + decimal(var.id as nat)
            + "` occurs in `"@ + type_text(printer, typ@, 80) + "`."@,
        unify_type::Error::Other(error) => error.text(printer),
    }
}

/// The messages for the first `n` of `errors`, each in lines of its own.
pub open spec fn unify_texts(errors: Seq<unify_type::Error>, printer: &Printer, n: nat) -> Seq<char>
    decreases n,
{
    if n == 0 || n > errors.len() {
        Seq::empty()
    } else if n == 1 {
        unify_text(errors[0], printer)
    } else {
        unify_texts(errors, printer, (n - 1) as nat) + "\n"@ + unify_text(errors[n - 1], printer)
    }
}

/// The text of `kind`. An argument that is a function stands in parentheses.
pub open spec fn kind_text(kind: Kind) -> Seq<char>
    decreases kind,
{
    match kind {
        Kind::Type => "Type"@,
        Kind::Row => "Row"@,
        Kind::Hole => "_"@,
        Kind::Error => "!"@,
        Kind::Variable(id) => decimal(id as nat),
        Kind::Function(arg, ret) => (if *arg is Function {
            "("@ + kind_text(*arg) + ")"@
        } else {
            kind_text(*arg)
        }) + " -> "@ + kind_text(*ret),
    }
}

/// The message for an error of kinds.
pub open spec fn kind_error_text(error: kinds::Error) -> Seq<char> {
    match error {
        kinds::Error::TypeMismatch(expected, actual) => "Kind mismatch\nExpected: "@ + kind_text(
            *expected,
        ) + "\nFound: "@ + kind_text(*actual),
        kinds::Error::Occurs(var, kind) => "Variable `"@ + decimal(var as nat) + "` occurs in `"@
            + kind_text(*kind) + "`."@,
    }
}

/// The text of `kind`.
fn kind_string(kind: &Kind) -> (res: String)
    ensures
        res@ == kind_text(*kind),
    decreases kind,
{
    match kind {
        Kind::Type => "Type".to_owned(),
        Kind::Row => "Row".to_owned(),
        Kind::Hole => "_".to_owned(),
        Kind::Error => "!".to_owned(),
        Kind::Variable(id) => decimal_string(*id as u64),
        Kind::Function(arg, ret) => {
            let mut res = match &**arg {
                Kind::Function(_, _) => around("(", kind_string(arg).as_str(), ")"),
                _ => kind_string(arg),
            };
            res.append(" -> ");
            res.append(kind_string(ret).as_str());
            res
        },
    }
}

/// The message for an error of kinds.
fn kind_error_string(error: &kinds::Error) -> (res: String)
    ensures
        res@ == kind_error_text(*error),
{
    match error {
        kinds::Error::TypeMismatch(expected, actual) => {
            let mut res = around(
                "Kind mismatch\nExpected: ",
                kind_string(expected).as_str(),
                "\nFound: ",
            );
            res.append(kind_string(actual).as_str());
            res
        },
        kinds::Error::Occurs(var, kind) => {
            let mut res = around(
                "Variable `",
                decimal_string(*var as u64).as_str(),
                "` occurs in `",
            );
            res.append(kind_string(kind).as_str());
            res.append("`.");
            res
        },
    }
}

/// `names` with commas between them.
pub open spec fn listed(names: Seq<Seq<char>>, n: nat) -> Seq<char>
    decreases n,
{
    if n == 0 || n > names.len() {
        Seq::empty()
    } else if n == 1 {
        names[0]
    } else {
        listed(names, (n - 1) as nat) + ", "@ + names[n - 1]
    }
}

impl TypeError {
    /// The types in the error can be printed.
    pub open spec fn printable(&self) -> bool {
        match self {
            TypeError::NotAFunction(typ) => printable(typ@),
            TypeError::UndefinedField(typ, _) => printable(typ@),
            TypeError::PatternError(typ, _) => printable(typ@),
            TypeError::Unification(l, r, errors) => printable(l@) && printable(r@) && forall|i: int|
                0 <= i < errors@.len() ==> unify_printable(#[trigger] errors@[i]),
            TypeError::InvalidFieldAccess(typ) => printable(typ@),
            TypeError::Rename(_, typ) => printable(typ@),
            TypeError::UndefinedRecord { fields } => fields@.len() > 0,
            _ => true,
        }
    }

    /// The message for the error, with the types printed by `printer`.
    pub open spec fn text(&self, printer: &Printer) -> Seq<char> {
        match self {
            TypeError::UndefinedVariable(name) => "Undefined variable `"@ + name@ + "`"@,
            TypeError::NotAFunction(typ) => "`"@ + type_text(printer, typ@, 80)
                + "` is not a function"@,
            TypeError::UndefinedType(name) => "Type `"@ + name@ + "` is not defined"@,
            TypeError::UndefinedField(typ, field) => "Type `"@ + type_text(printer, typ@, 80)
                + "` does not have the field `"@ + field@ + "`"@,
            TypeError::Unification(expected, actual, errors) => {
                "Expected the following types to be equal\nExpected: "@ + type_text(
                    printer,
                    expected@,
                    80,
                ) + "\nFound: "@ + type_text(printer, actual@, 80) + "\n"@ + decimal(
                    errors@.len(),
                ) + " errors were found during unification:\n"@ + unify_texts(
                    errors@,
                    printer,
                    errors@.len(),
                )
            },
            TypeError::PatternError(typ, expected_len) => "Type "@ + type_text(printer, typ@, 80)
                + " has "@ + decimal(*expected_len as nat) + " to few arguments"@,
            TypeError::DuplicateTypeDefinition(id) => "Type '"@ + id@
                + "' has been already been defined in this module"@,
            TypeError::InvalidFieldAccess(typ) => "Type '"@ + type_text(printer, typ@, 80)
                + "' is not a type which allows field accesses"@,
            TypeError::UndefinedRecord { fields } => {
                "No type found with the following fields: "@ + listed(
                    symbols_view(fields@),
                    fields@.len(),
                )
            },
            TypeError::Rename(id, typ) => "Could not resolve a binding for `"@ + id@
                + "` with type `"@ + type_text(printer, typ@, 80) + "`"@,
            TypeError::KindError(error) => kind_error_text(*error),
            TypeError::EmptyCase => "`case` expression with no alternatives"@,
        }
    }

    /// The message for the error.
    pub fn message(&self) -> (res: String)
        requires
            self.printable(),
        ensures
            exists|printer: Printer| #[trigger] printer.keeps_all() && res@ == self.text(&printer),
    {
        let printer = Printer::new();
        assert(printer.keeps_all());
        match self {
            TypeError::UndefinedVariable(name) => around("Undefined variable `", name.as_str(), "`"),
            TypeError::NotAFunction(typ) => around(
                "`",
                type_string(typ, &printer).as_str(),
                "` is not a function",
            ),
            TypeError::UndefinedType(name) => around("Type `", name.as_str(), "` is not defined"),
            TypeError::UndefinedField(typ, field) => {
                let mut res = around(
                    "Type `",
                    type_string(typ, &printer).as_str(),
                    "` does not have the field `",
                );
                res.append(field.as_str());
                res.append("`");
                res
            },
            TypeError::Unification(expected, actual, errors) => {
                let mut res = around(
                    "Expected the following types to be equal\nExpected: ",
                    type_string(expected, &printer).as_str(),
                    "\nFound: ",
                );
                res.append(type_string(actual, &printer).as_str());
                res.append("\n");
                res.append(decimal_string(errors.len() as u64).as_str());
                res.append(" errors were found during unification:\n");
                res.append(unify_strings(errors, &printer).as_str());
                res
            },
            TypeError::PatternError(typ, expected_len) => {
                let mut res = around("Type ", type_string(typ, &printer).as_str(), " has ");
                res.append(decimal_string(*expected_len as u64).as_str());
                res.append(" to few arguments");
                res
            },
            TypeError::DuplicateTypeDefinition(id) => around(
                "Type '",
                id.as_str(),
                "' has been already been defined in this module",
            ),
            TypeError::InvalidFieldAccess(typ) => around(
                "Type '",
                type_string(typ, &printer).as_str(),
                "' is not a type which allows field accesses",
            ),
            TypeError::UndefinedRecord { fields } => join(
                "No type found with the following fields: ",
                list(fields).as_str(),
            ),
            TypeError::KindError(error) => kind_error_string(error),
            TypeError::Rename(id, typ) => {
                let mut res = around(
                    "Could not resolve a binding for `",
                    id.as_str(),
                    "` with type `",
                );
                res.append(type_string(typ, &printer).as_str());
                res.append("`");
                res
            },
            TypeError::EmptyCase => "`case` expression with no alternatives".to_owned(),
        }
    }
}

fn around(start: &str, middle: &str, end: &str) -> (res: String)
    ensures
        res@ == start@ + middle@ + end@,
{
    let mut res = join(start, middle);
    res.append(end);
    res
}

/// The text of `typ`.
fn type_string(typ: &ArcType, printer: &Printer) -> (res: String)
    requires
        printable(typ@),
    ensures
        res@ == type_text(printer, typ@, 80),
{
    pretty_print(printer, typ).group().pretty(80)
}

fn unify_string(error: &unify_type::Error, printer: &Printer) -> (res: String)
    requires
        unify_printable(*error),
    ensures
        res@ == unify_text(*error, printer),
{
    match error {
        unify_type::Error::TypeMismatch(l, r) => {
            let mut res = around(
                "Types do not match:\n\tExpected: ",
                type_string(l, printer).as_str(),
                "\n\tFound: ",
            );
            res.append(type_string(r, printer).as_str());
            res
        },
        unify_type::Error::Occurs(var, typ) => {
            let mut res = around(
                "Variable `",
                decimal_string(var.id as u64).as_str(),
                "` occurs in `",
            );
            res.append(type_string(typ, printer).as_str());
            res.append("`.");
            res
        },
        unify_type::Error::Other(error) => error.message_by(printer),
    }
}

fn unify_strings(errors: &Vec<unify_type::Error>, printer: &Printer) -> (res: String)
    requires
        forall|i: int| 0 <= i < errors@.len() ==> unify_printable(#[trigger] errors@[i]),
    ensures
        res@ == unify_texts(errors@, printer, errors@.len()),
{
    let mut res = String::new();
    let mut i: usize = 0;
    while i < errors.len()
        invariant
            i <= errors@.len(),
            forall|i: int| 0 <= i < errors@.len() ==> unify_printable(#[trigger] errors@[i]),
            res@ == unify_texts(errors@, printer, i as nat),
        decreases errors@.len() - i,
    {
        if i > 0 {
            res.append("\n");
        }
        let text = unify_string(&errors[i], printer);
        assert(i == 0 ==> res@ + text@ =~= text@);
        res.append(text.as_str());
        i += 1;
    }
    res
}

fn list(names: &Vec<Symbol>) -> (res: String)
    ensures
        res@ == listed(symbols_view(names@), names@.len()),
{
    let ghost all = symbols_view(names@);
    let mut res = String::new();
    let mut i: usize = 0;
    while i < names.len()
        invariant
            i <= names@.len(),
            all == symbols_view(names@),
            res@ == listed(all, i as nat),
        decreases names@.len() - i,
    {
        if i > 0 {
            res.append(", ");
        }
        assert(i == 0 ==> res@ + all[0] =~= all[0]);
        res.append(names[i].as_str());
        i += 1;
    }
    res
}

} // verus!
