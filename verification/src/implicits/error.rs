//! Why implicit arguments are not found.

use vstd::prelude::*;
use crate::implicits::store::{listed_types, types_in};
use crate::text::{join, strings_view};
use crate::types::display::{
    all_printable, are_printable, is_printable, pretty_print, printable, type_text, Printer,
};
use crate::types::model::Ty;
use crate::types::{types_view, ArcType};

verus! {

/// One of several values that can be an implicit argument.
pub struct AmbiguityEntry {
    pub path: String,
    pub typ: ArcType,
}

pub enum ErrorKind {
    /// An implicit parameter were not possible to resolve
    MissingImplicit(ArcType),
    LoopInImplicitResolution(Vec<String>),
    AmbiguousImplicit(Vec<AmbiguityEntry>),
}

pub struct Error {
    pub kind: ErrorKind,
    /// The types that the argument was required for, the innermost first.
    pub reason: rpds::List<ArcType>,
}

/// `texts` with commas between them.
pub open spec fn with_commas(texts: Seq<Seq<char>>, n: nat) -> Seq<char>
    decreases n,
{
    if n == 0 || n > texts.len() {
        Seq::empty()
    } else if n == 1 {
        texts[0]
    } else {
        with_commas(texts, (n - 1) as nat) + ", "@ + texts[n - 1]
    }
}

/// A candidate and its type.
pub open spec fn entry_text(entry: AmbiguityEntry, printer: &Printer) -> Seq<char> {
    entry.path@ + ": "@ + type_text(printer, entry.typ@, 80)
}

pub open spec fn entry_texts(entries: Seq<AmbiguityEntry>, printer: &Printer) -> Seq<Seq<char>> {
    entries.map_values(|entry: AmbiguityEntry| entry_text(entry, printer))
}

fn are_entries_printable(entries: &Vec<AmbiguityEntry>) -> (res: bool)
    ensures
        res == forall|i: int|
            0 <= i < entries@.len() ==> printable((#[trigger] entries@[i]).typ@),
{
    let mut i: usize = 0;
    while i < entries.len()
        invariant
            i <= entries@.len(),
            forall|j: int| 0 <= j < i ==> printable((#[trigger] entries@[j]).typ@),
        decreases entries@.len() - i,
    {
        if !is_printable(&entries[i].typ) {
            return false;
        }
        i += 1;
    }
    true
}

impl ErrorKind {
    /// The types in the error can be printed.
    pub open spec fn printable(&self) -> bool {
        match self {
            ErrorKind::MissingImplicit(typ) => printable(typ@),
            ErrorKind::LoopInImplicitResolution(_) => true,
            ErrorKind::AmbiguousImplicit(entries) => forall|i: int|
                0 <= i < entries@.len() ==> printable((#[trigger] entries@[i]).typ@),
        }
    }

    /// The message for the error, with the types printed by `printer`.
    pub open spec fn text(&self, printer: &Printer) -> Seq<char> {
        match self {
            ErrorKind::MissingImplicit(typ) => "Implicit parameter with type `"@ + type_text(
                printer,
                typ@,
                80,
            ) + "` could not be resolved."@,
            ErrorKind::LoopInImplicitResolution(paths) => {
                "Unable to resolve implicit, possible infinite loop. When resolving, "@
                    + with_commas(strings_view(paths@), paths@.len())
            },
            ErrorKind::AmbiguousImplicit(entries) => {
                "Unable to resolve implicit. Multiple candidates were found: "@ + with_commas(
                    entry_texts(entries@, printer),
                    entries@.len(),
                )
            },
        }
    }
}

/// What is said of a type that an argument was required for.
pub open spec fn reason_text(t: Ty, printer: &Printer) -> Seq<char> {
    "Required because of an implicit parameter of `"@ + type_text(printer, t, 80) + "`"@
}

impl Error {
    /// The message for the error.
    pub fn message(&self) -> (res: String)
        requires
            self.kind.printable(),
        ensures
            exists|printer: Printer| #[trigger]
                printer.keeps_all() && res@ == self.kind.text(&printer),
    {
        let printer = Printer::new();
        assert(printer.keeps_all());
        match &self.kind {
            ErrorKind::MissingImplicit(typ) => {
                let mut res = join(
                    "Implicit parameter with type `",
                    type_string(typ, &printer).as_str(),
                );
                res.append("` could not be resolved.");
                res
            },
            ErrorKind::LoopInImplicitResolution(paths) => join(
                "Unable to resolve implicit, possible infinite loop. When resolving, ",
                commas(paths).as_str(),
            ),
            ErrorKind::AmbiguousImplicit(entries) => {
                let texts = entry_strings(entries, &printer);
                assert(strings_view(texts@).len() == texts@.len());
                join(
                    "Unable to resolve implicit. Multiple candidates were found: ",
                    commas(&texts).as_str(),
                )
            },
        }
    }

    /// Whether the types in the error can be printed, and those that the argument was required for.
    pub fn is_printable(&self) -> (res: bool)
        ensures
            res == (self.kind.printable() && all_printable(types_in(self.reason))),
    {
        let kind = match &self.kind {
            ErrorKind::MissingImplicit(typ) => is_printable(typ),
            ErrorKind::LoopInImplicitResolution(_) => true,
            ErrorKind::AmbiguousImplicit(entries) => are_entries_printable(entries),
        };
        kind && are_printable(&listed_types(&self.reason))
    }

    /// What is said of the types that the argument was required for.
    pub fn reasons(&self) -> (res: Vec<String>)
        requires
            all_printable(types_in(self.reason)),
        ensures
            exists|printer: Printer| #[trigger]
                printer.keeps_all() && strings_view(res@) == types_in(self.reason).map_values(
                    |t: Ty| reason_text(t, &printer),
                ),
    {
        let printer = Printer::new();
        assert(printer.keeps_all());
        let types = listed_types(&self.reason);
        let ghost all = types_in(self.reason);
        let mut res: Vec<String> = Vec::new();
        let mut i: usize = 0;
        while i < types.len()
            invariant
                i <= types@.len(),
                all == types_view(types@),
                forall|i: int| 0 <= i < all.len() ==> printable(#[trigger] all[i]),
                res@.len() == i,
                forall|j: int|
                    0 <= j < i ==> (#[trigger] res@[j])@ == reason_text(all[j], &printer),
            decreases types@.len() - i,
        {
            assert(printable(all[i as int]));
            let mut text = join(
                "Required because of an implicit parameter of `",
                type_string(&types[i], &printer).as_str(),
            );
            text.append("`");
            res.push(text);
            i += 1;
        }
        assert(strings_view(res@) =~= all.map_values(|t: Ty| reason_text(t, &printer)));
        res
    }
}

/// The text of `typ`.
fn type_string(typ: &ArcType, printer: &Printer) -> (res: String)
    requires
        printable(typ@),
    ensures
        res@ == type_text(printer, typ@, 80),
{
    pretty_print(printer, typ).group().pretty(80)
}

fn entry_strings(entries: &Vec<AmbiguityEntry>, printer: &Printer) -> (res: Vec<String>)
    requires
        forall|i: int| 0 <= i < entries@.len() ==> printable((#[trigger] entries@[i]).typ@),
    ensures
        strings_view(res@) == entry_texts(entries@, printer),
{
    let mut res: Vec<String> = Vec::new();
    let mut i: usize = 0;
    while i < entries.len()
        invariant
            i <= entries@.len(),
            forall|i: int| 0 <= i < entries@.len() ==> printable((#[trigger] entries@[i]).typ@),
            res@.len() == i,
            forall|j: int| 0 <= j < i ==> (#[trigger] res@[j])@ == entry_text(entries@[j], printer),
        decreases entries@.len() - i,
    {
        let mut text = join(entries[i].path.as_str(), ": ");
        text.append(type_string(&entries[i].typ, printer).as_str());
        res.push(text);
        i += 1;
    }
    assert(strings_view(res@) =~= entry_texts(entries@, printer));
    res
}

fn commas(texts: &Vec<String>) -> (res: String)
    ensures
        res@ == with_commas(strings_view(texts@), texts@.len()),
{
    let ghost all = strings_view(texts@);
    let mut res = String::new();
    let mut i: usize = 0;
    while i < texts.len()
        invariant
            i <= texts@.len(),
            all == strings_view(texts@),
            res@ == with_commas(all, i as nat),
        decreases texts@.len() - i,
    {
        if i > 0 {
            res.append(", ");
        }
        assert(i == 0 ==> res@ + all[0] =~= all[0]);
        res.append(texts[i].as_str());
        i += 1;
    }
    res
}

} // verus!
