//! Names.

use vstd::prelude::*;
use vstd::string::*;

verus! {

/// An identifier of the language. Two symbols are the same when their names are.
pub struct Symbol {
    name: String,
}

impl View for Symbol {
    type V = Seq<char>;

    closed spec fn view(&self) -> Seq<char> {
        self.name@
    }
}

/// The part of `name` behind its last dot.
pub open spec fn last_part(name: Seq<char>) -> Seq<char>
    decreases name.len(),
{
    if name.len() == 0 || name.last() == '.' {
        Seq::empty()
    } else {
        last_part(name.drop_last()).push(name.last())
    }
}

/// The part of `name` before its last dot.
pub open spec fn module_part(name: Seq<char>) -> Seq<char>
    decreases name.len(),
{
    if name.len() == 0 {
        Seq::empty()
    } else if name.last() == '.' {
        name.drop_last()
    } else {
        module_part(name.drop_last())
    }
}

/// The name of a global starts with an `@`.
pub open spec fn global(name: Seq<char>) -> bool {
    name.len() > 0 && name[0] == '@'
}

/// Whether `c` is an upper case letter.
pub uninterp spec fn is_uppercase(c: char) -> bool;

/// Trusted: `char::is_uppercase`, which tells whether `c` has the Unicode property `Uppercase`. The
/// letters from `A` to `Z` have it, those from `a` to `z` do not.
#[verifier::external_body]
fn uppercase(c: char) -> (res: bool)
    ensures
        res == is_uppercase(c),
        'A' <= c && c <= 'Z' ==> res,
        'a' <= c && c <= 'z' ==> !res,
{
    c.is_uppercase()
}

/// Constructors are named in upper case.
pub open spec fn names_constructor(name: Seq<char>) -> bool {
    last_part(name).len() > 0 && is_uppercase(last_part(name)[0])
}

/// The parts of `name` before and behind its last dot.
pub fn split_name(name: &str) -> (res: (&str, &str))
    ensures
        res.0@ == module_part(name@),
        res.1@ == last_part(name@),
{
    let len: usize = name.unicode_len();
    let ghost all = name@;
    let mut i: usize = len;
    assert(all.subrange(i as int, len as int) =~= Seq::<char>::empty());
    assert(all.take(i as int) =~= all);
    assert(last_part(all) =~= last_part(all) + Seq::<char>::empty());
    while i > 0
        invariant
            i <= len,
            all == name@,
            len == all.len(),
            last_part(all) == last_part(all.take(i as int)) + all.subrange(i as int, len as int),
            module_part(all) == module_part(all.take(i as int)),
        decreases i,
    {
        proof {
            let before = all.take(i as int);
            assert(before.last() == all[i - 1]);
            assert(before.drop_last() =~= all.take(i - 1));
            assert(all.subrange(i - 1, len as int) =~= seq![all[i - 1]] + all.subrange(
                i as int,
                len as int,
            ));
            assert(last_part(all.take(i - 1)).push(all[i - 1]) + all.subrange(i as int, len as int)
                =~= last_part(all.take(i - 1)) + all.subrange(i - 1, len as int));
        }
        if name.get_char(i - 1) == '.' {
            assert(last_part(all) =~= all.subrange(i as int, len as int));
            assert(all.subrange(0, i - 1) =~= all.take(i - 1));
            return (name.substring_char(0, i - 1), name.substring_char(i, len));
        }
        i -= 1;
    }
    assert(all.take(0) =~= Seq::<char>::empty());
    assert(last_part(all) =~= all);
    assert(all.subrange(0, len as int) =~= all);
    (name.substring_char(0, 0), name.substring_char(0, len))
}

impl Symbol {
    pub fn new(name: String) -> (res: Symbol)
        ensures
            res@ == name@,
    {
        Symbol { name }
    }

    /// The name in full.
    pub fn as_str(&self) -> (res: &str)
        ensures
            res@ == self@,
    {
        self.name.as_str()
    }

    /// The name as it was declared, without the module that it was declared in.
    pub fn declared_name(&self) -> (res: &str)
        ensures
            res@ == last_part(self@),
    {
        split_name(self.name.as_str()).1
    }

    /// Whether the symbol names a global.
    pub fn is_global(&self) -> (res: bool)
        ensures
            res == global(self@),
    {
        let name = self.name.as_str();
        if name.unicode_len() > 0 {
            name.get_char(0) == '@'
        } else {
            false
        }
    }

    /// Whether the symbols have the same name.
    pub fn name_eq(&self, other: &Symbol) -> (res: bool)
        ensures
            res == (self@ == other@),
    {
        self.name == other.name
    }

    /// Whether the symbol names a constructor.
    pub fn is_constructor(&self) -> (res: bool)
        ensures
            res == names_constructor(self@),
    {
        let name = self.declared_name();
        if name.unicode_len() > 0 {
            uppercase(name.get_char(0))
        } else {
            false
        }
    }
}

impl Clone for Symbol {
    fn clone(&self) -> (res: Symbol)
        ensures
            res == *self,
    {
        Symbol { name: self.name.clone() }
    }
}

impl PartialEq for Symbol {
    fn eq(&self, other: &Symbol) -> (res: bool) {
        self.name == other.name
    }
}

impl vstd::std_specs::cmp::PartialEqSpecImpl for Symbol {
    open spec fn obeys_eq_spec() -> bool {
        true
    }

    open spec fn eq_spec(&self, other: &Symbol) -> bool {
        self@ == other@
    }
}

} // verus!
