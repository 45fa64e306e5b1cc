//! How values of a type are pushed onto the stack of the virtual machine.

use vstd::prelude::*;
use crate::text::{decimal, decimal_string, join, same, strings_view};

verus! {

/// The fields of a struct or of a variant.
pub enum Fields {
    /// With their names
    Named(Vec<String>),
    /// So many without names
    Unnamed(usize),
    Unit,
}

/// The name that the unnamed field `index` is given.
pub open spec fn index_name(index: nat) -> Seq<char> {
    "_"@ + decimal(index)
}

/// The names of `fields`.
pub open spec fn field_idents(fields: Fields) -> Seq<Seq<char>> {
    match fields {
        Fields::Named(names) => strings_view(names@),
        Fields::Unnamed(n) => Seq::new(n as nat, |i: int| index_name(i as nat)),
        Fields::Unit => Seq::empty(),
    }
}

/// The names of `fields`: if they belong to a struct we use the field name, otherwise generate one
/// from the index of the tuple element
pub fn get_info_from_fields(fields: &Fields) -> (res: Vec<String>)
    ensures
        strings_view(res@) == field_idents(*fields),
{
    let mut res: Vec<String> = Vec::new();
    match fields {
        Fields::Named(names) => {
            let mut i: usize = 0;
            while i < names.len()
                invariant
                    i <= names@.len(),
                    res@.len() == i,
                    forall|j: int| 0 <= j < i ==> (#[trigger] res@[j])@ == names@[j]@,
                decreases names@.len() - i,
            {
                res.push(names[i].clone());
                i += 1;
            }
        },
        Fields::Unnamed(n) => {
            let n: usize = *n;
            let mut i: usize = 0;
            while i < n
                invariant
                    i <= n,
                    res@.len() == i,
                    forall|j: int| 0 <= j < i ==> (#[trigger] res@[j])@ == index_name(j as nat),
                decreases n - i,
            {
                res.push(join("_", decimal_string(i as u64).as_str()));
                i += 1;
            }
        },
        Fields::Unit => {},
    }
    assert(strings_view(res@) =~= field_idents(*fields));
    res
}

/// What is made of the fields that were pushed.
pub enum NewData {
    /// A variant with the tag
    Tagged(usize),
    /// A record with the fields
    Record(Vec<String>),
}

/// How a value is pushed.
pub struct PushPlan {
    /// The fields in the order in which they are pushed.
    pub pushes: Vec<String>,
    /// How many of them are popped again.
    pub pops: usize,
    pub data: NewData,
}

/// Fields are pushed in reverse order so they come out in the correct order when popping the stack.
/// A variant is made by its tag, a struct by the names of its fields.
pub fn gen_push_impl(tag: Option<usize>, fields: &Fields) -> (res: PushPlan)
    ensures
        strings_view(res.pushes@) == field_idents(*fields).reverse(),
        res.pops == field_idents(*fields).len(),
        match (tag, res.data) {
            (Some(tag), NewData::Tagged(t)) => t == tag,
            (None, NewData::Record(names)) => strings_view(names@) == field_idents(*fields),
            _ => false,
        },
{
    let idents = get_info_from_fields(fields);
    let ghost all = field_idents(*fields);
    assert(all.len() == idents@.len());
    let mut pushes: Vec<String> = Vec::new();
    let len: usize = idents.len();
    let mut i: usize = len;
    while i > 0
        invariant
            i <= len == idents@.len() == all.len(),
            all == strings_view(idents@),
            pushes@.len() == len - i,
            forall|j: int| 0 <= j < len - i ==> (#[trigger] pushes@[j])@ == all[len - 1 - j],
        decreases i,
    {
        i -= 1;
        pushes.push(idents[i].clone());
        assert(idents@[i as int]@ == all[i as int]);
    }
    assert(strings_view(pushes@) =~= all.reverse());
    let data = match tag {
        Some(tag) => NewData::Tagged(tag),
        None => NewData::Record(idents),
    };
    PushPlan { pushes, pops: len, data }
}

/// Where the parts of the virtual machine are found.
pub enum CrateName {
    /// Below the path
    Named(String),
    /// In the crate of the virtual machine itself
    GluonVm,
    /// In the crate that embeds it
    Default,
}

/// An attribute of a type.
pub enum MetaItem {
    /// A name with a text: `crate_name = "foo"`
    NameValue(String, String),
    /// A name alone: `gluon_vm`
    Word(String),
}

/// The attribute is one of those that are known.
pub open spec fn is_known(item: MetaItem) -> bool {
    match item {
        MetaItem::NameValue(name, _) => name@ == "crate_name"@ || name@ == "vm_type"@,
        MetaItem::Word(name) => name@ == "gluon_vm"@,
    }
}

/// The crate that the first `n` of `items` name. The last one that names one counts.
pub open spec fn named_crate(items: Seq<MetaItem>, n: nat) -> Option<Option<Seq<char>>>
    decreases n,
{
    if n == 0 || n > items.len() {
        None
    } else {
        match items[n - 1] {
            MetaItem::NameValue(name, value) => if name@ == "crate_name"@ {
                Some(Some(value@))
            } else {
                named_crate(items, (n - 1) as nat)
            },
            MetaItem::Word(_) => Some(None),
        }
    }
}

pub open spec fn crate_view(name: CrateName) -> Option<Option<Seq<char>>> {
    match name {
        CrateName::Named(path) => Some(Some(path@)),
        CrateName::GluonVm => Some(None),
        CrateName::Default => None,
    }
}

/// The crate that `items` name, or the position of the first one that is not known.
pub fn crate_name(items: &Vec<MetaItem>) -> (res: Result<CrateName, usize>)
    ensures
        match res {
            Ok(name) => (forall|i: int| 0 <= i < items@.len() ==> is_known(#[trigger] items@[i]))
                && crate_view(name) == named_crate(items@, items@.len()),
            Err(i) => i < items@.len() && !is_known(items@[i as int]) && forall|j: int|
                0 <= j < i ==> is_known(#[trigger] items@[j]),
        },
{
    let mut res = CrateName::Default;
    let mut i: usize = 0;
    while i < items.len()
        invariant
            i <= items@.len(),
            forall|j: int| 0 <= j < i ==> is_known(#[trigger] items@[j]),
            crate_view(res) == named_crate(items@, i as nat),
        decreases items@.len() - i,
    {
        match &items[i] {
            MetaItem::NameValue(name, value) => {
                if same(name.as_str(), "crate_name") {
                    res = CrateName::Named(value.clone());
                } else if !same(name.as_str(), "vm_type") {
                    return Err(i);
                }
            },
            MetaItem::Word(name) => {
                if same(name.as_str(), "gluon_vm") {
                    res = CrateName::GluonVm;
                } else {
                    return Err(i);
                }
            },
        }
        i += 1;
    }
    Ok(res)
}

/// What is pushed last is popped first: the fields are popped in the order in which they are declared.
pub proof fn popped_in_order(names: Seq<Seq<char>>)
    ensures
        names.reverse().reverse() == names,
{
    assert(names.reverse().reverse() =~= names);
}

} // verus!
