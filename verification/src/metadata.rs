//! What is known of a definition beside its type.

use vstd::prelude::*;
use crate::symbol::Symbol;
use crate::text::same;

verus! {

#[derive(Copy, Clone, Eq, PartialEq, Structural, Debug)]
pub enum CommentType {
    Block,
    Line,
}

#[derive(Debug)]
pub struct Comment {
    pub typ: CommentType,
    pub content: String,
}

#[derive(Debug)]
pub struct Attribute {
    pub name: String,
    pub arguments: Option<String>,
}

/// An argument of a function, which may be implicit.
pub struct Argument {
    pub implicit: bool,
    pub name: Symbol,
}

/// What is known of a definition. The definitions inside of it are in `module`, each name once.
pub struct Metadata {
    pub definition: Option<Symbol>,
    pub comment: Option<Comment>,
    pub attributes: Vec<Attribute>,
    pub args: Vec<Argument>,
    pub module: Vec<(String, Metadata)>,
}

/// The position of the entry of `module` for `name`, from `from` on.
pub open spec fn entry_of(
    module: Seq<(String, Metadata)>,
    name: Seq<char>,
    from: int,
) -> Option<int>
    decreases module.len() - from,
{
    if from < 0 || from >= module.len() {
        None
    } else if module[from].0@ == name {
        Some(from)
    } else {
        entry_of(module, name, from + 1)
    }
}

/// The position of the first of `attributes` that is named `name`, from `from` on.
pub open spec fn attribute_of(attributes: Seq<Attribute>, name: Seq<char>, from: int) -> Option<int>
    decreases attributes.len() - from,
{
    if from < 0 || from >= attributes.len() {
        None
    } else if attributes[from].name@ == name {
        Some(from)
    } else {
        attribute_of(attributes, name, from + 1)
    }
}

/// Where an entry is found it is the first of its name.
pub proof fn entry_found(module: Seq<(String, Metadata)>, name: Seq<char>, from: int)
    requires
        0 <= from,
    ensures
        match entry_of(module, name, from) {
            Some(i) => from <= i < module.len() && module[i].0@ == name && forall|j: int|
                from <= j < i ==> (#[trigger] module[j]).0@ != name,
            None => forall|j: int| from <= j < module.len() ==> (#[trigger] module[j]).0@ != name,
        },
    decreases module.len() - from,
{
    if from < module.len() && module[from].0@ != name {
        entry_found(module, name, from + 1);
    }
}

/// Each name occurs once in each module.
pub open spec fn unique_names(m: Metadata) -> bool
    decreases m,
{
    unique_entries(m.module@)
}

pub open spec fn unique_entries(module: Seq<(String, Metadata)>) -> bool
    decreases module,
{
    &&& forall|i: int, j: int|
        0 <= i < j < module.len() ==> (#[trigger] module[i]).0@ != (#[trigger] module[j]).0@
    &&& forall|i: int| 0 <= i < module.len() ==> unique_names((#[trigger] module[i]).1)
}

/// `res` is what is known of a definition by `m` and by `other`. Where both say where it is defined,
/// `other` is right; where both have a comment or arguments, `m` is.
pub open spec fn merged(m: Metadata, other: Metadata, res: Metadata) -> bool
    decreases m,
{
    &&& res.definition == if other.definition is Some {
        other.definition
    } else {
        m.definition
    }
    &&& res.comment == if m.comment is Some {
        m.comment
    } else {
        other.comment
    }
    &&& res.attributes@ == m.attributes@ + other.attributes@
    &&& res.args@ == if m.args@.len() == 0 {
        other.args@
    } else {
        m.args@
    }
    &&& merged_entries(m.module@, other.module@, res.module@)
}

/// `res` has the entries of `module` and `other`. Those that both have are merged.
pub open spec fn merged_entries(
    module: Seq<(String, Metadata)>,
    other: Seq<(String, Metadata)>,
    res: Seq<(String, Metadata)>,
) -> bool
    decreases module,
{
    &&& module.len() <= res.len()
    &&& forall|i: int|
        #![trigger res[i]]
        0 <= i < module.len() ==> res[i].0@ == module[i].0@ && match entry_of(
            other,
            module[i].0@,
            0,
        ) {
            Some(j) => merged(module[i].1, other[j].1, res[i].1),
            None => res[i].1 == module[i].1,
        }
    &&& forall|i: int|
        #![trigger res[i]]
        module.len() <= i < res.len() ==> entry_of(module, res[i].0@, 0) is None && exists|j: int|
            0 <= j < other.len() && #[trigger] other[j] == res[i]
    &&& forall|j: int|
        0 <= j < other.len() ==> entry_of(res, (#[trigger] other[j]).0@, 0) is Some
}

impl Metadata {
    /// Nothing is known.
    pub fn new() -> (res: Metadata)
        ensures
            knows_nothing(res),
            unique_names(res),
    {
        Metadata {
            definition: None,
            comment: None,
            attributes: Vec::new(),
            args: Vec::new(),
            module: Vec::new(),
        }
    }

    /// Whether something is known. Arguments alone do not count.
    pub fn has_data(&self) -> (res: bool)
        ensures
            res == (self.definition is Some || self.comment is Some || self.module@.len() > 0
                || self.attributes@.len() > 0),
    {
        self.definition.is_some() || self.comment.is_some() || self.module.len() > 0
            || self.attributes.len() > 0
    }

    /// The arguments of the attribute `name`: the empty text if it has none.
    pub fn get_attribute(&self, name: &str) -> (res: Option<&str>)
        ensures
            match attribute_of(self.attributes@, name@, 0) {
                Some(i) => res matches Some(text) && text@ == match self.attributes@[i].arguments {
                    Some(arguments) => arguments@,
                    None => ""@,
                },
                None => res is None,
            },
    {
        let mut i: usize = 0;
        while i < self.attributes.len()
            invariant
                i <= self.attributes@.len(),
                attribute_of(self.attributes@, name@, 0) == attribute_of(
                    self.attributes@,
                    name@,
                    i as int,
                ),
            decreases self.attributes@.len() - i,
        {
            if same(self.attributes[i].name.as_str(), name) {
                return match &self.attributes[i].arguments {
                    Some(arguments) => Some(arguments.as_str()),
                    None => Some(""),
                };
            }
            i += 1;
        }
        None
    }

    /// The attributes.
    pub fn attributes(&self) -> (res: &Vec<Attribute>)
        ensures
            *res == self.attributes,
    {
        &self.attributes
    }

    fn entry(&self, name: &str) -> (res: Option<usize>)
        ensures
            match res {
                Some(i) => entry_of(self.module@, name@, 0) == Some(i as int) && i
                    < self.module@.len(),
                None => entry_of(self.module@, name@, 0) is None,
            },
    {
        let mut i: usize = 0;
        while i < self.module.len()
            invariant
                i <= self.module@.len(),
                entry_of(self.module@, name@, 0) == entry_of(self.module@, name@, i as int),
            decreases self.module@.len() - i,
        {
            if same(self.module[i].0.as_str(), name) {
                return Some(i);
            }
            i += 1;
        }
        None
    }

    /// What is known of the definition `name` inside of this one.
    pub fn get(&self, name: &str) -> (res: Option<&Metadata>)
        ensures
            match entry_of(self.module@, name@, 0) {
                Some(i) => res == Some(&self.module@[i].1),
                None => res is None,
            },
    {
        match self.entry(name) {
            Some(i) => Some(&self.module[i].1),
            None => None,
        }
    }
}

/// What is known of the entries after those of `other` from `from` on have been merged into `module`.
spec fn partly_merged(
    module: Seq<(String, Metadata)>,
    other: Seq<(String, Metadata)>,
    from: int,
    res: Seq<(String, Metadata)>,
) -> bool {
    &&& module.len() <= res.len()
    &&& forall|i: int|
        #![trigger res[i]]
        0 <= i < module.len() ==> res[i].0@ == module[i].0@ && match entry_of(
            other,
            module[i].0@,
            0,
        ) {
            Some(j) => if j >= from {
                merged(module[i].1, other[j].1, res[i].1) && unique_names(res[i].1)
            } else {
                res[i].1 == module[i].1
            },
            None => res[i].1 == module[i].1,
        }
    &&& forall|i: int|
        #![trigger res[i]]
        module.len() <= i < res.len() ==> entry_of(module, res[i].0@, 0) is None && exists|j: int|
            from <= j < other.len() && #[trigger] other[j] == res[i]
    &&& forall|j: int|
        from <= j < other.len() ==> entry_of(res, (#[trigger] other[j]).0@, 0) is Some
    &&& forall|i: int, j: int|
        0 <= i < j < res.len() ==> (#[trigger] res[i]).0@ != (#[trigger] res[j]).0@
    &&& forall|i: int| 0 <= i < res.len() ==> unique_names((#[trigger] res[i]).1)
}

proof fn entry_exists(module: Seq<(String, Metadata)>, name: Seq<char>, i: int)
    requires
        0 <= i < module.len(),
        module[i].0@ == name,
    ensures
        entry_of(module, name, 0) is Some,
{
    entry_found(module, name, 0);
}

/// In a list without repeated names the entry of a name is the only one.
proof fn entry_is(module: Seq<(String, Metadata)>, i: int)
    requires
        0 <= i < module.len(),
        forall|i: int, j: int|
            0 <= i < j < module.len() ==> (#[trigger] module[i]).0@ != (#[trigger] module[j]).0@,
    ensures
        entry_of(module, module[i].0@, 0) == Some(i),
{
    entry_found(module, module[i].0@, 0);
}

impl Metadata {
    /// What is known of the definition by `self` and by `other`.
    pub fn merge(self, other: Metadata) -> (res: Metadata)
        requires
            unique_names(self),
            unique_names(other),
        ensures
            merged(self, other, res),
            unique_names(res),
    {
        let mut res = self;
        res.merge_with(other);
        res
    }

    /// Adds what is known by `other`.
    #[verifier::rlimit(30)]
    pub fn merge_with(&mut self, other: Metadata)
        requires
            unique_names(*old(self)),
            unique_names(other),
        ensures
            merged(*old(self), other, *final(self)),
            unique_names(*final(self)),
        decreases *old(self),
    {
        let ghost mine = self.module@;
        let ghost theirs = other.module@;
        let Metadata { definition, comment, attributes, args, module } = other;
        if definition.is_some() {
            self.definition = definition;
        }
        if self.comment.is_none() {
            self.comment = comment;
        }
        let mut module = module;
        assert(module@.take(module@.len() as int) =~= module@);
        assert(partly_merged(mine, theirs, theirs.len() as int, self.module@)) by {
            assert forall|i: int| 0 <= i < mine.len() implies match entry_of(
                theirs,
                (#[trigger] mine[i]).0@,
                0,
            ) {
                Some(j) => j < theirs.len(),
                None => true,
            } by {
                entry_found(theirs, mine[i].0@, 0);
            }
        }
        let ghost (d, c, at, ar) = (self.definition, self.comment, self.attributes, self.args);
        loop
            invariant
                unique_entries(mine),
                unique_entries(theirs),
                mine == old(self).module@,
                self.definition == d,
                self.comment == c,
                self.attributes == at,
                self.args == ar,
                module@.len() <= theirs.len(),
                module@ == theirs.take(module@.len() as int),
                partly_merged(mine, theirs, module@.len() as int, self.module@),
            ensures
                module@.len() == 0,
            decreases module@.len(),
        {
            let ghost n = module@.len() as int - 1;
            let ghost before = self.module@;
            match module.pop() {
                None => {
                    break ;
                },
                Some((key, value)) => {
                    proof {
                        assert(theirs[n] == (key, value));
                        entry_is(theirs, n);
                        entry_found(before, key@, 0);
                        assert(module@ =~= theirs.take(n));
                        assert forall|i: int| 0 <= i < mine.len() && entry_of(
                            theirs,
                            (#[trigger] mine[i]).0@,
                            0,
                        ) == Some(n) implies mine[i].0@ == key@ by {
                            entry_found(theirs, mine[i].0@, 0);
                        }
                        assert forall|i: int| mine.len() <= i < before.len() implies (#[trigger]
                        before[i]).0@ != key@ by {
                            let j = choose|j: int|
                                n + 1 <= j < theirs.len() && #[trigger] theirs[j] == before[i];
                            assert(theirs[n].0@ != theirs[j].0@);
                        }
                    }
                    match self.entry(key.as_str()) {
                        Some(i) => {
                            proof {
                                assert(i < mine.len());
                                assert(before[i as int].1 == mine[i as int].1);
                                assert(decreases_to!(mine => mine[i as int]));
                                assert(unique_names(mine[i as int].1));
                                assert(unique_names(theirs[n].1));
                            }
                            self.module[i].1.merge_with(value);
                            proof {
                                let after = self.module@;
                                assert(after.len() == before.len());
                                assert(forall|k: int|
                                    0 <= k < after.len() && k != i ==> #[trigger] after[k] == before[k]);
                                assert(after[i as int].0 == before[i as int].0);
                                assert forall|j: int| n <= j < theirs.len() implies entry_of(
                                    after,
                                    (#[trigger] theirs[j]).0@,
                                    0,
                                ) is Some by {
                                    let k = if j == n {
                                        i as int
                                    } else {
                                        entry_found(before, theirs[j].0@, 0);
                                        entry_of(before, theirs[j].0@, 0)->0
                                    };
                                    assert(after[k].0@ == theirs[j].0@);
                                    entry_exists(after, theirs[j].0@, k);
                                }
                                assert(partly_merged(mine, theirs, n, after));
                            }
                        },
                        None => {
                            self.module.push((key, value));
                            proof {
                                let after = self.module@;
                                assert(after =~= before.push((key, value)));
                                assert(forall|k: int|
                                    0 <= k < before.len() ==> #[trigger] after[k] == before[k]);
                                assert(entry_of(mine, key@, 0) is None) by {
                                    entry_found(mine, key@, 0);
                                    if let Some(k) = entry_of(mine, key@, 0) {
                                        assert(before[k].0@ == key@);
                                    }
                                }
                                assert forall|j: int| n <= j < theirs.len() implies entry_of(
                                    after,
                                    (#[trigger] theirs[j]).0@,
                                    0,
                                ) is Some by {
                                    let k = if j == n {
                                        before.len() as int
                                    } else {
                                        entry_found(before, theirs[j].0@, 0);
                                        entry_of(before, theirs[j].0@, 0)->0
                                    };
                                    assert(after[k].0@ == theirs[j].0@);
                                    entry_exists(after, theirs[j].0@, k);
                                }
                                assert forall|i: int| 0 <= i < mine.len() implies entry_of(
                                    theirs,
                                    (#[trigger] mine[i]).0@,
                                    0,
                                ) != Some(n) by {
                                    entry_found(theirs, mine[i].0@, 0);
                                    assert(before[i].0@ == mine[i].0@);
                                }
                                assert(partly_merged(mine, theirs, n, after));
                            }
                        },
                    }
                },
            }
        }
        let mut attributes = attributes;
        self.attributes.append(&mut attributes);
        if self.args.len() == 0 {
            self.args = args;
        }
        proof {
            assert forall|i: int| 0 <= i < mine.len() implies match entry_of(
                theirs,
                (#[trigger] mine[i]).0@,
                0,
            ) {
                Some(j) => j >= 0,
                None => true,
            } by {
                entry_found(theirs, mine[i].0@, 0);
            }
            assert(merged_entries(mine, theirs, self.module@));
        }
    }
}

/// The same is known by `a` and `b`. In which order the definitions inside are listed does not count.
pub open spec fn alike(a: Metadata, b: Metadata) -> bool
    decreases a,
{
    &&& a.definition == b.definition
    &&& a.comment == b.comment
    &&& a.attributes@ == b.attributes@
    &&& a.args@ == b.args@
    &&& alike_entries(a.module@, b.module@)
}

/// The same names are listed in `a` and `b`, and the same is known of them.
pub open spec fn alike_entries(a: Seq<(String, Metadata)>, b: Seq<(String, Metadata)>) -> bool
    decreases a,
{
    &&& forall|i: int|
        0 <= i < a.len() ==> match entry_of(b, (#[trigger] a[i]).0@, 0) {
            Some(j) => alike(a[i].1, b[j].1),
            None => false,
        }
    &&& forall|j: int| 0 <= j < b.len() ==> entry_of(a, (#[trigger] b[j]).0@, 0) is Some
}

/// What is known of `name` after a merge.
proof fn merged_entry(
    module: Seq<(String, Metadata)>,
    other: Seq<(String, Metadata)>,
    res: Seq<(String, Metadata)>,
    name: Seq<char>,
)
    requires
        unique_entries(module),
        unique_entries(other),
        merged_entries(module, other, res),
    ensures
        match (entry_of(module, name, 0), entry_of(other, name, 0), entry_of(res, name, 0)) {
            (Some(i), Some(j), Some(k)) => 0 <= i < module.len() && 0 <= j < other.len() && 0 <= k
                < res.len() && merged(module[i].1, other[j].1, res[k].1),
            (Some(i), None, Some(k)) => 0 <= i < module.len() && 0 <= k < res.len() && res[k].1
                == module[i].1,
            (None, Some(j), Some(k)) => 0 <= j < other.len() && 0 <= k < res.len() && res[k].1
                == other[j].1,
            (None, None, None) => true,
            _ => false,
        },
{
    entry_found(module, name, 0);
    entry_found(other, name, 0);
    entry_found(res, name, 0);
    if let Some(i) = entry_of(module, name, 0) {
        assert(res[i].0@ == name);
        let k = entry_of(res, name, 0)->0;
        if k != i {
            assert(res[k].0@ == module[k].0@);
        }
    } else {
        if let Some(j) = entry_of(other, name, 0) {
            assert(other[j].0@ == name);
        }
        if let Some(k) = entry_of(res, name, 0) {
            if k < module.len() {
                assert(res[k].0@ == module[k].0@);
            } else {
                let j = choose|j: int| 0 <= j < other.len() && #[trigger] other[j] == res[k];
                assert(other[j].0@ == name);
            }
        }
    }
}

proof fn alike_itself(a: Metadata)
    requires
        unique_names(a),
    ensures
        alike(a, a),
    decreases a,
{
    let all = a.module@;
    assert forall|i: int| 0 <= i < all.len() implies match entry_of(all, (#[trigger] all[i]).0@, 0) {
        Some(j) => alike(all[i].1, all[j].1),
        None => false,
    } by {
        entry_is(all, i);
        assert(decreases_to!(all => all[i]));
        alike_itself(all[i].1);
    }
    assert forall|j: int| 0 <= j < all.len() implies entry_of(
        all,
        (#[trigger] all[j]).0@,
        0,
    ) is Some by {
        entry_is(all, j);
    }
}

/// What is known after a merge is determined by what was known before.
pub proof fn merged_to_one(a: Metadata, b: Metadata, x: Metadata, y: Metadata)
    requires
        unique_names(a),
        unique_names(b),
        unique_names(x),
        unique_names(y),
        merged(a, b, x),
        merged(a, b, y),
    ensures
        alike(x, y),
    decreases a,
{
    let (am, bm, xm, ym) = (a.module@, b.module@, x.module@, y.module@);
    assert forall|i: int| 0 <= i < xm.len() implies match entry_of(ym, (#[trigger] xm[i]).0@, 0) {
        Some(j) => alike(xm[i].1, ym[j].1),
        None => false,
    } by {
        let name = xm[i].0@;
        entry_is(xm, i);
        merged_entry(am, bm, xm, name);
        merged_entry(am, bm, ym, name);
        match (entry_of(am, name, 0), entry_of(bm, name, 0)) {
            (Some(k), Some(l)) => {
                assert(decreases_to!(am => am[k]));
                assert(unique_names(am[k].1));
                assert(unique_names(bm[l].1));
                assert(unique_names(xm[i].1));
                assert(unique_names(ym[entry_of(ym, name, 0)->0].1));
                merged_to_one(am[k].1, bm[l].1, xm[i].1, ym[entry_of(ym, name, 0)->0].1);
            },
            (Some(k), None) => {
                assert(unique_names(am[k].1));
                alike_itself(am[k].1);
            },
            (None, Some(l)) => {
                assert(unique_names(bm[l].1));
                alike_itself(bm[l].1);
            },
            (None, None) => {},
        }
    }
    assert forall|j: int| 0 <= j < ym.len() implies entry_of(
        xm,
        (#[trigger] ym[j]).0@,
        0,
    ) is Some by {
        entry_exists(ym, ym[j].0@, j);
        merged_entry(am, bm, xm, ym[j].0@);
        merged_entry(am, bm, ym, ym[j].0@);
    }
}

/// Nothing is known by `m`.
pub open spec fn knows_nothing(m: Metadata) -> bool {
    &&& m.definition is None
    &&& m.comment is None
    &&& m.attributes@.len() == 0
    &&& m.args@.len() == 0
    &&& m.module@.len() == 0
}

/// Merging with what knows nothing leaves what is known as it is, from either side.
pub proof fn nothing_is_neutral(a: Metadata, nothing: Metadata, x: Metadata, y: Metadata)
    requires
        knows_nothing(nothing),
        unique_names(a),
        unique_names(x),
        unique_names(y),
        merged(a, nothing, x),
        merged(nothing, a, y),
    ensures
        alike(x, a),
        alike(y, a),
{
    let (am, nm, xm, ym) = (a.module@, nothing.module@, x.module@, y.module@);
    assert(x.attributes@ =~= a.attributes@);
    assert(y.attributes@ =~= a.attributes@);
    assert(x.args@ =~= a.args@);
    assert(y.args@ =~= a.args@);
    assert(unique_entries(nm));
    assert forall|i: int| 0 <= i < xm.len() implies match entry_of(am, (#[trigger] xm[i]).0@, 0) {
        Some(j) => alike(xm[i].1, am[j].1),
        None => false,
    } by {
        entry_is(xm, i);
        merged_entry(am, nm, xm, xm[i].0@);
        entry_found(am, xm[i].0@, 0);
        alike_itself(xm[i].1);
    }
    assert forall|i: int| 0 <= i < ym.len() implies match entry_of(am, (#[trigger] ym[i]).0@, 0) {
        Some(j) => alike(ym[i].1, am[j].1),
        None => false,
    } by {
        entry_is(ym, i);
        merged_entry(nm, am, ym, ym[i].0@);
        entry_found(am, ym[i].0@, 0);
        alike_itself(ym[i].1);
    }
    assert forall|j: int| 0 <= j < am.len() implies entry_of(xm, (#[trigger] am[j]).0@, 0) is Some
        && entry_of(ym, am[j].0@, 0) is Some by {
        entry_is(am, j);
        merged_entry(am, nm, xm, am[j].0@);
        merged_entry(nm, am, ym, am[j].0@);
    }
}

/// It does not matter which of two merges is done first.
#[verifier::rlimit(30)]
pub proof fn merge_is_associative(
    a: Metadata,
    b: Metadata,
    c: Metadata,
    ab: Metadata,
    bc: Metadata,
    x: Metadata,
    y: Metadata,
)
    requires
        unique_names(a),
        unique_names(b),
        unique_names(c),
        unique_names(ab),
        unique_names(bc),
        unique_names(x),
        unique_names(y),
        merged(a, b, ab),
        merged(b, c, bc),
        merged(ab, c, x),
        merged(a, bc, y),
    ensures
        alike(x, y),
    decreases a,
{
    let (am, bm, cm) = (a.module@, b.module@, c.module@);
    let (abm, bcm, xm, ym) = (ab.module@, bc.module@, x.module@, y.module@);
    assert(x.attributes@ =~= y.attributes@);
    assert(x.args@ =~= y.args@);
    assert forall|i: int| 0 <= i < xm.len() implies match entry_of(ym, (#[trigger] xm[i]).0@, 0) {
        Some(j) => alike(xm[i].1, ym[j].1),
        None => false,
    } by {
        let name = xm[i].0@;
        entry_is(xm, i);
        merged_entry(am, bm, abm, name);
        merged_entry(bm, cm, bcm, name);
        merged_entry(abm, cm, xm, name);
        merged_entry(am, bcm, ym, name);
        let (p, q, r) = (entry_of(am, name, 0), entry_of(bm, name, 0), entry_of(cm, name, 0));
        let (pq, qr) = (entry_of(abm, name, 0), entry_of(bcm, name, 0));
        let (xi, yj) = (xm[i].1, ym[entry_of(ym, name, 0)->0].1);
        assert(unique_names(xi));
        assert(unique_names(yj));
        match (p, q, r) {
            (Some(k), Some(l), Some(m)) => {
                assert(decreases_to!(am => am[k]));
                assert(unique_names(am[k].1));
                assert(unique_names(bm[l].1));
                assert(unique_names(cm[m].1));
                assert(unique_names(abm[pq->0].1));
                assert(unique_names(bcm[qr->0].1));
                merge_is_associative(
                    am[k].1,
                    bm[l].1,
                    cm[m].1,
                    abm[pq->0].1,
                    bcm[qr->0].1,
                    xi,
                    yj,
                );
            },
            (Some(k), Some(l), None) => {
                assert(unique_names(am[k].1));
                assert(unique_names(bm[l].1));
                merged_to_one(am[k].1, bm[l].1, xi, yj);
            },
            (Some(k), None, Some(m)) => {
                assert(unique_names(am[k].1));
                assert(unique_names(cm[m].1));
                merged_to_one(am[k].1, cm[m].1, xi, yj);
            },
            (None, Some(l), Some(m)) => {
                assert(unique_names(bm[l].1));
                assert(unique_names(cm[m].1));
                merged_to_one(bm[l].1, cm[m].1, xi, yj);
            },
            _ => {
                alike_itself(xi);
            },
        }
    }
    assert forall|j: int| 0 <= j < ym.len() implies entry_of(
        xm,
        (#[trigger] ym[j]).0@,
        0,
    ) is Some by {
        let name = ym[j].0@;
        entry_is(ym, j);
        merged_entry(am, bm, abm, name);
        merged_entry(bm, cm, bcm, name);
        merged_entry(abm, cm, xm, name);
        merged_entry(am, bcm, ym, name);
    }
}

/// Trait for values which contain metadata by name
pub trait MetadataEnv {
    /// The metadata, by name.
    spec fn metadata(&self) -> Map<Seq<char>, Metadata>;

    /// Returns the metadata of the value or type `id`
    fn get_metadata(&self, id: &Symbol) -> (res: Option<&Metadata>)
        ensures
            match res {
                Some(metadata) => self.metadata().dom().contains(id@) && self.metadata()[id@]
                    == *metadata,
                None => !self.metadata().dom().contains(id@),
            },
    ;
}

impl MetadataEnv for crate::symbol_map::SymbolMap<Metadata> {
    open spec fn metadata(&self) -> Map<Seq<char>, Metadata> {
        self@
    }

    fn get_metadata(&self, id: &Symbol) -> (res: Option<&Metadata>) {
        self.get(id)
    }
}

} // verus!
