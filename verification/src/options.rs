//! What the program is asked to do.

use vstd::prelude::*;
use crate::text::{comes_before, is_before, same, strings_view};

verus! {

/// When output is colored.
#[derive(Copy, Clone, Eq, PartialEq, Structural, Debug)]
pub enum Color {
    Auto,
    Always,
    AlwaysAnsi,
    Never,
}

impl Default for Color {
    fn default() -> (res: Color)
        ensures
            res == Color::Auto,
    {
        Color::Auto
    }
}

/// The color choice that is written as `text`.
pub open spec fn color_named(text: Seq<char>) -> Option<Color> {
    if text == "auto"@ {
        Some(Color::Auto)
    } else if text == "always"@ {
        Some(Color::Always)
    } else if text == "always-ansi"@ {
        Some(Color::AlwaysAnsi)
    } else if text == "never"@ {
        Some(Color::Never)
    } else {
        None
    }
}

impl Color {
    /// The color choice that is written as `s`.
    pub fn from_str(s: &str) -> (res: Result<Color, &'static str>)
        ensures
            match color_named(s@) {
                Some(color) => res == Ok::<Color, &'static str>(color),
                None => res matches Err(message) && message@
                    == "Expected one of 'auto', 'always', 'always-ansi', 'never'"@,
            },
    {
        if same(s, "auto") {
            Ok(Color::Auto)
        } else if same(s, "always") {
            Ok(Color::Always)
        } else if same(s, "always-ansi") {
            Ok(Color::AlwaysAnsi)
        } else if same(s, "never") {
            Ok(Color::Never)
        } else {
            Err("Expected one of 'auto', 'always', 'always-ansi', 'never'")
        }
    }
}

/// How much is told of what the program does.
#[derive(Copy, Clone, Eq, PartialEq, Structural, Debug)]
pub enum DebugLevel {
    Quiet,
    Low,
    High,
}

impl Default for DebugLevel {
    fn default() -> (res: DebugLevel)
        ensures
            res == DebugLevel::Quiet,
    {
        DebugLevel::Quiet
    }
}

/// The level that is written as `text`.
pub open spec fn level_named(text: Seq<char>) -> Option<DebugLevel> {
    if text == "none"@ {
        Some(DebugLevel::Quiet)
    } else if text == "low"@ {
        Some(DebugLevel::Low)
    } else if text == "high"@ {
        Some(DebugLevel::High)
    } else {
        None
    }
}

impl DebugLevel {
    /// The level that is written as `s`.
    pub fn from_str(s: &str) -> (res: Result<DebugLevel, &'static str>)
        ensures
            match level_named(s@) {
                Some(level) => res == Ok::<DebugLevel, &'static str>(level),
                None => res matches Err(message) && message@
                    == "Expected one of 'none', 'low', 'high'"@,
            },
    {
        if same(s, "none") {
            Ok(DebugLevel::Quiet)
        } else if same(s, "low") {
            Ok(DebugLevel::Low)
        } else if same(s, "high") {
            Ok(DebugLevel::High)
        } else {
            Err("Expected one of 'none', 'low', 'high'")
        }
    }
}

/// The files to format.
pub struct FmtOpt {
    pub input: Vec<String>,
}

/// The files to document, and where the documentation goes.
pub struct DocOpt {
    pub input: String,
    pub output: String,
}

pub enum SubOpt {
    Fmt(FmtOpt),
    Doc(DocOpt),
}

/// What the command line says.
pub struct Opt {
    pub interactive: bool,
    pub color: Color,
    pub prompt: String,
    pub debug_level: DebugLevel,
    pub no_std: bool,
    pub input: Vec<String>,
    pub subcommand_opt: Option<SubOpt>,
}

/// What is done.
#[derive(Copy, Clone, Eq, PartialEq, Structural, Debug)]
pub enum Action {
    FormatFiles,
    FormatStdin,
    Document,
    Repl,
    RunFiles,
    Usage,
}

/// What `opt` asks for. A subcommand comes first, then the repl, then files.
pub open spec fn asked(opt: Opt) -> Action {
    match opt.subcommand_opt {
        Some(SubOpt::Fmt(fmt)) => if fmt.input@.len() > 0 {
            Action::FormatFiles
        } else {
            Action::FormatStdin
        },
        Some(SubOpt::Doc(_)) => Action::Document,
        None => if opt.interactive {
            Action::Repl
        } else if opt.input@.len() > 0 {
            Action::RunFiles
        } else {
            Action::Usage
        },
    }
}

impl Opt {
    /// What the command line asks for.
    pub fn action(&self) -> (res: Action)
        ensures
            res == asked(*self),
    {
        match &self.subcommand_opt {
            Some(SubOpt::Fmt(fmt)) => {
                if fmt.input.len() > 0 {
                    Action::FormatFiles
                } else {
                    Action::FormatStdin
                }
            },
            Some(SubOpt::Doc(_)) => Action::Document,
            None => {
                if self.interactive {
                    Action::Repl
                } else if self.input.len() > 0 {
                    Action::RunFiles
                } else {
                    Action::Usage
                }
            },
        }
    }
}

/// Whether the file has to be written: a file that would not change is not touched.
pub fn has_changed(source: &str, formatted: &str) -> (res: bool)
    ensures
        res == (source@ != formatted@),
{
    !same(source, formatted)
}

/// Something that was found below a directory.
pub struct Found {
    /// The parts of its path.
    pub path: Vec<String>,
    pub is_file: bool,
    pub extension: Option<String>,
}

/// A file of source text.
pub open spec fn is_source(found: Found) -> bool {
    found.is_file && (found.extension matches Some(extension) && extension@ == "glu"@)
}

pub open spec fn path_of(found: Found) -> Seq<Seq<char>> {
    strings_view(found.path@)
}

/// `a` comes before `b`, part by part.
pub open spec fn path_before(a: Seq<Seq<char>>, b: Seq<Seq<char>>) -> bool
    decreases a.len(),
{
    if b.len() == 0 {
        false
    } else if a.len() == 0 {
        true
    } else if a[0] == b[0] {
        path_before(a.drop_first(), b.drop_first())
    } else {
        comes_before(a[0], b[0])
    }
}

fn is_path_before(a: &Vec<String>, b: &Vec<String>) -> (res: bool)
    ensures
        res == path_before(strings_view(a@), strings_view(b@)),
{
    let ghost (x, y) = (strings_view(a@), strings_view(b@));
    let mut i: usize = 0;
    assert(x.skip(0) =~= x);
    assert(y.skip(0) =~= y);
    while i < a.len() && i < b.len()
        invariant
            i <= a@.len(),
            i <= b@.len(),
            x == strings_view(a@),
            y == strings_view(b@),
            path_before(x, y) == path_before(x.skip(i as int), y.skip(i as int)),
        decreases a@.len() - i,
    {
        proof {
            assert(x.skip(i as int)[0] == a@[i as int]@);
            assert(y.skip(i as int)[0] == b@[i as int]@);
            assert(x.skip(i as int).drop_first() =~= x.skip(i + 1));
            assert(y.skip(i as int).drop_first() =~= y.skip(i + 1));
        }
        if !same(a[i].as_str(), b[i].as_str()) {
            return is_before(a[i].as_str(), b[i].as_str());
        }
        i += 1;
    }
    i >= a.len() && i < b.len()
}

fn same_path(a: &Vec<String>, b: &Vec<String>) -> (res: bool)
    ensures
        res == (strings_view(a@) == strings_view(b@)),
{
    if a.len() != b.len() {
        assert(strings_view(a@).len() != strings_view(b@).len());
        return false;
    }
    let mut i: usize = 0;
    while i < a.len()
        invariant
            i <= a@.len() == b@.len(),
            forall|j: int| 0 <= j < i ==> (#[trigger] a@[j])@ == b@[j]@,
        decreases a@.len() - i,
    {
        if !same(a[i].as_str(), b[i].as_str()) {
            assert(strings_view(a@)[i as int] != strings_view(b@)[i as int]);
            return false;
        }
        i += 1;
    }
    assert(strings_view(a@) =~= strings_view(b@));
    true
}

pub open spec fn paths_view(paths: Seq<Vec<String>>) -> Seq<Seq<Seq<char>>> {
    paths.map_values(|path: Vec<String>| strings_view(path@))
}

/// In order, each once.
pub open spec fn in_order(paths: Seq<Seq<Seq<char>>>) -> bool {
    forall|i: int, j: int|
        0 <= i < j < paths.len() ==> !path_before(#[trigger] paths[j], #[trigger] paths[i])
            && paths[i] != paths[j]
}

/// One of two different paths comes before the other.
proof fn path_before_total(a: Seq<Seq<char>>, b: Seq<Seq<char>>)
    ensures
        a != b ==> path_before(a, b) || path_before(b, a),
        a == b ==> !path_before(a, b),
    decreases a.len(),
{
    if a.len() > 0 && b.len() > 0 {
        if a[0] == b[0] {
            path_before_total(a.drop_first(), b.drop_first());
            if a.drop_first() == b.drop_first() {
                assert(a =~= seq![a[0]] + a.drop_first());
                assert(b =~= seq![b[0]] + b.drop_first());
            }
        } else {
            crate::text::comes_before_total(a[0], b[0]);
        }
    } else if a.len() == 0 && b.len() == 0 {
        assert(a =~= b);
    }
}

proof fn path_before_transitive(a: Seq<Seq<char>>, b: Seq<Seq<char>>, c: Seq<Seq<char>>)
    requires
        path_before(a, b),
        path_before(b, c),
    ensures
        path_before(a, c),
    decreases a.len(),
{
    if a.len() > 0 {
        if a[0] == b[0] && b[0] == c[0] {
            path_before_transitive(a.drop_first(), b.drop_first(), c.drop_first());
        } else if a[0] != b[0] && b[0] != c[0] {
            crate::text::comes_before_trans(a[0], b[0], c[0]);
            crate::text::comes_before_total(a[0], c[0]);
        }
    }
}

/// Puts `path` into its place among `paths`, unless it is among them.
#[verifier::rlimit(30)]
fn add_path(paths: &mut Vec<Vec<String>>, path: Vec<String>)
    requires
        in_order(paths_view(old(paths)@)),
    ensures
        in_order(paths_view(final(paths)@)),
        forall|p: Seq<Seq<char>>| #[trigger]
            paths_view(final(paths)@).contains(p) == (paths_view(old(paths)@).contains(p) || p
                == strings_view(path@)),
{
    let ghost all = paths_view(paths@);
    let ghost new = strings_view(path@);
    let mut i: usize = 0;
    while i < paths.len() && is_path_before(&paths[i], &path)
        invariant
            i <= paths@.len(),
            all == paths_view(paths@),
            all == paths_view(old(paths)@),
            new == strings_view(path@),
            forall|j: int| 0 <= j < i ==> path_before(#[trigger] all[j], new),
        decreases paths@.len() - i,
    {
        i += 1;
    }
    if i < paths.len() && same_path(&paths[i], &path) {
        proof {
            assert(all[i as int] == new);
            assert forall|p: Seq<Seq<char>>| #[trigger] all.contains(p) == (all.contains(p) || p
                == new) by {
                assert(all.contains(all[i as int]));
            }
        }
        return;
    }
    paths.insert(i, path);
    proof {
        let after = paths_view(paths@);
        assert(after =~= all.insert(i as int, new));
        assert forall|j: int| i <= j < all.len() implies path_before(new, #[trigger] all[j]) by {
            path_before_total(all[i as int], new);
            if j > i {
                path_before_total(all[i as int], all[j]);
                path_before_transitive(new, all[i as int], all[j]);
            }
        }
        assert forall|a: int, b: int| 0 <= a < b < after.len() implies !path_before(
            #[trigger] after[b],
            #[trigger] after[a],
        ) && after[a] != after[b] by {
            path_before_total(after[a], after[a]);
            if a == i {
                assert(after[b] == all[b - 1]);
                order_one_way(new, all[b - 1]);
            } else if b == i {
                assert(after[a] == all[a]);
                order_one_way(all[a], new);
            } else {
                let (x, y) = (
                    if a < i {
                        a
                    } else {
                        a - 1
                    },
                    if b < i {
                        b
                    } else {
                        b - 1
                    },
                );
                assert(after[a] == all[x]);
                assert(after[b] == all[y]);
            }
        }
        assert forall|p: Seq<Seq<char>>| #[trigger] after.contains(p) == (all.contains(p) || p
            == new) by {
            if after.contains(p) {
                let k = choose|k: int| 0 <= k < after.len() && after[k] == p;
                if k < i {
                    assert(all[k] == p);
                } else if k > i {
                    assert(all[k - 1] == p);
                }
            }
            if all.contains(p) {
                let k = choose|k: int| 0 <= k < all.len() && all[k] == p;
                if k < i {
                    assert(after[k] == p);
                } else {
                    assert(after[k + 1] == p);
                }
            }
            assert(after[i as int] == new);
        }
    }
}

/// A path that comes before another one does not come behind it.
proof fn order_one_way(a: Seq<Seq<char>>, b: Seq<Seq<char>>)
    requires
        path_before(a, b),
    ensures
        !path_before(b, a),
        a != b,
{
    path_before_total(a, a);
    if path_before(b, a) {
        path_before_transitive(a, b, a);
    }
}

/// The files of source text among `found`, in order, each once.
pub fn gluon_files(found: Vec<Found>) -> (res: Vec<Vec<String>>)
    ensures
        in_order(paths_view(res@)),
        forall|p: Seq<Seq<char>>| #[trigger]
            paths_view(res@).contains(p) == (exists|i: int|
                0 <= i < found@.len() && is_source(#[trigger] found@[i]) && path_of(found@[i]) == p),
{
    let mut res: Vec<Vec<String>> = Vec::new();
    let mut i: usize = 0;
    while i < found.len()
        invariant
            i <= found@.len(),
            in_order(paths_view(res@)),
            forall|p: Seq<Seq<char>>| #[trigger]
                paths_view(res@).contains(p) == (exists|j: int|
                    0 <= j < i && is_source(#[trigger] found@[j]) && path_of(found@[j]) == p),
        decreases found@.len() - i,
    {
        let ghost before = paths_view(res@);
        let is_glu = match &found[i].extension {
            Some(extension) => same(extension.as_str(), "glu"),
            None => false,
        };
        if found[i].is_file && is_glu {
            let path = clone_path(&found[i].path);
            add_path(&mut res, path);
            assert(is_source(found@[i as int]));
        }
        proof {
            assert forall|p: Seq<Seq<char>>| #[trigger]
                paths_view(res@).contains(p) == (exists|j: int|
                    0 <= j < i + 1 && is_source(#[trigger] found@[j]) && path_of(found@[j]) == p) by {
                if before.contains(p) {
                    let j = choose|j: int|
                        0 <= j < i && is_source(#[trigger] found@[j]) && path_of(found@[j]) == p;
                    assert(0 <= j < i + 1 && is_source(found@[j]));
                }
            }
        }
        i += 1;
    }
    res
}

fn clone_path(path: &Vec<String>) -> (res: Vec<String>)
    ensures
        strings_view(res@) == strings_view(path@),
{
    let mut res: Vec<String> = Vec::new();
    let mut i: usize = 0;
    while i < path.len()
        invariant
            i <= path@.len(),
            res@.len() == i,
            forall|j: int| 0 <= j < i ==> (#[trigger] res@[j])@ == path@[j]@,
        decreases path@.len() - i,
    {
        res.push(path[i].clone());
        i += 1;
    }
    assert(strings_view(res@) =~= strings_view(path@));
    res
}

} // verus!
