//! Source text, and the comments in it.

use vstd::prelude::*;
use vstd::string::*;
use vstd::utf8::*;
use crate::text::chars;

verus! {

/// A source text.
pub struct Source {
    src: String,
}

impl View for Source {
    type V = Seq<char>;

    closed spec fn view(&self) -> Seq<char> {
        self.src@
    }
}

/// The text between two positions, which have to lie between characters.
pub open spec fn slice(src: Seq<char>, start: int, end: int) -> Option<Seq<char>> {
    let bytes = encode_utf8(src);
    if is_char_boundary(bytes, end) && 0 <= end <= bytes.len() && is_char_boundary(
        bytes.subrange(0, end),
        start,
    ) && 0 <= start <= end {
        Some(decode_utf8(bytes.subrange(0, end).subrange(start, end)))
    } else {
        None
    }
}

/// A space that is no line break.
pub open spec fn blank(c: char) -> bool {
    c == ' ' || c == '\t' || c == '\r'
}

/// The position of the first line break in `text` from `from` on, or the end of the text.
pub open spec fn line_end(text: Seq<char>, from: int) -> int
    decreases text.len() - from,
{
    if from < 0 || from >= text.len() {
        text.len() as int
    } else if text[from] == '\n' {
        from
    } else {
        line_end(text, from + 1)
    }
}

/// The position behind the first end of a block comment in `text` from `from` on.
pub open spec fn block_end(text: Seq<char>, from: int) -> Option<int>
    decreases text.len() - from,
{
    if from < 0 || from + 1 >= text.len() {
        None
    } else if text[from] == '*' && text[from + 1] == '/' {
        Some(from + 2)
    } else {
        block_end(text, from + 1)
    }
}

pub proof fn line_end_bounds(text: Seq<char>, from: int)
    requires
        0 <= from <= text.len(),
    ensures
        from <= line_end(text, from) <= text.len(),
    decreases text.len() - from,
{
    if from < text.len() && text[from] != '\n' {
        line_end_bounds(text, from + 1);
    }
}

pub proof fn block_end_bounds(text: Seq<char>, from: int)
    requires
        0 <= from,
    ensures
        block_end(text, from) matches Some(end) ==> from + 2 <= end <= text.len(),
    decreases text.len() - from,
{
    if from + 1 < text.len() && !(text[from] == '*' && text[from + 1] == '/') {
        block_end_bounds(text, from + 1);
    }
}

/// What stands at a position of a text.
pub enum Lexeme {
    /// A blank
    Blank,
    /// A line break
    Break,
    /// A comment up to a position, and the position behind it
    Comment(int, int),
    /// Something else, or the end of the text
    Other,
}

/// What stands in `text` at `at`. A documentation comment is no comment, nor is a block comment
/// that does not end.
pub open spec fn lexeme(text: Seq<char>, at: int) -> Lexeme {
    if at < 0 || at >= text.len() {
        Lexeme::Other
    } else if blank(text[at]) {
        Lexeme::Blank
    } else if text[at] == '\n' {
        Lexeme::Break
    } else if text[at] == '/' && at + 1 < text.len() && text[at + 1] == '/' {
        if at + 2 < text.len() && text[at + 2] == '/' {
            Lexeme::Other
        } else {
            let end = line_end(text, at);
            Lexeme::Comment(
                end,
                if end < text.len() {
                    end + 1
                } else {
                    end
                },
            )
        }
    } else if text[at] == '/' && at + 1 < text.len() && text[at + 1] == '*' {
        match block_end(text, at + 2) {
            Some(end) => Lexeme::Comment(end, end),
            None => Lexeme::Other,
        }
    } else {
        Lexeme::Other
    }
}

/// The comments in `text` from `at` on, up to something that is none, and where that stands. A line
/// break is an empty comment, but for the one that ends a line comment.
pub open spec fn comments_from(text: Seq<char>, at: int) -> (Seq<Seq<char>>, int)
    decreases text.len() - at,
{
    match lexeme(text, at) {
        Lexeme::Other => (Seq::empty(), at),
        Lexeme::Blank => comments_from(text, at + 1),
        Lexeme::Break => {
            let (more, end) = comments_from(text, at + 1);
            (seq![Seq::<char>::empty()] + more, end)
        },
        Lexeme::Comment(end, next) => if at < next && next <= text.len() {
            let (more, last) = comments_from(text, next);
            (seq![text.subrange(at, end)] + more, last)
        } else {
            (Seq::empty(), at)
        },
    }
}

/// The comments at the start of `text`.
pub open spec fn leading_comments(text: Seq<char>) -> Seq<Seq<char>> {
    comments_from(text, 0).0
}

/// The comments in `text` behind the first thing that is none, or all of them if there is no such
/// thing.
pub open spec fn trailing_comments(text: Seq<char>) -> Seq<Seq<char>> {
    let (all, end) = comments_from(text, 0);
    if end < text.len() {
        comments_from(text, end + 1).0
    } else {
        all
    }
}

/// The comments in `text`, which stands before what a record extends, before the comma in it, before
/// the dots behind that, and behind those. Where there is no comma nothing stands before it.
pub open spec fn base_comments(text: Seq<char>) -> (Seq<Seq<char>>, Seq<Seq<char>>, Seq<Seq<char>>) {
    let (first, end) = comments_from(text, 0);
    let comma = end < text.len() && text[end] == ',';
    let (second, dots) = if comma {
        comments_from(text, end + 1)
    } else {
        (first, end)
    };
    let third = if dots + 2 <= text.len() {
        comments_from(text, dots + 2).0
    } else {
        Seq::empty()
    };
    (
        if comma {
            first
        } else {
            Seq::empty()
        },
        second,
        third,
    )
}

pub open spec fn texts(strings: Seq<String>) -> Seq<Seq<char>> {
    strings.map_values(|s: String| s@)
}

/// The comments in `text` from `at` on.
#[verifier::rlimit(30)]
fn scan_comments(text: &str, all: &Vec<char>, at: usize) -> (res: (Vec<String>, usize))
    requires
        all@ == text@,
        at <= all@.len(),
    ensures
        texts(res.0@) == comments_from(text@, at as int).0,
        res.1 == comments_from(text@, at as int).1,
        res.1 <= all@.len(),
{
    let mut comments: Vec<String> = Vec::new();
    let mut i: usize = at;
    let ghost whole = comments_from(text@, at as int);
    assert(texts(comments@) =~= Seq::<Seq<char>>::empty());
    assert(Seq::<Seq<char>>::empty() + whole.0 =~= whole.0);
    loop
        invariant
            all@ == text@,
            i <= all@.len(),
            whole == comments_from(text@, at as int),
            texts(comments@) + comments_from(text@, i as int).0 == whole.0,
            comments_from(text@, i as int).1 == whole.1,
        decreases all@.len() - i,
    {
        let ghost before = texts(comments@);
        let ghost later = comments_from(text@, i as int).0;
        if i >= all.len() {
            assert(before + Seq::<Seq<char>>::empty() =~= before);
            return (comments, i);
        }
        let c = all[i];
        if c == ' ' || c == '\t' || c == '\r' {
            i += 1;
        } else if c == '\n' {
            comments.push(String::new());
            proof {
                let more = comments_from(text@, i + 1).0;
                assert(texts(comments@) =~= before.push(Seq::<char>::empty()));
                assert(texts(comments@) + more =~= before + (seq![Seq::<char>::empty()] + more));
            }
            i += 1;
        } else if c == '/' && i + 1 < all.len() && all[i + 1] == '/' {
            if i + 2 < all.len() && all[i + 2] == '/' {
                assert(before + Seq::<Seq<char>>::empty() =~= before);
                return (comments, i);
            }
            proof {
                line_end_bounds(text@, i as int);
            }
            let end: usize = find_line_end(all, i);
            let next: usize = if end < all.len() {
                end + 1
            } else {
                end
            };
            comments.push(text.substring_char(i, end).to_owned());
            proof {
                assert(end > i) by {
                    line_end_bounds(text@, i + 1);
                }
                let comment = text@.subrange(i as int, end as int);
                let more = comments_from(text@, next as int).0;
                assert(texts(comments@) =~= before.push(comment));
                assert(texts(comments@) + more =~= before + (seq![comment] + more));
            }
            i = next;
        } else if c == '/' && i + 1 < all.len() && all[i + 1] == '*' {
            proof {
                block_end_bounds(text@, i + 2);
            }
            match find_block_end(all, i + 2) {
                Some(end) => {
                    comments.push(text.substring_char(i, end).to_owned());
                    proof {
                        let comment = text@.subrange(i as int, end as int);
                        let more = comments_from(text@, end as int).0;
                        assert(texts(comments@) =~= before.push(comment));
                        assert(texts(comments@) + more =~= before + (seq![comment] + more));
                    }
                    i = end;
                },
                None => {
                    assert(before + Seq::<Seq<char>>::empty() =~= before);
                    return (comments, i);
                },
            }
        } else {
            assert(before + Seq::<Seq<char>>::empty() =~= before);
            return (comments, i);
        }
    }
}

fn find_line_end(all: &Vec<char>, from: usize) -> (res: usize)
    requires
        from <= all@.len(),
    ensures
        res == line_end(all@, from as int),
        from <= res <= all@.len(),
{
    let mut i: usize = from;
    while i < all.len()
        invariant
            from <= i <= all@.len(),
            line_end(all@, from as int) == line_end(all@, i as int),
        decreases all@.len() - i,
    {
        if all[i] == '\n' {
            return i;
        }
        i += 1;
    }
    i
}

fn find_block_end(all: &Vec<char>, from: usize) -> (res: Option<usize>)
    requires
        from <= all@.len(),
    ensures
        match res {
            Some(end) => block_end(all@, from as int) == Some(end as int),
            None => block_end(all@, from as int) is None,
        },
{
    let mut i: usize = from;
    while i < all.len() && i + 1 < all.len()
        invariant
            from <= i <= all@.len(),
            block_end(all@, from as int) == block_end(all@, i as int),
        decreases all@.len() - i,
    {
        if all[i] == '*' && all[i + 1] == '/' {
            return Some(i + 2);
        }
        i += 1;
    }
    None
}

impl Source {
    pub fn new(src: String) -> (res: Source)
        ensures
            res@ == src@,
    {
        Source { src }
    }

    /// The whole text.
    pub fn src(&self) -> (res: &str)
        ensures
            res@ == self@,
    {
        self.src.as_str()
    }

    /// The text between two positions.
    pub fn slice(&self, start: usize, end: usize) -> (res: &str)
        requires
            slice(self@, start as int, end as int) is Some,
        ensures
            slice(self@, start as int, end as int) == Some(res@),
    {
        let src = self.src.as_str();
        let before = src.split_at(end).0;
        let res = before.split_at(start).1;
        proof {
            assert(res.spec_bytes() =~= encode_utf8(self@).subrange(0, end as int).subrange(
                start as int,
                end as int,
            ));
            encode_utf8_decode_utf8(res@);
        }
        res
    }

    /// The comments at the start of the text between two positions.
    pub fn comments_between(&self, start: usize, end: usize) -> (res: Vec<String>)
        requires
            slice(self@, start as int, end as int) is Some,
        ensures
            texts(res@) == leading_comments(slice(self@, start as int, end as int)->0),
    {
        let text = self.slice(start, end);
        let all = chars(text);
        scan_comments(text, &all, 0).0
    }

    /// The comments in the text between two positions that stand behind the first thing there that
    /// is none.
    pub fn comments_behind(&self, start: usize, end: usize) -> (res: Vec<String>)
        requires
            slice(self@, start as int, end as int) is Some,
        ensures
            texts(res@) == trailing_comments(slice(self@, start as int, end as int)->0),
    {
        let text = self.slice(start, end);
        let all = chars(text);
        let (comments, stop) = scan_comments(text, &all, 0);
        if stop < all.len() {
            scan_comments(text, &all, stop + 1).0
        } else {
            comments
        }
    }

    /// The comments in the text between two positions, which stands before what a record extends.
    pub fn comments_before_base(&self, start: usize, end: usize) -> (res: (
        Vec<String>,
        Vec<String>,
        Vec<String>,
    ))
        requires
            slice(self@, start as int, end as int) is Some,
        ensures
            (texts(res.0@), texts(res.1@), texts(res.2@)) == base_comments(
                slice(self@, start as int, end as int)->0,
            ),
    {
        let text = self.slice(start, end);
        let all = chars(text);
        let (first, stop) = scan_comments(text, &all, 0);
        let none: Vec<String> = Vec::new();
        assert(texts(none@) =~= Seq::<Seq<char>>::empty());
        let (first, second, dots) = if stop < all.len() && all[stop] == ',' {
            let (second, dots) = scan_comments(text, &all, stop + 1);
            (first, second, dots)
        } else {
            (none, first, stop)
        };
        if dots < all.len() && dots + 1 < all.len() {
            let third = scan_comments(text, &all, dots + 2).0;
            (first, second, third)
        } else {
            let third: Vec<String> = Vec::new();
            assert(texts(third@) =~= Seq::<Seq<char>>::empty());
            (first, second, third)
        }
    }
}

} // verus!
