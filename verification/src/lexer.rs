//! The words of the language: names, operators, numbers, and the white space and comments between
//! them.

use vstd::prelude::*;
use crate::text::{
    is_letter, is_letter_or_number, is_whitespace, letter, letter_or_number, whitespace,
};

verus! {

/// What comes of reading something at a position.
pub enum Read<T> {
    /// It was read up to the position.
    Done(T, int),
    /// Something else stands there.
    Empty,
    /// It begins there but does not go on as it should.
    Failed,
}

/// What came of reading something at a position.
pub enum Reading<T> {
    Done(T, usize),
    Empty,
    Failed,
}

/// What the scan of white space stands in.
pub enum Blank {
    Space,
    LineComment,
    BlockComment,
}

/// `word` stands at `p`.
pub open spec fn stands_at(t: Seq<char>, p: int, word: Seq<char>) -> bool {
    0 <= p && p + word.len() <= t.len() && t.subrange(p, p + word.len()) == word
}

pub open spec fn two_at(t: Seq<char>, p: int, a: char, b: char) -> bool {
    0 <= p && p + 1 < t.len() && t[p] == a && t[p + 1] == b
}

/// Where the white space and the comments from `p` on end. A comment that does not end has no end.
pub open spec fn blank_end(t: Seq<char>, p: int, blank: Blank) -> Option<int>
    decreases
            t.len() - p,
            match blank {
                Blank::Space => 0nat,
                _ => 1nat,
            },
{
    match blank {
        Blank::Space => if 0 <= p < t.len() && is_whitespace(t[p]) {
            blank_end(t, p + 1, Blank::Space)
        } else if two_at(t, p, '/', '/') {
            blank_end(t, p + 2, Blank::LineComment)
        } else if two_at(t, p, '/', '*') {
            blank_end(t, p + 2, Blank::BlockComment)
        } else {
            Some(p)
        },
        Blank::LineComment => if 0 <= p < t.len() && t[p] != '\n' {
            blank_end(t, p + 1, Blank::LineComment)
        } else {
            blank_end(t, p, Blank::Space)
        },
        Blank::BlockComment => if two_at(t, p, '*', '/') {
            blank_end(t, p + 2, Blank::Space)
        } else if 0 <= p < t.len() {
            blank_end(t, p + 1, Blank::BlockComment)
        } else {
            None
        },
    }
}

/// `value`, and the white space behind it up to `q`.
pub open spec fn lexeme<T>(t: Seq<char>, value: T, q: int) -> Read<T> {
    match blank_end(t, q, Blank::Space) {
        Some(end) => Read::Done(value, end),
        None => Read::Failed,
    }
}

/// If it is not read to the end nothing was read.
pub open spec fn tried<T>(read: Read<T>) -> Read<T> {
    match read {
        Read::Failed => Read::Empty,
        other => other,
    }
}

/// Where the letters and numbers from `p` on end.
pub open spec fn name_end(t: Seq<char>, p: int) -> int
    decreases t.len() - p,
{
    if 0 <= p < t.len() && is_letter_or_number(t[p]) {
        name_end(t, p + 1)
    } else {
        p
    }
}

/// Where the letters from `p` on end.
pub open spec fn letters_end(t: Seq<char>, p: int) -> int
    decreases t.len() - p,
{
    if 0 <= p < t.len() && is_letter(t[p]) {
        letters_end(t, p + 1)
    } else {
        p
    }
}

pub open spec fn is_op_char(c: char) -> bool {
    c == '+' || c == '-' || c == '*' || c == '/' || c == '&' || c == '|' || c == '=' || c == '<'
        || c == '>'
}

/// Where the operator characters from `p` on end.
pub open spec fn op_end(t: Seq<char>, p: int) -> int
    decreases t.len() - p,
{
    if 0 <= p < t.len() && is_op_char(t[p]) {
        op_end(t, p + 1)
    } else {
        p
    }
}

pub open spec fn is_digit(c: char) -> bool {
    '0' <= c && c <= '9'
}

/// Where the digits from `p` on end.
pub open spec fn digits_end(t: Seq<char>, p: int) -> int
    decreases t.len() - p,
{
    if 0 <= p < t.len() && is_digit(t[p]) {
        digits_end(t, p + 1)
    } else {
        p
    }
}

/// The words that are no names.
pub open spec fn is_reserved(name: Seq<char>) -> bool {
    name == "if"@ || name == "then"@ || name == "else"@ || name == "let"@ || name == "in"@ || name
        == "type"@
}

/// The name at `p`.
#[verifier::opaque]
pub open spec fn name_at(t: Seq<char>, p: int) -> Read<Seq<char>> {
    if 0 <= p < t.len() && is_letter(t[p]) {
        let end = name_end(t, p + 1);
        let name = t.subrange(p, end);
        match lexeme(t, name, end) {
            Read::Done(name, q) => if is_reserved(name) {
                Read::Failed
            } else {
                Read::Done(name, q)
            },
            other => other,
        }
    } else {
        Read::Empty
    }
}

/// The operator at `p`.
#[verifier::opaque]
pub open spec fn op_at(t: Seq<char>, p: int) -> Read<Seq<char>> {
    if 0 <= p < t.len() && is_op_char(t[p]) {
        let end = op_end(t, p + 1);
        let name = t.subrange(p, end);
        match lexeme(t, name, end) {
            Read::Done(name, q) => if name == "->"@ {
                Read::Failed
            } else {
                Read::Done(name, q)
            },
            other => other,
        }
    } else {
        Read::Empty
    }
}

/// The character `c` at `p`.
#[verifier::opaque]
pub open spec fn char_at(t: Seq<char>, p: int, c: char) -> Read<()> {
    if 0 <= p < t.len() && t[p] == c {
        lexeme(t, (), p + 1)
    } else {
        Read::Empty
    }
}

/// The word `name` at `p`. It is not the beginning of a longer word.
#[verifier::opaque]
pub open spec fn word_at(t: Seq<char>, p: int, name: Seq<char>) -> Read<()> {
    let end = p + name.len();
    if stands_at(t, p, name) && !(end < t.len() && is_letter_or_number(t[end])) {
        lexeme(t, (), end)
    } else {
        Read::Empty
    }
}

/// The operator `name` at `p`. It is not the beginning of a longer operator.
#[verifier::opaque]
pub open spec fn reserved_op_at(t: Seq<char>, p: int, name: Seq<char>) -> Read<()> {
    let end = p + name.len();
    if stands_at(t, p, name) && !(end < t.len() && is_op_char(t[end])) {
        lexeme(t, (), end)
    } else {
        Read::Empty
    }
}

/// An arrow at `p`.
#[verifier::opaque]
pub open spec fn arrow_at(t: Seq<char>, p: int) -> Read<()> {
    if two_at(t, p, '-', '>') {
        lexeme(t, (), p + 2)
    } else if 0 <= p < t.len() && t[p] == '-' {
        Read::Failed
    } else {
        Read::Empty
    }
}

/// The name, or the operator in parentheses, at `p`.
#[verifier::opaque]
pub open spec fn ident_at(t: Seq<char>, p: int) -> Read<Seq<char>> {
    match tried(name_at(t, p)) {
        Read::Empty => tried(enclosed_op_at(t, p)),
        done => done,
    }
}

/// The operator in parentheses at `p`.
pub open spec fn enclosed_op_at(t: Seq<char>, p: int) -> Read<Seq<char>> {
    match char_at(t, p, '(') {
        Read::Done(_, q) => match op_at(t, q) {
            Read::Done(name, e) => match char_at(t, e, ')') {
                Read::Done(_, e) => Read::Done(name, e),
                _ => Read::Failed,
            },
            _ => Read::Failed,
        },
        Read::Empty => Read::Empty,
        Read::Failed => Read::Failed,
    }
}

/// The operator between two expressions at `p`: a built in one begins with `#` and letters.
#[verifier::opaque]
pub open spec fn infix_at(t: Seq<char>, p: int) -> Read<Seq<char>> {
    if 0 <= p < t.len() && t[p] == '#' {
        let end = letters_end(t, p + 1);
        match op_at(t, end) {
            Read::Done(name, q) => Read::Done(t.subrange(p, end) + name, q),
            _ => Read::Failed,
        }
    } else {
        op_at(t, p)
    }
}

/// The number that `digits` stand for. It wraps around where it is too large.
pub open spec fn number(digits: Seq<char>) -> i64
    decreases digits.len(),
{
    if digits.len() == 0 {
        0
    } else {
        number(digits.drop_last()).wrapping_mul(10).wrapping_add(
            (digits.last() as i64 - '0' as i64) as i64,
        )
    }
}

/// The integer at `p`. No point follows it.
#[verifier::opaque]
pub open spec fn integer_at(t: Seq<char>, p: int) -> Read<i64> {
    let end = digits_end(t, p);
    if end == p {
        Read::Empty
    } else {
        match lexeme(t, number(t.subrange(p, end)), end) {
            Read::Done(n, q) => if q < t.len() && t[q] == '.' {
                Read::Empty
            } else {
                Read::Done(n, q)
            },
            _ => Read::Empty,
        }
    }
}

/// `p` behind `c`, if it stands there.
pub open spec fn past(t: Seq<char>, p: int, c: char) -> int {
    if 0 <= p < t.len() && t[p] == c {
        p + 1
    } else {
        p
    }
}

/// Where the floating point number at `p` ends.
pub open spec fn float_end(t: Seq<char>, p: int) -> Option<int> {
    let start = past(t, p, '-');
    let whole = digits_end(t, start);
    let end = digits_end(t, past(t, whole, '.'));
    if whole == start {
        None
    } else if end < t.len() && (t[end] == 'e' || t[end] == 'E') {
        let exponent = past(t, end + 1, '-');
        let last = digits_end(t, exponent);
        if last == exponent {
            None
        } else {
            Some(last)
        }
    } else {
        Some(end)
    }
}

/// The floating point number at `p`, as it is written.
#[verifier::opaque]
pub open spec fn float_at(t: Seq<char>, p: int) -> Read<Seq<char>> {
    match float_end(t, p) {
        Some(end) => tried(lexeme(t, t.subrange(p, end), end)),
        None => Read::Empty,
    }
}

impl Reading<String> {
    /// The name that was read at `p` is what stands there.
    pub open spec fn names(self, read: Read<Seq<char>>, t: Seq<char>, p: int) -> bool {
        match (self, read) {
            (Reading::Done(name, q), Read::Done(text, e)) => name@ == text && q == e && p < q
                <= t.len(),
            (Reading::Empty, Read::Empty) => true,
            (Reading::Failed, Read::Failed) => true,
            _ => false,
        }
    }
}

impl Reading<()> {
    /// What was read at `p` is what stands there.
    pub open spec fn is(self, read: Read<()>, t: Seq<char>, p: int) -> bool {
        match (self, read) {
            (Reading::Done(_, q), Read::Done(_, e)) => q == e && p < q <= t.len(),
            (Reading::Empty, Read::Empty) => true,
            (Reading::Failed, Read::Failed) => true,
            _ => false,
        }
    }
}

/// A text that is read.
pub struct Lexer<'a> {
    source: &'a str,
    text: Vec<char>,
}

impl<'a> View for Lexer<'a> {
    type V = Seq<char>;

    closed spec fn view(&self) -> Seq<char> {
        self.text@
    }
}

impl<'a> Lexer<'a> {
    #[verifier::type_invariant]
    closed spec fn same_text(self) -> bool {
        self.text@ == self.source@
    }

    pub fn new(text: &'a str) -> (res: Lexer<'a>)
        ensures
            res@ == text@,
    {
        Lexer { source: text, text: crate::text::chars(text) }
    }

    fn two(&self, p: usize, a: char, b: char) -> (res: bool)
        requires
            p <= self@.len(),
        ensures
            res == two_at(self@, p as int, a, b),
            res ==> p + 2 <= usize::MAX,
    {
        self.text.len() - p > 1 && self.text[p] == a && self.text[p + 1] == b
    }

    /// Whether `c` stands at `p`.
    pub fn peek(&self, p: usize, c: char) -> (res: bool)
        ensures
            res == (p < self@.len() && self@[p as int] == c),
            res ==> p < usize::MAX,
    {
        p < self.text.len() && self.text[p] == c
    }

    /// The text from `p` to `q`.
    fn slice(&self, p: usize, q: usize) -> (res: String)
        requires
            p <= q <= self@.len(),
        ensures
            res@ == self@.subrange(p as int, q as int),
    {
        proof {
            use_type_invariant(self);
        }
        self.source.substring_char(p, q).to_owned()
    }

    /// Where the white space and the comments from `p` on end.
    pub fn white_space(&self, p: usize) -> (res: Option<usize>)
        requires
            p <= self@.len(),
        ensures
            match res {
                Some(q) => blank_end(self@, p as int, Blank::Space) == Some(q as int) && p <= q
                    <= self@.len(),
                None => blank_end(self@, p as int, Blank::Space) is None,
            },
    {
        let len: usize = self.text.len();
        let mut q: usize = p;
        loop
            invariant
                len == self@.len(),
                p <= q <= len,
                blank_end(self@, p as int, Blank::Space) == blank_end(
                    self@,
                    q as int,
                    Blank::Space,
                ),
            decreases len - q,
        {
            let ghost before = q;
            if q < len && whitespace(self.text[q]) {
                q += 1;
            } else if self.two(q, '/', '/') {
                q += 2;
                while q < len && self.text[q] != '\n'
                    invariant
                        len == self@.len(),
                        p <= q <= len,
                        before < q,
                        blank_end(self@, p as int, Blank::Space) == blank_end(
                            self@,
                            q as int,
                            Blank::LineComment,
                        ),
                    decreases len - q,
                {
                    q += 1;
                }
            } else if self.two(q, '/', '*') {
                q += 2;
                while !self.two(q, '*', '/')
                    invariant
                        len == self@.len(),
                        p <= q <= len,
                        before < q,
                        blank_end(self@, p as int, Blank::Space) == blank_end(
                            self@,
                            q as int,
                            Blank::BlockComment,
                        ),
                    decreases len - q,
                {
                    if q >= len {
                        return None;
                    }
                    q += 1;
                }
                q += 2;
            } else {
                return Some(q);
            }
        }
    }

    fn name_end(&self, p: usize) -> (res: usize)
        requires
            p <= self@.len(),
        ensures
            res == name_end(self@, p as int),
            p <= res <= self@.len(),
    {
        let mut q: usize = p;
        while q < self.text.len() && letter_or_number(self.text[q])
            invariant
                p <= q <= self@.len(),
                name_end(self@, p as int) == name_end(self@, q as int),
            decreases self@.len() - q,
        {
            q += 1;
        }
        q
    }

    fn letters_end(&self, p: usize) -> (res: usize)
        requires
            p <= self@.len(),
        ensures
            res == letters_end(self@, p as int),
            p <= res <= self@.len(),
    {
        let mut q: usize = p;
        while q < self.text.len() && letter(self.text[q])
            invariant
                p <= q <= self@.len(),
                letters_end(self@, p as int) == letters_end(self@, q as int),
            decreases self@.len() - q,
        {
            q += 1;
        }
        q
    }

    fn op_char(&self, p: usize) -> (res: bool)
        ensures
            res == (p < self@.len() && is_op_char(self@[p as int])),
            res ==> p < usize::MAX,
    {
        if p < self.text.len() {
            let c = self.text[p];
            c == '+' || c == '-' || c == '*' || c == '/' || c == '&' || c == '|' || c == '=' || c
                == '<' || c == '>'
        } else {
            false
        }
    }

    fn op_end(&self, p: usize) -> (res: usize)
        requires
            p <= self@.len(),
        ensures
            res == op_end(self@, p as int),
            p <= res <= self@.len(),
    {
        let mut q: usize = p;
        while self.op_char(q)
            invariant
                p <= q <= self@.len(),
                op_end(self@, p as int) == op_end(self@, q as int),
            decreases self@.len() - q,
        {
            q += 1;
        }
        q
    }

    fn digits_end(&self, p: usize) -> (res: usize)
        requires
            p <= self@.len(),
        ensures
            res == digits_end(self@, p as int),
            p <= res <= self@.len(),
            forall|i: int| p <= i < res ==> is_digit(#[trigger] self@[i]),
    {
        let mut q: usize = p;
        while q < self.text.len() && '0' <= self.text[q] && self.text[q] <= '9'
            invariant
                p <= q <= self@.len(),
                digits_end(self@, p as int) == digits_end(self@, q as int),
                forall|i: int| p <= i < q ==> is_digit(#[trigger] self@[i]),
            decreases self@.len() - q,
        {
            q += 1;
        }
        q
    }

    /// The name at `p`.
    fn name(&self, p: usize) -> (res: Reading<String>)
        requires
            p <= self@.len(),
        ensures
            res.names(name_at(self@, p as int), self@, p as int),
    {
        reveal(name_at);
        if p < self.text.len() && letter(self.text[p]) {
            let end: usize = self.name_end(p + 1);
            let name = self.slice(p, end);
            match self.white_space(end) {
                Some(q) => {
                    if name == "if".to_owned() || name == "then".to_owned() || name
                        == "else".to_owned() || name == "let".to_owned() || name
                        == "in".to_owned() || name == "type".to_owned() {
                        Reading::Failed
                    } else {
                        Reading::Done(name, q)
                    }
                },
                None => Reading::Failed,
            }
        } else {
            Reading::Empty
        }
    }

    /// The operator at `p`.
    fn op(&self, p: usize) -> (res: Reading<String>)
        requires
            p <= self@.len(),
        ensures
            res.names(op_at(self@, p as int), self@, p as int),
    {
        reveal(op_at);
        if self.op_char(p) {
            let end: usize = self.op_end(p + 1);
            let name = self.slice(p, end);
            match self.white_space(end) {
                Some(q) => {
                    if name == "->".to_owned() {
                        Reading::Failed
                    } else {
                        Reading::Done(name, q)
                    }
                },
                None => Reading::Failed,
            }
        } else {
            Reading::Empty
        }
    }

    /// The character `c` at `p`.
    pub fn character(&self, p: usize, c: char) -> (res: Reading<()>)
        requires
            p <= self@.len(),
        ensures
            res.is(char_at(self@, p as int, c), self@, p as int),
    {
        reveal(char_at);
        if self.peek(p, c) {
            match self.white_space(p + 1) {
                Some(q) => Reading::Done((), q),
                None => Reading::Failed,
            }
        } else {
            Reading::Empty
        }
    }

    fn stands(&self, p: usize, word: &str) -> (res: bool)
        requires
            p <= self@.len(),
        ensures
            res == stands_at(self@, p as int, word@),
            res ==> p + word@.len() <= usize::MAX,
    {
        let n: usize = word.unicode_len();
        if n > self.text.len() - p {
            return false;
        }
        let here = self.slice(p, p + n);
        here == word.to_owned()
    }

    /// The word `name` at `p`.
    pub fn reserved(&self, p: usize, name: &str) -> (res: Reading<()>)
        requires
            p <= self@.len(),
            name@.len() > 0,
        ensures
            res.is(word_at(self@, p as int, name@), self@, p as int),
    {
        reveal(word_at);
        if self.stands(p, name) {
            let end: usize = p + name.unicode_len();
            if end < self.text.len() && letter_or_number(self.text[end]) {
                return Reading::Empty;
            }
            match self.white_space(end) {
                Some(q) => Reading::Done((), q),
                None => Reading::Failed,
            }
        } else {
            Reading::Empty
        }
    }

    /// The operator `name` at `p`.
    pub fn reserved_op(&self, p: usize, name: &str) -> (res: Reading<()>)
        requires
            p <= self@.len(),
            name@.len() > 0,
        ensures
            res.is(reserved_op_at(self@, p as int, name@), self@, p as int),
    {
        reveal(reserved_op_at);
        if self.stands(p, name) {
            let end: usize = p + name.unicode_len();
            if self.op_char(end) {
                return Reading::Empty;
            }
            match self.white_space(end) {
                Some(q) => Reading::Done((), q),
                None => Reading::Failed,
            }
        } else {
            Reading::Empty
        }
    }

    /// An arrow at `p`.
    pub fn arrow(&self, p: usize) -> (res: Reading<()>)
        requires
            p <= self@.len(),
        ensures
            res.is(arrow_at(self@, p as int), self@, p as int),
    {
        reveal(arrow_at);
        if self.two(p, '-', '>') {
            match self.white_space(p + 2) {
                Some(q) => Reading::Done((), q),
                None => Reading::Failed,
            }
        } else if self.peek(p, '-') {
            Reading::Failed
        } else {
            Reading::Empty
        }
    }

    /// The name, or the operator in parentheses, at `p`.
    pub fn ident(&self, p: usize) -> (res: Reading<String>)
        requires
            p <= self@.len(),
        ensures
            res.names(ident_at(self@, p as int), self@, p as int),
    {
        reveal(ident_at);
        if let Reading::Done(name, q) = self.name(p) {
            return Reading::Done(name, q);
        }
        if let Reading::Done(_, q) = self.character(p, '(') {
            if let Reading::Done(name, e) = self.op(q) {
                if let Reading::Done(_, e) = self.character(e, ')') {
                    return Reading::Done(name, e);
                }
            }
        }
        Reading::Empty
    }

    /// The name at `p`, which is no operator.
    pub fn plain_name(&self, p: usize) -> (res: Reading<String>)
        requires
            p <= self@.len(),
        ensures
            res.names(tried(name_at(self@, p as int)), self@, p as int),
    {
        match self.name(p) {
            Reading::Failed => Reading::Empty,
            other => other,
        }
    }

    /// The operator between two expressions at `p`.
    pub fn infix(&self, p: usize) -> (res: Reading<String>)
        requires
            p <= self@.len(),
        ensures
            res.names(infix_at(self@, p as int), self@, p as int),
    {
        reveal(infix_at);
        if self.peek(p, '#') {
            let end: usize = self.letters_end(p + 1);
            match self.op(end) {
                Reading::Done(name, q) => {
                    let mut builtin = self.slice(p, end);
                    builtin.append(name.as_str());
                    Reading::Done(builtin, q)
                },
                _ => Reading::Failed,
            }
        } else {
            self.op(p)
        }
    }

    fn number(&self, p: usize, end: usize) -> (res: i64)
        requires
            p <= end <= self@.len(),
            forall|i: int| p <= i < end ==> is_digit(#[trigger] self@[i]),
        ensures
            res == number(self@.subrange(p as int, end as int)),
    {
        let mut n: i64 = 0;
        let mut i: usize = p;
        while i < end
            invariant
                p <= i <= end <= self@.len(),
                n == number(self@.subrange(p as int, i as int)),
                forall|i: int| p <= i < end ==> is_digit(#[trigger] self@[i]),
            decreases end - i,
        {
            assert(is_digit(self@[i as int]));
            let digit: i64 = self.text[i] as i64 - '0' as i64;
            proof {
                let more = self@.subrange(p as int, i + 1);
                assert(more.drop_last() =~= self@.subrange(p as int, i as int));
            }
            n = n.wrapping_mul(10).wrapping_add(digit);
            i += 1;
        }
        n
    }

    /// The integer at `p`.
    pub fn integer(&self, p: usize) -> (res: Option<(i64, usize)>)
        requires
            p <= self@.len(),
        ensures
            match res {
                Some((n, q)) => integer_at(self@, p as int) == Read::Done(n, q as int) && p < q
                    <= self@.len(),
                None => integer_at(self@, p as int) is Empty,
            },
    {
        reveal(integer_at);
        let end: usize = self.digits_end(p);
        if end == p {
            return None;
        }
        match self.white_space(end) {
            Some(q) => {
                if self.peek(q, '.') {
                    None
                } else {
                    Some((self.number(p, end), q))
                }
            },
            None => None,
        }
    }

    fn past(&self, p: usize, c: char) -> (res: usize)
        requires
            p <= self@.len(),
        ensures
            res == past(self@, p as int, c),
            p <= res <= self@.len(),
    {
        if self.peek(p, c) {
            p + 1
        } else {
            p
        }
    }

    fn float_end(&self, p: usize) -> (res: Option<usize>)
        requires
            p <= self@.len(),
        ensures
            match res {
                Some(end) => float_end(self@, p as int) == Some(end as int) && p < end
                    <= self@.len(),
                None => float_end(self@, p as int) is None,
            },
    {
        let start: usize = self.past(p, '-');
        let whole: usize = self.digits_end(start);
        if whole == start {
            return None;
        }
        let fraction: usize = self.past(whole, '.');
        let end: usize = self.digits_end(fraction);
        if self.peek(end, 'e') || self.peek(end, 'E') {
            let exponent: usize = self.past(end + 1, '-');
            let last: usize = self.digits_end(exponent);
            if last == exponent {
                None
            } else {
                Some(last)
            }
        } else {
            Some(end)
        }
    }

    /// The floating point number at `p`, as it is written.
    pub fn float(&self, p: usize) -> (res: Reading<String>)
        requires
            p <= self@.len(),
        ensures
            res.names(float_at(self@, p as int), self@, p as int),
    {
        reveal(float_at);
        match self.float_end(p) {
            Some(end) => match self.white_space(end) {
                Some(q) => Reading::Done(self.slice(p, end), q),
                None => Reading::Empty,
            },
            None => Reading::Empty,
        }
    }

    /// Whether the character at `p` is a line break.
    pub fn breaks_line(&self, p: usize) -> (res: bool)
        ensures
            res == (p < self@.len() && self@[p as int] == '\n'),
    {
        self.peek(p, '\n')
    }
}

} // verus!
