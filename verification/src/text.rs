//! Operations on text that the rest of the library is written with.

use vstd::prelude::*;
use vstd::string::*;

verus! {

/// The decimal digit `d`.
pub open spec fn digit(d: nat) -> char {
    (('0' as u32) + (d as u32)) as char
}

/// The decimal numeral of `n`, without leading zeros.
pub open spec fn decimal(n: nat) -> Seq<char>
    decreases n,
{
    if n < 10 {
        seq![digit(n)]
    } else {
        decimal(n / 10).push(digit(n % 10))
    }
}

/// `prefix` begins `text`.
pub open spec fn begins(text: Seq<char>, prefix: Seq<char>) -> bool {
    &&& prefix.len() <= text.len()
    &&& text.subrange(0, prefix.len() as int) == prefix
}

/// Whether `a` and `b` hold the same characters.
pub fn same(a: &str, b: &str) -> (res: bool)
    ensures
        res == (a@ == b@),
{
    a.to_owned() == b.to_owned()
}

/// Whether `text` begins with `prefix`.
pub fn starts_with(text: &str, prefix: &str) -> (res: bool)
    ensures
        res == begins(text@, prefix@),
{
    let n: usize = prefix.unicode_len();
    if n > text.unicode_len() {
        return false;
    }
    same(text.substring_char(0, n), prefix)
}

/// The decimal digit `d` as text.
fn digit_str(d: u8) -> (res: &'static str)
    requires
        d < 10,
    ensures
        res@ == seq![digit(d as nat)],
{
    proof {
        reveal_strlit("0");
        reveal_strlit("1");
        reveal_strlit("2");
        reveal_strlit("3");
        reveal_strlit("4");
        reveal_strlit("5");
        reveal_strlit("6");
        reveal_strlit("7");
        reveal_strlit("8");
        reveal_strlit("9");
    }
    let res = match d {
        0 => "0",
        1 => "1",
        2 => "2",
        3 => "3",
        4 => "4",
        5 => "5",
        6 => "6",
        7 => "7",
        8 => "8",
        _ => "9",
    };
    assert(res@ =~= seq![digit(d as nat)]);
    res
}

/// The decimal numeral of `n`.
pub fn decimal_string(n: u64) -> (res: String)
    ensures
        res@ == decimal(n as nat),
    decreases n,
{
    if n < 10 {
        digit_str(n as u8).to_owned()
    } else {
        let mut res = decimal_string(n / 10);
        res.append(digit_str((n % 10) as u8));
        assert(res@ =~= decimal(n as nat / 10).push(digit(n as nat % 10)));
        res
    }
}

/// The characters of `text` in order.
pub fn chars(text: &str) -> (res: Vec<char>)
    ensures
        res@ == text@,
{
    let mut res: Vec<char> = Vec::new();
    let n: usize = text.unicode_len();
    let mut i: usize = 0;
    while i < n
        invariant
            n == text@.len(),
            i <= n,
            res@ == text@.subrange(0, i as int),
        decreases n - i,
    {
        res.push(text.get_char(i));
        assert(text@.subrange(0, i + 1) =~= text@.subrange(0, i as int).push(text@[i as int]));
        i += 1;
    }
    assert(text@.subrange(0, n as int) =~= text@);
    res
}

/// `a` followed by `b`.
pub fn join(a: &str, b: &str) -> (res: String)
    ensures
        res@ == a@ + b@,
{
    let mut res = a.to_owned();
    res.append(b);
    res
}

/// `line` without the carriage return that belongs to the line break behind it.
pub open spec fn strip_return(line: Seq<char>) -> Seq<char> {
    if line.len() > 0 && line.last() == '\r' {
        line.drop_last()
    } else {
        line
    }
}

/// The lines of `text` from `start` on, of which the first has no line break before `at`.
pub open spec fn lines_from(text: Seq<char>, start: int, at: int) -> Seq<Seq<char>>
    decreases text.len() - at,
{
    if at < 0 || at >= text.len() {
        if start < text.len() {
            seq![text.subrange(start, text.len() as int)]
        } else {
            Seq::empty()
        }
    } else if text[at] == '\n' {
        seq![strip_return(text.subrange(start, at))] + lines_from(text, at + 1, at + 1)
    } else {
        lines_from(text, start, at + 1)
    }
}

/// The lines of `text`. A line break at the end of the text begins no line.
pub open spec fn lines_of(text: Seq<char>) -> Seq<Seq<char>> {
    lines_from(text, 0, 0)
}

pub open spec fn strings_view(strings: Seq<String>) -> Seq<Seq<char>> {
    strings.map_values(|s: String| s@)
}

/// The lines of `text`.
pub fn lines(text: &str) -> (res: Vec<String>)
    ensures
        strings_view(res@) == lines_of(text@),
{
    let all = chars(text);
    let mut res: Vec<String> = Vec::new();
    let mut start: usize = 0;
    let mut i: usize = 0;
    assert(strings_view(res@) =~= Seq::<Seq<char>>::empty());
    assert(Seq::<Seq<char>>::empty() + lines_of(text@) =~= lines_of(text@));
    while i < all.len()
        invariant
            all@ == text@,
            start <= i <= all@.len(),
            strings_view(res@) + lines_from(text@, start as int, i as int) == lines_of(text@),
        decreases all@.len() - i,
    {
        if all[i] == '\n' {
            let ghost before = strings_view(res@);
            let ghost line = text@.subrange(start as int, i as int);
            let end: usize = if i > start && all[i - 1] == '\r' {
                i - 1
            } else {
                i
            };
            res.push(text.substring_char(start, end).to_owned());
            proof {
                assert(text@.subrange(start as int, end as int) =~= strip_return(line));
                assert(strings_view(res@) =~= before.push(strip_return(line)));
                let more = lines_from(text@, i + 1, i + 1);
                assert(strings_view(res@) + more =~= before + (seq![strip_return(line)] + more));
            }
            i += 1;
            start = i;
        } else {
            i += 1;
        }
    }
    let ghost before = strings_view(res@);
    if start < all.len() {
        res.push(text.substring_char(start, all.len()).to_owned());
        proof {
            let line = text@.subrange(start as int, text@.len() as int);
            assert(strings_view(res@) =~= before + seq![line]);
        }
    } else {
        assert(before + Seq::<Seq<char>>::empty() =~= before);
    }
    res
}

/// Whether `c` is white space.
pub uninterp spec fn is_whitespace(c: char) -> bool;

/// Trusted: `char::is_whitespace`, which tells whether `c` has the Unicode property `White_Space`.
/// The space, the tab and the line break have it, printable ASCII characters do not.
#[verifier::external_body]
pub(crate) fn whitespace(c: char) -> (res: bool)
    ensures
        res == is_whitespace(c),
        c == ' ' || c == '\t' || c == '\n' || c == '\r' ==> res,
        '!' <= c && c <= '~' ==> !res,
{
    c.is_whitespace()
}

/// Whether `c` is a letter.
pub uninterp spec fn is_letter(c: char) -> bool;

/// Trusted: `char::is_alphabetic`, which tells whether `c` has the Unicode property `Alphabetic`.
/// Of the ASCII characters the letters have it and no others.
#[verifier::external_body]
pub(crate) fn letter(c: char) -> (res: bool)
    ensures
        res == is_letter(c),
        c <= '\u{7f}' ==> res == ('a' <= c && c <= 'z' || 'A' <= c && c <= 'Z'),
{
    c.is_alphabetic()
}

/// Whether `c` is a letter or a number.
pub uninterp spec fn is_letter_or_number(c: char) -> bool;

/// Trusted: `char::is_alphanumeric`, which tells whether `c` is alphabetic or numeric. Of the ASCII
/// characters the letters and the digits are and no others.
#[verifier::external_body]
pub(crate) fn letter_or_number(c: char) -> (res: bool)
    ensures
        res == is_letter_or_number(c),
        c <= '\u{7f}' ==> res == ('a' <= c && c <= 'z' || 'A' <= c && c <= 'Z' || '0' <= c && c
            <= '9'),
{
    c.is_alphanumeric()
}

/// Whether `c` is a lower case letter.
pub uninterp spec fn is_lowercase(c: char) -> bool;

/// Trusted: `char::is_lowercase`, which tells whether `c` has the Unicode property `Lowercase`. Of
/// the ASCII characters the lower case letters have it and no others.
#[verifier::external_body]
pub(crate) fn lowercase(c: char) -> (res: bool)
    ensures
        res == is_lowercase(c),
        c <= '\u{7f}' ==> res == ('a' <= c && c <= 'z'),
{
    c.is_lowercase()
}

/// `text` without the white space at its end.
pub open spec fn trimmed_right(text: Seq<char>) -> Seq<char>
    decreases text.len(),
{
    if text.len() > 0 && is_whitespace(text.last()) {
        trimmed_right(text.drop_last())
    } else {
        text
    }
}

/// `text` without the white space at its end.
pub fn trim_right(text: &str) -> (res: &str)
    ensures
        res@ == trimmed_right(text@),
{
    let mut end: usize = text.unicode_len();
    assert(text@.take(end as int) =~= text@);
    while end > 0
        invariant
            end <= text@.len(),
            trimmed_right(text@.take(end as int)) == trimmed_right(text@),
        decreases end,
    {
        proof {
            assert(text@.take(end as int).drop_last() =~= text@.take(end - 1));
        }
        if !whitespace(text.get_char(end - 1)) {
            assert(text@.subrange(0, end as int) =~= text@.take(end as int));
            return text.substring_char(0, end);
        }
        end -= 1;
    }
    assert(text@.subrange(0, 0) =~= text@.take(0));
    text.substring_char(0, 0)
}

/// The first `n` of `lines` without the white space at their ends, with `newline` behind each.
pub open spec fn trimmed_lines(lines: Seq<Seq<char>>, newline: Seq<char>, n: nat) -> Seq<char>
    decreases n,
{
    if n == 0 || n > lines.len() {
        Seq::empty()
    } else {
        trimmed_lines(lines, newline, (n - 1) as nat) + trimmed_right(lines[n - 1]) + newline
    }
}

/// The lines of `text` without the white space at their ends, with `newline` behind each.
pub fn trim_lines(text: &str, newline: &str) -> (res: String)
    ensures
        res@ == trimmed_lines(lines_of(text@), newline@, lines_of(text@).len()),
{
    let all = lines(text);
    let ghost views = lines_of(text@);
    let mut res = String::new();
    let mut i: usize = 0;
    while i < all.len()
        invariant
            i <= all@.len(),
            views == strings_view(all@),
            res@ == trimmed_lines(views, newline@, i as nat),
        decreases all@.len() - i,
    {
        assert(views[i as int] == all@[i as int]@);
        res.append(trim_right(all[i].as_str()));
        res.append(newline);
        i += 1;
    }
    res
}

/// `a` comes before `b` in the order of their characters.
pub open spec fn comes_before(a: Seq<char>, b: Seq<char>) -> bool
    decreases a.len(),
{
    if b.len() == 0 {
        false
    } else if a.len() == 0 {
        true
    } else if a[0] == b[0] {
        comes_before(a.drop_first(), b.drop_first())
    } else {
        a[0] < b[0]
    }
}

/// Of two different texts one comes before the other.
pub proof fn comes_before_total(a: Seq<char>, b: Seq<char>)
    ensures
        comes_before(a, b) || comes_before(b, a) || a == b,
        !(comes_before(a, b) && comes_before(b, a)),
        comes_before(a, b) ==> a != b,
    decreases a.len(),
{
    if a.len() == 0 || b.len() == 0 {
        if a.len() == 0 && b.len() == 0 {
            assert(a =~= b);
        }
    } else {
        comes_before_total(a.drop_first(), b.drop_first());
        if a[0] == b[0] && a.drop_first() == b.drop_first() {
            assert(a =~= seq![a[0]] + a.drop_first());
            assert(b =~= seq![b[0]] + b.drop_first());
        }
    }
}

pub proof fn comes_before_trans(a: Seq<char>, b: Seq<char>, c: Seq<char>)
    requires
        comes_before(a, b),
        comes_before(b, c),
    ensures
        comes_before(a, c),
    decreases a.len(),
{
    if a.len() > 0 && b.len() > 0 && c.len() > 0 && a[0] == b[0] && b[0] == c[0] {
        comes_before_trans(a.drop_first(), b.drop_first(), c.drop_first());
    }
}

/// Whether `a` comes before `b` in the order of their characters.
pub fn is_before(a: &str, b: &str) -> (res: bool)
    ensures
        res == comes_before(a@, b@),
{
    let (x, y) = (chars(a), chars(b));
    let mut i: usize = 0;
    assert(a@.skip(0) =~= a@);
    assert(b@.skip(0) =~= b@);
    while i < x.len() && i < y.len()
        invariant
            x@ == a@,
            y@ == b@,
            i <= x@.len(),
            i <= y@.len(),
            comes_before(a@, b@) == comes_before(a@.skip(i as int), b@.skip(i as int)),
        decreases x@.len() - i,
    {
        proof {
            assert(a@.skip(i as int).drop_first() =~= a@.skip(i + 1));
            assert(b@.skip(i as int).drop_first() =~= b@.skip(i + 1));
        }
        if x[i] != y[i] {
            return x[i] < y[i];
        }
        i += 1;
    }
    i < y.len()
}

/// The position of the first character of `text` from `from` on that is, or is not, a dot.
pub open spec fn dot_from(text: Seq<char>, from: int, dot: bool) -> int
    decreases text.len() - from,
{
    if from < 0 || from >= text.len() {
        text.len() as int
    } else if (text[from] == '.') == dot {
        from
    } else {
        dot_from(text, from + 1, dot)
    }
}

pub proof fn dot_from_bounds(text: Seq<char>, from: int, dot: bool)
    requires
        0 <= from <= text.len(),
    ensures
        from <= dot_from(text, from, dot) <= text.len(),
    decreases text.len() - from,
{
    if from < text.len() && (text[from] == '.') != dot {
        dot_from_bounds(text, from + 1, dot);
    }
}

/// The position of the first character of `text` from `from` on that is, or is not, a dot.
pub fn find_dot(text: &str, from: usize, dot: bool) -> (res: usize)
    requires
        from <= text@.len(),
    ensures
        res == dot_from(text@, from as int, dot),
        from <= res <= text@.len(),
{
    let len: usize = text.unicode_len();
    let mut i: usize = from;
    while i < len
        invariant
            from <= i <= len,
            len == text@.len(),
            dot_from(text@, from as int, dot) == dot_from(text@, i as int, dot),
        decreases len - i,
    {
        if (text.get_char(i) == '.') == dot {
            return i;
        }
        i += 1;
    }
    i
}

} // verus!
