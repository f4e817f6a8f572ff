//! Text as sequences of characters: the order on it, and the few
//! operations on strings that the rest of the library builds its lines from.

use vstd::prelude::*;
use vstd::std_specs::iter::IteratorSpec;
use vstd::string::StrSliceExecFns;
use vstd::string::StringExecFns;

verus! {

/// The position of a character in the code charts.
pub open spec fn code(c: char) -> int {
    c as u32 as int
}

/// `a` comes strictly before `b` in the lexicographic order by code point,
/// which is the order of `str`.
pub open spec fn text_lt(a: Seq<char>, b: Seq<char>) -> bool
    decreases a.len(),
{
    if b.len() == 0 {
        false
    } else if a.len() == 0 {
        true
    } else if a[0] != b[0] {
        code(a[0]) < code(b[0])
    } else {
        text_lt(a.drop_first(), b.drop_first())
    }
}

/// Where one text stands relative to another.
#[derive(Clone, Copy, Debug, PartialEq, Eq, Structural)]
pub enum Side {
    Before,
    Same,
    After,
}

/// The side of `b` on which `a` falls.
pub open spec fn side_of(a: Seq<char>, b: Seq<char>) -> Side {
    if a == b {
        Side::Same
    } else if text_lt(a, b) {
        Side::Before
    } else {
        Side::After
    }
}

/// No text comes before itself.
pub proof fn lemma_lt_irreflexive(a: Seq<char>)
    ensures
        !text_lt(a, a),
    decreases a.len(),
{
    if a.len() > 0 {
        lemma_lt_irreflexive(a.drop_first());
    }
}

/// Of two texts at most one comes before the other.
pub proof fn lemma_lt_asymmetric(a: Seq<char>, b: Seq<char>)
    requires
        text_lt(a, b),
    ensures
        !text_lt(b, a),
    decreases a.len(),
{
    if a.len() > 0 && b.len() > 0 && a[0] == b[0] {
        lemma_lt_asymmetric(a.drop_first(), b.drop_first());
    }
}

/// The order is transitive.
pub proof fn lemma_lt_transitive(a: Seq<char>, b: Seq<char>, c: Seq<char>)
    requires
        text_lt(a, b),
        text_lt(b, c),
    ensures
        text_lt(a, c),
    decreases a.len(),
{
    if a.len() > 0 && b.len() > 0 && c.len() > 0 && a[0] == b[0] && b[0] == c[0] {
        lemma_lt_transitive(a.drop_first(), b.drop_first(), c.drop_first());
    }
}

/// Two different texts are ordered one way or the other.
pub proof fn lemma_lt_total(a: Seq<char>, b: Seq<char>)
    ensures
        a == b || text_lt(a, b) || text_lt(b, a),
    decreases a.len(),
{
    if a.len() == 0 || b.len() == 0 {
        if a.len() == 0 && b.len() == 0 {
            assert(a =~= b);
        }
    } else if a[0] == b[0] {
        lemma_lt_total(a.drop_first(), b.drop_first());
        if a.drop_first() == b.drop_first() {
            assert(a =~= seq![a[0]] + a.drop_first());
            assert(b =~= seq![b[0]] + b.drop_first());
        }
    } else {
        vstd::utf8::char_u32_cast(a[0], a[0] as u32);
        vstd::utf8::char_u32_cast(b[0], b[0] as u32);
    }
}

/// Compares two strings by code point.
pub fn text_side(a: &str, b: &str) -> (side: Side)
    ensures
        side == side_of(a@, b@),
{
    let mut left = a.chars();
    let mut right = b.chars();
    let ghost mut done: int = 0;
    loop
        invariant
            0 <= done <= a@.len(),
            done <= b@.len(),
            left.remaining() == a@.skip(done),
            right.remaining() == b@.skip(done),
            a@.take(done) == b@.take(done),
            text_lt(a@, b@) == text_lt(a@.skip(done), b@.skip(done)),
        decreases a@.len() - done,
    {
        let x = left.next();
        let y = right.next();
        proof {
            assert(a@ =~= a@.take(done) + a@.skip(done));
            assert(b@ =~= b@.take(done) + b@.skip(done));
        }
        match (x, y) {
            (None, None) => {
                assert(a@.skip(done) =~= b@.skip(done));
                return Side::Same;
            },
            (Some(_), None) => {
                return Side::After;
            },
            (None, Some(_)) => {
                return Side::Before;
            },
            (Some(p), Some(q)) => {
                if p != q {
                    assert(a@[done] != b@[done]);
                    return if (p as u32) < (q as u32) {
                        Side::Before
                    } else {
                        Side::After
                    };
                }
                proof {
                    assert(a@.skip(done).drop_first() == a@.skip(done + 1));
                    assert(b@.skip(done).drop_first() == b@.skip(done + 1));
                    assert(a@.take(done + 1) =~= a@.take(done).push(p));
                    assert(b@.take(done + 1) =~= b@.take(done).push(q));
                    done = done + 1;
                }
            },
        }
    }
}

/// The decimal digit for a number below ten.
pub open spec fn digit(d: nat) -> char {
    if d == 0 {
        '0'
    } else if d == 1 {
        '1'
    } else if d == 2 {
        '2'
    } else if d == 3 {
        '3'
    } else if d == 4 {
        '4'
    } else if d == 5 {
        '5'
    } else if d == 6 {
        '6'
    } else if d == 7 {
        '7'
    } else if d == 8 {
        '8'
    } else {
        '9'
    }
}

/// A number in decimal, without sign or leading zeros.
pub open spec fn decimal(n: nat) -> Seq<char>
    decreases n,
{
    if n < 10 {
        seq![digit(n)]
    } else {
        decimal(n / 10).push(digit(n % 10))
    }
}

fn digit_text(d: u64) -> (text: &'static str)
    requires
        d < 10,
    ensures
        text@ == seq![digit(d as nat)],
{
    proof {
        reveal_strlit("0");
        reveal_strlit("1");
        reveal_strlit("2");
        reveal_strlit("3");
        reveal_strlit("4");
        reveal_strlit("5");
        reveal_strlit("6");
        reveal_strlit("7");
        reveal_strlit("8");
        reveal_strlit("9");
    }
    let text = match d {
        0 => "0",
        1 => "1",
        2 => "2",
        3 => "3",
        4 => "4",
        5 => "5",
        6 => "6",
        7 => "7",
        8 => "8",
        _ => "9",
    };
    assert(text@ =~= seq![digit(d as nat)]);
    text
}

/// Writes a count in decimal.
pub fn decimal_string(n: u64) -> (text: String)
    ensures
        text@ == decimal(n as nat),
    decreases n,
{
    if n < 10 {
        digit_text(n).to_owned()
    } else {
        let mut text = decimal_string(n / 10);
        text.append(digit_text(n % 10));
        assert(text@ =~= decimal((n / 10) as nat).push(digit((n % 10) as nat)));
        text
    }
}

/// Words separated by single spaces.
pub open spec fn spaced(words: Seq<Seq<char>>) -> Seq<char>
    decreases words.len(),
{
    if words.len() == 0 {
        Seq::empty()
    } else if words.len() == 1 {
        words[0]
    } else {
        spaced(words.drop_last()) + seq![' '] + words.last()
    }
}

/// Joins words with single spaces.
pub fn spaced_string(words: &Vec<String>) -> (line: String)
    ensures
        line@ == spaced(words.deep_view()),
{
    let mut line = String::new();
    let mut i: usize = 0;
    proof {
        reveal_strlit(" ");
    }
    assert(" "@ =~= seq![' ']);
    while i < words.len()
        invariant
            i <= words.len(),
            " "@ == seq![' '],
            line@ == spaced(words.deep_view().take(i as int)),
        decreases words.len() - i,
    {
        let ghost done = words.deep_view().take(i as int);
        let ghost next = words.deep_view().take(i + 1);
        assert(next.drop_last() =~= done);
        assert(next.last() == words[i as int]@);
        if i > 0 {
            line.append(" ");
        }
        line.append(words[i].as_str());
        assert(line@ =~= spaced(next));
        i = i + 1;
    }
    assert(words.deep_view().take(words.len() as int) =~= words.deep_view());
    line
}

/// The number of characters before the first line feed, or the length of
/// the text if it holds none.
pub open spec fn line_end(text: Seq<char>) -> nat
    decreases text.len(),
{
    if text.len() == 0 || text[0] == '\n' {
        0
    } else {
        1 + line_end(text.drop_first())
    }
}

/// The text up to its first line feed.
pub open spec fn first_line(text: Seq<char>) -> Seq<char> {
    text.take(line_end(text) as int)
}

/// The first `n` characters of a text, or all of it if it is shorter.
pub open spec fn prefix(text: Seq<char>, n: nat) -> Seq<char> {
    if text.len() <= n {
        text
    } else {
        text.take(n as int)
    }
}

/// The first line of a string.
pub fn first_line_of(text: &str) -> (line: String)
    ensures
        line@ == first_line(text@),
{
    let mut rest = text.chars();
    let mut end: usize = 0;
    let length = text.unicode_len();
    assert(text@.skip(0) =~= text@);
    loop
        invariant_except_break
            rest.remaining() == text@.skip(end as int),
            line_end(text@) == end + line_end(text@.skip(end as int)),
        invariant
            end <= text@.len(),
            length == text@.len(),
        ensures
            end == line_end(text@),
        decreases text@.len() - end,
    {
        match rest.next() {
            None => {
                break ;
            },
            Some(c) => {
                if c == '\n' {
                    break ;
                }
                assert(text@.skip(end as int).drop_first() == text@.skip(end + 1));
                end = end + 1;
            },
        }
    }
    text.substring_char(0, end).to_owned()
}

/// The first `n` characters of a string, or all of it if it is shorter.
pub fn prefix_of(text: &str, n: usize) -> (head: String)
    ensures
        head@ == prefix(text@, n as nat),
{
    let length = text.unicode_len();
    if length <= n {
        text.to_owned()
    } else {
        text.substring_char(0, n).to_owned()
    }
}

/// A text as `Debug` writes a `str`: between double quotes, with the
/// characters that cannot stand there as they are written as escapes.
pub uninterp spec fn quoted(text: Seq<char>) -> Seq<char>;

/// The `Debug` form of a `str`, as `format!` gives it. The contract claims
/// only that the result is a function of the text, and names it `quoted`.
#[verifier::external_body]
pub(crate) fn debug_quote(text: &str) -> (out: String)
    ensures
        out@ == quoted(text@),
{
    format!("{:?}", text)
}

} // verus!
