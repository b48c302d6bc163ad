//! Character-level text helpers: padding, truncation with an ellipsis, and
//! decimal numbers.
use vstd::prelude::*;
use vstd::string::StrSliceExecFns;
use vstd::string::StringExecFns;

verus! {

/// `n` spaces.
pub open spec fn spaces(n: nat) -> Seq<char> {
    Seq::new(n, |i: int| ' ')
}

/// `s` followed by spaces up to width `w` (unchanged when already that wide).
pub open spec fn pad_end(s: Seq<char>, w: nat) -> Seq<char> {
    if s.len() < w {
        s + spaces((w - s.len()) as nat)
    } else {
        s
    }
}

/// Spaces up to width `w` followed by `s` (unchanged when already that wide).
pub open spec fn pad_start(s: Seq<char>, w: nat) -> Seq<char> {
    if s.len() < w {
        spaces((w - s.len()) as nat) + s
    } else {
        s
    }
}

/// The marker that ends a truncated text.
pub open spec fn ellipsis() -> Seq<char> {
    seq!['.', '.', '.']
}

/// `s` cut down to at most `w` characters; when cut, its last three
/// characters are the ellipsis marker (or a prefix of it when `w < 3`).
pub open spec fn ellipsize(s: Seq<char>, w: nat) -> Seq<char> {
    if s.len() <= w {
        s
    } else if w >= 3 {
        s.take(w - 3) + ellipsis()
    } else {
        ellipsis().take(w as int)
    }
}

pub open spec fn digit(d: nat) -> char {
    if d == 0 {
        '0'
    } else if d == 1 {
        '1'
    } else if d == 2 {
        '2'
    } else if d == 3 {
        '3'
    } else if d == 4 {
        '4'
    } else if d == 5 {
        '5'
    } else if d == 6 {
        '6'
    } else if d == 7 {
        '7'
    } else if d == 8 {
        '8'
    } else {
        '9'
    }
}

/// The decimal digits of `n`, most significant first, without leading zeros.
pub open spec fn decimal(n: nat) -> Seq<char>
    decreases n,
{
    if n < 10 {
        seq![digit(n)]
    } else {
        decimal(n / 10).push(digit(n % 10))
    }
}

/// The decimal form of a signed number: a minus sign before negative ones.
pub open spec fn signed_decimal(n: int) -> Seq<char> {
    if n < 0 {
        seq!['-'] + decimal((-n) as nat)
    } else {
        decimal(n as nat)
    }
}

/// Relies on `ToString` for `usize`: its decimal digits.
#[verifier::external_body]
pub(crate) fn usize_decimal(n: usize) -> (r: String)
    ensures
        r@ == decimal(n as nat),
{
    n.to_string()
}

/// Relies on `ToString` for `i32`: its decimal digits, with a minus sign
/// when negative.
#[verifier::external_body]
pub(crate) fn i32_decimal(n: i32) -> (r: String)
    ensures
        r@ == signed_decimal(n as int),
{
    n.to_string()
}

/// A string of `n` spaces.
pub fn spaces_string(n: usize) -> (r: String)
    ensures
        r@ == spaces(n as nat),
{
    let mut r = String::new();
    let mut i: usize = 0;
    while i < n
        invariant
            i <= n,
            r@ == spaces(i as nat),
        decreases n - i,
    {
        proof {
            reveal_strlit(" ");
        }
        r.append(" ");
        i = i + 1;
        assert(r@ =~= spaces(i as nat));
    }
    r
}

/// `s` followed by spaces up to width `w`.
pub fn pad_end_string(s: &str, w: usize) -> (r: String)
    ensures
        r@ == pad_end(s@, w as nat),
{
    let len = s.unicode_len();
    let mut r = String::from_str(s);
    if len < w {
        let fill = spaces_string(w - len);
        r.append(fill.as_str());
    }
    r
}

/// Spaces up to width `w` followed by `s`.
pub fn pad_start_string(s: &str, w: usize) -> (r: String)
    ensures
        r@ == pad_start(s@, w as nat),
{
    let len = s.unicode_len();
    if len < w {
        let fill = spaces_string(w - len);
        fill.concat(s)
    } else {
        String::from_str(s)
    }
}

/// `s` cut down to at most `w` characters, ending in the ellipsis marker
/// when cut.
pub fn ellipsize_string(s: &str, w: usize) -> (r: String)
    ensures
        r@ == ellipsize(s@, w as nat),
{
    let len = s.unicode_len();
    proof {
        reveal_strlit("...");
    }
    if len <= w {
        String::from_str(s)
    } else if w >= 3 {
        let head = s.substring_char(0, w - 3);
        let r = String::from_str(head).concat("...");
        assert(r@ =~= s@.take(w - 3) + ellipsis());
        r
    } else {
        let r = String::from_str("...".substring_char(0, w));
        assert(r@ =~= ellipsis().take(w as int));
        r
    }
}

} // verus!
