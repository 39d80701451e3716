use vstd::prelude::*;

verus! {

/// The decimal digit character for a value between 0 and 9.
pub open spec fn spec_digit_char(d: int) -> char {
    if d == 0 {
        '0'
    } else if d == 1 {
        '1'
    } else if d == 2 {
        '2'
    } else if d == 3 {
        '3'
    } else if d == 4 {
        '4'
    } else if d == 5 {
        '5'
    } else if d == 6 {
        '6'
    } else if d == 7 {
        '7'
    } else if d == 8 {
        '8'
    } else {
        '9'
    }
}

/// The decimal digits of a non-negative value, most significant first.
pub open spec fn spec_dec_digits(n: nat) -> Seq<char>
    decreases n,
{
    if n < 10 {
        seq![spec_digit_char(n as int)]
    } else {
        spec_dec_digits(n / 10).push(spec_digit_char((n % 10) as int))
    }
}

/// The decimal text of a value: a minus sign for negative values, then the
/// digits of its magnitude.
pub open spec fn spec_int_text(v: int) -> Seq<char> {
    if v < 0 {
        seq!['-'] + spec_dec_digits((-v) as nat)
    } else {
        spec_dec_digits(v as nat)
    }
}

/// The rendering of a coordinate pair: the two decimal texts, separated by
/// a comma and a space, in parentheses.
pub open spec fn spec_pair_text(x: int, y: int) -> Seq<char> {
    seq!['('] + spec_int_text(x) + seq![','] + seq![' '] + spec_int_text(y) + seq![')']
}

/// Relies on the standard formatter for `i32`: it writes a minus sign for
/// a negative value followed by the value's decimal digits, nothing else.
#[verifier::external_body]
fn format_pair(x: i32, y: i32) -> (s: String)
    ensures
        s@ == spec_pair_text(x as int, y as int),
{
    format!("({}, {})", x, y)
}

/// An immutable 2D coordinate pair with value semantics and no invariants.
#[derive(Clone, Copy, Debug, PartialEq, Eq, Structural)]
pub struct Vec2 {
    pub x: i32,
    pub y: i32,
}

impl Vec2 {
    /// Builds the point (x, y).
    pub fn new(x: i32, y: i32) -> (v: Vec2)
        ensures
            v == (Vec2 { x, y }),
    {
        Vec2 { x, y }
    }

    /// Component-wise vector addition.
    pub fn add(self, other: Vec2) -> (v: Vec2)
        requires
            i32::MIN <= self.x + other.x <= i32::MAX,
            i32::MIN <= self.y + other.y <= i32::MAX,
        ensures
            v.x == self.x + other.x,
            v.y == self.y + other.y,
    {
        Vec2 { x: self.x + other.x, y: self.y + other.y }
    }

    /// The point as text, "(x, y)" with decimal coordinates.
    pub fn to_display(&self) -> (s: String)
        ensures
            s@ == spec_pair_text(self.x as int, self.y as int),
    {
        format_pair(self.x, self.y)
    }
}

} // verus!
