//! Levels of sst files.

use vstd::prelude::*;
use vstd::string::StringExecFns;

verus! {

/// The number of levels.
pub const SST_LEVEL_NUM: usize = 2;

/// The level of an sst file. Files are written to level 0 and compacted
/// upwards.
#[derive(Debug, Copy, Clone, PartialEq, Eq, Structural)]
pub struct Level(u16);

impl Level {
    /// The number of the highest level. Currently there are only two levels: 0, 1.
    pub const MAX: u16 = 1;

    /// The number of the lowest level.
    pub const MIN: u16 = 0;

    pub closed spec fn number(self) -> u16 {
        self.0
    }

    /// The level above this one, or the highest one where there is none above.
    pub fn next(&self) -> (r: Self)
        requires
            self.number() < u16::MAX,
        ensures
            r.number() == next_number(self.number() as int),
            self.number() < Self::MAX ==> r.number() == self.number() + 1,
            self.number() >= Self::MAX ==> r.number() == Self::MAX,
    {
        let above: u16 = self.0 + 1;
        Level::from(
            if above <= Self::MAX {
                above
            } else {
                Self::MAX
            },
        )
    }

    pub fn is_min(&self) -> (r: bool)
        ensures
            r == (self.number() == Self::MIN),
    {
        *self == Level(Self::MIN)
    }

    pub fn as_usize(&self) -> (r: usize)
        ensures
            r == self.number(),
    {
        self.0 as usize
    }

    pub fn as_u32(&self) -> (r: u32)
        ensures
            r == self.number(),
    {
        self.0 as u32
    }

    pub fn as_u16(&self) -> (r: u16)
        ensures
            r == self.number(),
    {
        self.0
    }

    /// The level's number in decimal.
    pub fn to_string(&self) -> (r: String)
        ensures
            r@ == decimal(self.number() as nat),
    {
        decimal_text(self.0)
    }
}

impl Default for Level {
    /// The lowest level.
    fn default() -> (r: Self)
        ensures
            r.number() == Self::MIN,
    {
        Level(Self::MIN)
    }
}

impl From<u16> for Level {
    fn from(value: u16) -> (r: Self)
        ensures
            r.number() == value,
    {
        Level(value)
    }
}

impl vstd::std_specs::convert::FromSpecImpl<u16> for Level {
    closed spec fn obeys_from_spec() -> bool {
        true
    }

    closed spec fn from_spec(value: u16) -> Self {
        Level(value)
    }
}

/// The number of the level above level `n`, capped at the highest level.
pub open spec fn next_number(n: int) -> int {
    if n + 1 <= Level::MAX {
        n + 1
    } else {
        Level::MAX as int
    }
}

/// The character of a decimal digit.
pub open spec fn digit(d: nat) -> char {
    ('0' as u32 + d) as char
}

/// The decimal digits of `n`, without leading zeros.
pub open spec fn decimal(n: nat) -> Seq<char>
    decreases n,
{
    if n < 10 {
        seq![digit(n)]
    } else {
        decimal(n / 10).push(digit(n % 10))
    }
}

fn digit_text(d: u16) -> (r: &'static str)
    requires
        d < 10,
    ensures
        r@ == seq![digit(d as nat)],
{
    proof {
        reveal_strlit("0");
        reveal_strlit("1");
        reveal_strlit("2");
        reveal_strlit("3");
        reveal_strlit("4");
        reveal_strlit("5");
        reveal_strlit("6");
        reveal_strlit("7");
        reveal_strlit("8");
        reveal_strlit("9");
    }
    let r = match d {
        0 => "0",
        1 => "1",
        2 => "2",
        3 => "3",
        4 => "4",
        5 => "5",
        6 => "6",
        7 => "7",
        8 => "8",
        _ => "9",
    };
    assert(r@ =~= seq![digit(d as nat)]);
    r
}

fn decimal_text(n: u16) -> (r: String)
    ensures
        r@ == decimal(n as nat),
    decreases n,
{
    let mut text = String::new();
    if n >= 10 {
        text = decimal_text(n / 10);
    }
    text.append(digit_text(n % 10));
    assert(text@ =~= decimal(n as nat));
    text
}

/// The number that decimal digits stand for.
pub open spec fn digits_value(digits: Seq<char>) -> int
    decreases digits.len(),
{
    if digits.len() == 0 {
        0
    } else {
        10 * digits_value(digits.drop_last()) + (digits.last() as int - '0' as int)
    }
}

/// The text of a number consists of digits, stands for that number, and starts
/// with a zero only where the number is zero.
pub proof fn decimal_stands_for_the_number(n: nat)
    ensures
        digits_value(decimal(n)) == n,
        decimal(n).len() > 0,
        forall|i: int| 0 <= i < decimal(n).len() ==> '0' <= #[trigger] decimal(n)[i] <= '9',
        decimal(n)[0] == '0' ==> decimal(n).len() == 1 && n == 0,
    decreases n,
{
    reveal_with_fuel(digits_value, 2);
    if n < 10 {
        assert(decimal(n).drop_last() =~= Seq::empty());
    } else {
        decimal_stands_for_the_number(n / 10);
        assert(decimal(n).drop_last() =~= decimal(n / 10));
        assert(decimal(n)[0] == decimal(n / 10)[0]);
    }
}

/// A level is decided by its number.
pub proof fn number_decides_level(a: Level, b: Level)
    requires
        a.number() == b.number(),
    ensures
        a == b,
{
}

/// Every level, also one beyond the highest, has the highest level as the next
/// one, which is a fixed point.
pub proof fn next_is_the_highest_level(level: Level)
    requires
        level.number() < u16::MAX,
    ensures
        next_number(level.number() as int) == Level::MAX,
        next_number(next_number(level.number() as int)) == next_number(level.number() as int),
{
}

} // verus!
