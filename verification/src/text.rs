//! Texts for people to read: numbers in decimal digits and byte strings as
//! lists of numbers.
use vstd::prelude::*;
use vstd::string::StringExecFns;

verus! {

/// The character that stands for a digit below ten.
pub open spec fn digit(d: nat) -> char {
    if d == 0 {
        '0'
    } else if d == 1 {
        '1'
    } else if d == 2 {
        '2'
    } else if d == 3 {
        '3'
    } else if d == 4 {
        '4'
    } else if d == 5 {
        '5'
    } else if d == 6 {
        '6'
    } else if d == 7 {
        '7'
    } else if d == 8 {
        '8'
    } else {
        '9'
    }
}

/// The decimal digits of `n`, most significant first and without leading
/// zeros; zero is the one digit `0`.
pub open spec fn decimal(n: nat) -> Seq<char>
    decreases n,
{
    if n < 10 {
        seq![digit(n)]
    } else {
        decimal(n / 10).push(digit(n % 10))
    }
}

/// The decimal texts of the bytes of `b`, with a comma and a space between
/// one and the next.
pub open spec fn items_text(b: Seq<u8>) -> Seq<char>
    decreases b.len(),
{
    if b.len() == 0 {
        Seq::empty()
    } else if b.len() == 1 {
        decimal(b[0] as nat)
    } else {
        items_text(b.drop_last()) + ", "@ + decimal(b.last() as nat)
    }
}

/// The text of a byte string: its bytes in decimal between square brackets.
pub open spec fn list_text(b: Seq<u8>) -> Seq<char> {
    "["@ + items_text(b) + "]"@
}

/// The text of one digit.
fn digit_str(d: u8) -> (s: &'static str)
    requires
        d < 10,
    ensures
        s@ == seq![digit(d as nat)],
{
    proof {
        reveal_strlit("0");
        reveal_strlit("1");
        reveal_strlit("2");
        reveal_strlit("3");
        reveal_strlit("4");
        reveal_strlit("5");
        reveal_strlit("6");
        reveal_strlit("7");
        reveal_strlit("8");
        reveal_strlit("9");
    }
    let s = match d {
        0 => "0",
        1 => "1",
        2 => "2",
        3 => "3",
        4 => "4",
        5 => "5",
        6 => "6",
        7 => "7",
        8 => "8",
        _ => "9",
    };
    assert(s@ =~= seq![digit(d as nat)]);
    s
}

/// Appends the decimal digits of a byte to `s`.
pub fn append_decimal(s: &mut String, b: u8)
    ensures
        final(s)@ == old(s)@ + decimal(b as nat),
{
    reveal_with_fuel(decimal, 3);
    if b >= 100 {
        s.append(digit_str(b / 100));
    }
    if b >= 10 {
        s.append(digit_str((b / 10) % 10));
    }
    s.append(digit_str(b % 10));
    assert(s@ =~= old(s)@ + decimal(b as nat));
}

/// The text of a byte string: its bytes in decimal between square brackets.
pub fn bytes_text(bytes: &[u8]) -> (s: String)
    ensures
        s@ == list_text(bytes@),
{
    let mut s = String::from_str("[");
    let mut i: usize = 0;
    while i < bytes.len()
        invariant
            i <= bytes@.len(),
            s@ == "["@ + items_text(bytes@.subrange(0, i as int)),
        decreases bytes@.len() - i,
    {
        let ghost before = bytes@.subrange(0, i as int);
        let ghost after = bytes@.subrange(0, i + 1);
        assert(after.drop_last() =~= before);
        assert(after.last() == bytes@[i as int]);
        if i > 0 {
            s.append(", ");
        }
        append_decimal(&mut s, bytes[i]);
        assert(s@ =~= "["@ + items_text(after));
        i = i + 1;
    }
    assert(bytes@.subrange(0, i as int) =~= bytes@);
    s.append("]");
    s
}

} // verus!
