//! The text of an option and of a record, for diagnostics: numbers in
//! decimal, the data of an option as a list of its bytes.

use crate::wire::OptionView;
use vstd::prelude::*;

verus! {

/// The character of a decimal digit.
pub open spec fn digit(d: int) -> char
    recommends
        0 <= d < 10,
{
    if d == 0 {
        '0'
    } else if d == 1 {
        '1'
    } else if d == 2 {
        '2'
    } else if d == 3 {
        '3'
    } else if d == 4 {
        '4'
    } else if d == 5 {
        '5'
    } else if d == 6 {
        '6'
    } else if d == 7 {
        '7'
    } else if d == 8 {
        '8'
    } else {
        '9'
    }
}

/// A number in decimal, without leading zeros.
pub open spec fn decimal(n: nat) -> Seq<char>
    decreases n,
{
    if n < 10 {
        seq![digit(n as int)]
    } else {
        decimal(n / 10).push(digit((n % 10) as int))
    }
}

/// The bytes of `data` in decimal, with a comma and a space between one
/// and the next.
pub open spec fn bytes_items(data: Seq<u8>) -> Seq<char>
    decreases data.len(),
{
    if data.len() == 0 {
        Seq::empty()
    } else if data.len() == 1 {
        decimal(data[0] as nat)
    } else {
        bytes_items(data.drop_last()) + ", "@ + decimal(data.last() as nat)
    }
}

/// The bytes of `data` as a list in square brackets.
pub open spec fn bytes_text(data: Seq<u8>) -> Seq<char> {
    "["@ + bytes_items(data) + "]"@
}

/// The text of an option: its code and its data.
pub open spec fn option_text(option: OptionView) -> Seq<char> {
    "dnsmessage.Option{Code: "@ + decimal(option.code as nat) + ", Data: "@ + bytes_text(
        option.data,
    ) + "}"@
}

/// The texts of the options in their order, with a comma between one and
/// the next.
pub open spec fn options_items(options: Seq<OptionView>) -> Seq<char>
    decreases options.len(),
{
    if options.len() == 0 {
        Seq::empty()
    } else if options.len() == 1 {
        option_text(options[0])
    } else {
        options_items(options.drop_last()) + ","@ + option_text(options.last())
    }
}

/// The text of a record: the texts of its options.
pub open spec fn resource_text(options: Seq<OptionView>) -> Seq<char> {
    "dnsmessage.OPTResource{options: "@ + options_items(options) + "}"@
}

/// Appends the character of the digit `d` to `text`.
fn push_digit(text: &mut String, d: u16)
    requires
        d < 10,
    ensures
        final(text)@ == old(text)@.push(digit(d as int)),
{
    proof {
        reveal_strlit("0");
        reveal_strlit("1");
        reveal_strlit("2");
        reveal_strlit("3");
        reveal_strlit("4");
        reveal_strlit("5");
        reveal_strlit("6");
        reveal_strlit("7");
        reveal_strlit("8");
        reveal_strlit("9");
    }
    if d == 0 {
        text.append("0");
    } else if d == 1 {
        text.append("1");
    } else if d == 2 {
        text.append("2");
    } else if d == 3 {
        text.append("3");
    } else if d == 4 {
        text.append("4");
    } else if d == 5 {
        text.append("5");
    } else if d == 6 {
        text.append("6");
    } else if d == 7 {
        text.append("7");
    } else if d == 8 {
        text.append("8");
    } else {
        text.append("9");
    }
}

/// Appends `n` in decimal to `text`.
pub fn push_decimal(text: &mut String, n: u16)
    ensures
        final(text)@ == old(text)@ + decimal(n as nat),
    decreases n,
{
    if n >= 10 {
        push_decimal(text, n / 10);
    }
    push_digit(text, n % 10);
}

/// Appends the list of the bytes of `data` to `text`.
pub fn push_bytes(text: &mut String, data: &[u8])
    ensures
        final(text)@ == old(text)@ + bytes_text(data@),
{
    text.append("[");
    let mut i: usize = 0;
    while i < data.len()
        invariant
            i <= data@.len(),
            text@ == old(text)@ + "["@ + bytes_items(data@.take(i as int)),
        decreases data@.len() - i,
    {
        if i > 0 {
            text.append(", ");
        }
        push_decimal(text, data[i] as u16);
        assert(data@.take(i + 1).drop_last() =~= data@.take(i as int));
        i = i + 1;
    }
    text.append("]");
    assert(data@.take(i as int) =~= data@);
}

} // verus!
