//! The wire format of the options, as mathematics: what bytes a list of
//! options stands for, and what list of options a run of bytes stands for.
//!
//! Each option is an OPTION-CODE of 16 bits, an OPTION-LENGTH of 16 bits and
//! OPTION-LENGTH bytes of OPTION-DATA; the options of a record follow each
//! other with nothing between them.

use crate::packer::{be16_bytes, be16_value};
use vstd::prelude::*;

verus! {

/// An option as a value: its code and the bytes of its data.
pub struct OptionView {
    /// The option code.
    pub code: u16,
    /// The option data.
    pub data: Seq<u8>,
}

/// The largest number of data bytes whose count the length field can hold.
pub const MAX_DATA_LEN: usize = 0xffff;

/// The number of bytes before the data of an option: code and length.
pub const OPTION_HEADER_LEN: usize = 4;

/// Whether the length field can hold the length of the data of each option.
pub open spec fn encodable(options: Seq<OptionView>) -> bool {
    forall|i: int| 0 <= i < options.len() ==> (#[trigger] options[i]).data.len() <= MAX_DATA_LEN
}

/// What is written into the length field for `data`: the low 16 bits of its
/// length, which is the length itself up to `MAX_DATA_LEN`.
pub open spec fn length_field(data: Seq<u8>) -> u16 {
    (data.len() % 0x1_0000) as u16
}

/// The bytes of one option: code, length field, data.
pub open spec fn option_bytes(option: OptionView) -> Seq<u8> {
    be16_bytes(option.code) + be16_bytes(length_field(option.data)) + option.data
}

/// The bytes of a list of options: those of each option, in the order of the
/// list.
pub open spec fn options_bytes(options: Seq<OptionView>) -> Seq<u8>
    decreases options.len(),
{
    if options.len() == 0 {
        Seq::empty()
    } else {
        option_bytes(options.first()) + options_bytes(options.drop_first())
    }
}

/// The options read from `msg`, starting at `off`, as long as an option
/// starts before `end`; with them, the offset after the last byte read.
/// `None` where the code, the length or the announced data of an option
/// that starts before `end` are not all within `msg`.
///
/// Only the start of an option is held against `end`: the data of the last
/// one may go beyond it, as far as `msg` goes.
pub open spec fn parse_options(msg: Seq<u8>, off: int, end: int) -> Option<(Seq<OptionView>, int)>
    recommends
        0 <= off,
    decreases msg.len() - off,
{
    if off >= end {
        Some((Seq::empty(), off))
    } else if off + OPTION_HEADER_LEN > msg.len() {
        None
    } else {
        let code = be16_value(msg[off], msg[off + 1]);
        let len = be16_value(msg[off + 2], msg[off + 3]);
        let next = off + OPTION_HEADER_LEN + len;
        if next > msg.len() {
            None
        } else {
            let option = OptionView { code, data: msg.subrange(off + OPTION_HEADER_LEN, next) };
            match parse_options(msg, next, end) {
                Some((rest, fin)) => Some((seq![option] + rest, fin)),
                None => None,
            }
        }
    }
}

/// Whether the bytes of `options` stand in `msg` from `off` on. Where
/// there are no bytes, they stand at every offset.
pub open spec fn stands_at(msg: Seq<u8>, off: int, options: Seq<OptionView>) -> bool {
    let bytes = options_bytes(options);
    &&& 0 <= off
    &&& bytes.len() > 0 ==> off + bytes.len() <= msg.len() && msg.subrange(
        off,
        off + bytes.len(),
    ) == bytes
}

/// Whether reading from `off` up to `end` takes all of `options` and no
/// more, were their bytes to stand at `off`: the last of them starts before
/// `end`, and what follows it does not.
pub open spec fn stops_after(off: int, end: int, options: Seq<OptionView>) -> bool {
    if options.len() == 0 {
        end <= off
    } else {
        off + options_bytes(options.drop_last()).len() < end <= off + options_bytes(
            options,
        ).len()
    }
}

/// Whether the option that starts at `at` does not fit into `msg`: its code
/// and length are not all there, or fewer bytes follow them than the length
/// announces.
pub open spec fn overruns(msg: Seq<u8>, at: int) -> bool {
    ||| at + OPTION_HEADER_LEN > msg.len()
    ||| at + OPTION_HEADER_LEN + be16_value(msg[at + 2], msg[at + 3]) > msg.len()
}

/// Whether reading from `off` up to `end` breaks after `options`: their
/// bytes stand at `off`, and the option that starts after them, before
/// `end`, does not fit into `msg`.
pub open spec fn breaks_after(msg: Seq<u8>, off: int, end: int, options: Seq<OptionView>) -> bool {
    let at = off + options_bytes(options).len();
    &&& encodable(options)
    &&& stands_at(msg, off, options)
    &&& at < end
    &&& overruns(msg, at)
}

/// The bytes of two lists, one after the other, are the bytes of the two
/// lists joined.
pub proof fn lemma_options_bytes_concat(a: Seq<OptionView>, b: Seq<OptionView>)
    ensures
        options_bytes(a + b) == options_bytes(a) + options_bytes(b),
    decreases a.len(),
{
    if a.len() == 0 {
        assert(a + b =~= b);
    } else {
        lemma_options_bytes_concat(a.drop_first(), b);
        assert((a + b).drop_first() =~= a.drop_first() + b);
    }
}

/// The bytes of a list of one option are the bytes of that option.
pub proof fn lemma_options_bytes_single(option: OptionView)
    ensures
        options_bytes(seq![option]) == option_bytes(option),
{
    assert(options_bytes(seq![option].drop_first()) =~= Seq::<u8>::empty());
}

/// One more option at the end of a list adds its bytes at the end.
pub proof fn lemma_options_bytes_push(options: Seq<OptionView>, option: OptionView)
    ensures
        options_bytes(options.push(option)) == options_bytes(options) + option_bytes(option),
{
    assert(options.push(option) =~= options + seq![option]);
    lemma_options_bytes_concat(options, seq![option]);
    lemma_options_bytes_single(option);
}

} // verus!
