//! What holds of writing and reading together, stated over the wire
//! format and proved.
//!
//! `pack` appends `options_bytes` of the record to the message and `unpack`
//! returns what `parse_options` says, so each statement here is one about
//! those two functions.

use crate::packer::{be16_bytes, be16_value, lemma_be16_bytes_of_value, lemma_be16_round_trip};
use crate::wire::{
    breaks_after, encodable, lemma_options_bytes_concat, lemma_options_bytes_push, length_field,
    option_bytes, options_bytes, overruns, parse_options, stands_at, stops_after, OptionView,
    MAX_DATA_LEN, OPTION_HEADER_LEN,
};
use vstd::prelude::*;

verus! {

/// Where the bytes of a list that is not empty stand in the message, the
/// fields at `off` are those of its first option, and the bytes of the
/// other options stand after it.
proof fn lemma_first_stands(msg: Seq<u8>, off: int, options: Seq<OptionView>)
    requires
        encodable(options),
        stands_at(msg, off, options),
        options.len() > 0,
    ensures
        ({
            let first = options.first();
            let next = off + OPTION_HEADER_LEN + first.data.len();
            &&& next <= msg.len()
            &&& be16_value(msg[off], msg[off + 1]) == first.code
            &&& be16_value(msg[off + 2], msg[off + 3]) == first.data.len()
            &&& msg.subrange(off + OPTION_HEADER_LEN, next) == first.data
            &&& options_bytes(options) == option_bytes(first) + options_bytes(options.drop_first())
            &&& encodable(options.drop_first())
            &&& stands_at(msg, next, options.drop_first())
        }),
{
    let first = options.first();
    let rest = options.drop_first();
    let head = option_bytes(first);
    let bytes = options_bytes(options);
    let next = off + OPTION_HEADER_LEN + first.data.len();
    let window = msg.subrange(off, off + bytes.len());
    assert(bytes == head + options_bytes(rest));
    assert(length_field(first.data) == first.data.len());
    lemma_be16_round_trip(first.code);
    lemma_be16_round_trip(length_field(first.data));
    assert(msg[off] == window[0] && window[0] == head[0]);
    assert(msg[off + 1] == window[1] && window[1] == head[1]);
    assert(msg[off + 2] == window[2] && window[2] == head[2]);
    assert(msg[off + 3] == window[3] && window[3] == head[3]);
    assert(msg.subrange(off + OPTION_HEADER_LEN, next) =~= first.data) by {
        assert forall|k: int| 0 <= k < first.data.len() implies msg[off + OPTION_HEADER_LEN + k]
            == first.data[k] by {
            assert(window[OPTION_HEADER_LEN + k] == head[OPTION_HEADER_LEN + k]);
        }
    }
    assert(msg.subrange(next, next + options_bytes(rest).len()) =~= options_bytes(rest)) by {
        assert forall|k: int| 0 <= k < options_bytes(rest).len() implies msg[next + k]
            == options_bytes(rest)[k] by {
            assert(window[head.len() + k] == options_bytes(rest)[k]);
        }
    }
    assert(encodable(rest)) by {
        assert forall|i: int| 0 <= i < rest.len() implies (#[trigger] rest[i]).data.len()
            <= MAX_DATA_LEN by {
            assert(rest[i] == options[i + 1]);
        }
    }
}

/// The bytes before the last option of a list are those of its first
/// option and those before the last of the others.
proof fn lemma_drop_last_bytes(options: Seq<OptionView>)
    requires
        options.len() > 0,
    ensures
        options.len() > 1 ==> options_bytes(options.drop_last()) == option_bytes(options.first())
            + options_bytes(options.drop_first().drop_last()),
        options.len() == 1 ==> options_bytes(options.drop_last()) == Seq::<u8>::empty(),
{
    if options.len() > 1 {
        assert(options.drop_last().drop_first() =~= options.drop_first().drop_last());
        assert(options.drop_last().first() == options.first());
    }
}

/// Reading gives the options whose bytes stand in the message, all of them
/// where the last one starts before `end` and nothing after it does.
pub proof fn lemma_reads_what_stands(msg: Seq<u8>, off: int, end: int, options: Seq<OptionView>)
    requires
        encodable(options),
        stands_at(msg, off, options),
        stops_after(off, end, options),
    ensures
        parse_options(msg, off, end) == Some((options, off + options_bytes(options).len())),
    decreases options.len(),
{
    if options.len() > 0 {
        let first = options.first();
        let rest = options.drop_first();
        let next = off + OPTION_HEADER_LEN + first.data.len();
        lemma_first_stands(msg, off, options);
        lemma_drop_last_bytes(options);
        assert(stops_after(next, end, rest));
        lemma_reads_what_stands(msg, next, end, rest);
        assert(seq![first] + rest =~= options);
    }
}

/// What reading gives stands in the message where it was read: the result
/// is a list whose length fields hold the lengths, whose bytes are those
/// from `off` to the offset returned, and after which reading had to stop.
pub proof fn lemma_stands_what_was_read(msg: Seq<u8>, off: int, end: int)
    requires
        0 <= off,
        parse_options(msg, off, end) is Some,
    ensures
        ({
            let (options, fin) = parse_options(msg, off, end).unwrap();
            &&& encodable(options)
            &&& stands_at(msg, off, options)
            &&& stops_after(off, end, options)
            &&& fin == off + options_bytes(options).len()
        }),
    decreases msg.len() - off,
{
    let (options, fin) = parse_options(msg, off, end).unwrap();
    if off < end {
        let code = be16_value(msg[off], msg[off + 1]);
        let len = be16_value(msg[off + 2], msg[off + 3]);
        let next = off + OPTION_HEADER_LEN + len;
        let first = OptionView { code, data: msg.subrange(off + OPTION_HEADER_LEN, next) };
        let (rest, rest_fin) = parse_options(msg, next, end).unwrap();
        assert(options == seq![first] + rest);
        lemma_stands_what_was_read(msg, next, end);
        lemma_option_stands(msg, off);
        lemma_cons_stands(msg, off, first, rest);
        assert(options.drop_first() =~= rest);
        lemma_drop_last_bytes(options);
        assert(stops_after(off, end, options));
    }
}

/// The option that the fields at `off` announce, where it fits into the
/// message, is one that can be written, and its bytes are those from `off`
/// on.
proof fn lemma_option_stands(msg: Seq<u8>, off: int)
    requires
        0 <= off,
        !overruns(msg, off),
    ensures
        ({
            let len = be16_value(msg[off + 2], msg[off + 3]);
            let next = off + OPTION_HEADER_LEN + len;
            let option = OptionView {
                code: be16_value(msg[off], msg[off + 1]),
                data: msg.subrange(off + OPTION_HEADER_LEN, next),
            };
            &&& option.data.len() <= MAX_DATA_LEN
            &&& option_bytes(option).len() == OPTION_HEADER_LEN + len
            &&& msg.subrange(off, next) == option_bytes(option)
        }),
{
    let len = be16_value(msg[off + 2], msg[off + 3]);
    let next = off + OPTION_HEADER_LEN + len;
    let option = OptionView {
        code: be16_value(msg[off], msg[off + 1]),
        data: msg.subrange(off + OPTION_HEADER_LEN, next),
    };
    assert(length_field(option.data) == len);
    lemma_be16_bytes_of_value(msg[off], msg[off + 1]);
    lemma_be16_bytes_of_value(msg[off + 2], msg[off + 3]);
    assert(msg.subrange(off, next) =~= option_bytes(option));
}

/// Where the bytes of an option stand at `off` and those of a list after
/// them, the bytes of the list with that option before it stand at `off`.
proof fn lemma_cons_stands(msg: Seq<u8>, off: int, first: OptionView, rest: Seq<OptionView>)
    requires
        0 <= off,
        first.data.len() <= MAX_DATA_LEN,
        off + option_bytes(first).len() <= msg.len(),
        msg.subrange(off, off + option_bytes(first).len()) == option_bytes(first),
        encodable(rest),
        stands_at(msg, off + option_bytes(first).len(), rest),
    ensures
        encodable(seq![first] + rest),
        stands_at(msg, off, seq![first] + rest),
        options_bytes(seq![first] + rest) == option_bytes(first) + options_bytes(rest),
{
    let options = seq![first] + rest;
    let next = off + option_bytes(first).len();
    let fin = next + options_bytes(rest).len();
    assert(options.first() == first);
    assert(options.drop_first() =~= rest);
    assert(encodable(options)) by {
        assert forall|i: int| 0 <= i < options.len() implies (#[trigger] options[i]).data.len()
            <= MAX_DATA_LEN by {
            if i > 0 {
                assert(options[i] == rest[i - 1]);
            }
        }
    }
    if options_bytes(rest).len() > 0 {
        assert(msg.subrange(off, fin) =~= msg.subrange(off, next) + msg.subrange(next, fin));
    }
}

/// Reading fails where, after some options that stand in the message, one
/// more starts before `end` and does not fit.
pub proof fn lemma_fails_on_overrun(msg: Seq<u8>, off: int, end: int, options: Seq<OptionView>)
    requires
        breaks_after(msg, off, end, options),
    ensures
        parse_options(msg, off, end) is None,
    decreases options.len(),
{
    if options.len() > 0 {
        let first = options.first();
        let next = off + OPTION_HEADER_LEN + first.data.len();
        lemma_first_stands(msg, off, options);
        lemma_fails_on_overrun(msg, next, end, options.drop_first());
    }
}

/// Reading fails only there: where it fails, some options stand in the
/// message from `off` on, and the one that starts after them, before `end`,
/// does not fit.
pub proof fn lemma_fails_only_on_overrun(msg: Seq<u8>, off: int, end: int)
    requires
        0 <= off,
        parse_options(msg, off, end) is None,
    ensures
        exists|options: Seq<OptionView>| breaks_after(msg, off, end, options),
    decreases msg.len() - off,
{
    let none = Seq::<OptionView>::empty();
    if overruns(msg, off) {
        assert(breaks_after(msg, off, end, none));
    } else {
        let code = be16_value(msg[off], msg[off + 1]);
        let len = be16_value(msg[off + 2], msg[off + 3]);
        let next = off + OPTION_HEADER_LEN + len;
        let first = OptionView { code, data: msg.subrange(off + OPTION_HEADER_LEN, next) };
        lemma_fails_only_on_overrun(msg, next, end);
        let rest = choose|rest: Seq<OptionView>| breaks_after(msg, next, end, rest);
        lemma_option_stands(msg, off);
        lemma_cons_stands(msg, off, first, rest);
        assert(breaks_after(msg, off, end, seq![first] + rest));
    }
}

/// The length field of an option holds the length of its data, and the
/// option takes four bytes more than its data, as long as the data is not
/// longer than the field can say.
pub proof fn lemma_length_field_is_length(option: OptionView)
    requires
        option.data.len() <= MAX_DATA_LEN,
    ensures
        length_field(option.data) == option.data.len(),
        option_bytes(option).len() == OPTION_HEADER_LEN + option.data.len(),
        option_bytes(option).subrange(2, 4) == be16_bytes(option.data.len() as u16),
        option_bytes(option).skip(4) == option.data,
{
}

/// What was written is read back: for a list whose length fields can hold
/// the lengths, reading the bytes of the list, from their first to their
/// last, gives the list, equal in content and in order, and ends after the
/// last byte.
pub proof fn lemma_round_trip(options: Seq<OptionView>)
    requires
        encodable(options),
    ensures
        parse_options(options_bytes(options), 0, options_bytes(options).len() as int) == Some(
            (options, options_bytes(options).len() as int),
        ),
{
    let bytes = options_bytes(options);
    assert(bytes.subrange(0, bytes.len() as int) =~= bytes);
    lemma_exact_boundary(bytes, 0, options);
}

/// An empty list is written as no bytes at all, and reading a region of
/// length zero gives the empty list and the offset at which it started,
/// wherever that is.
pub proof fn lemma_empty_list(msg: Seq<u8>, off: int)
    ensures
        options_bytes(Seq::<OptionView>::empty()) == Seq::<u8>::empty(),
        parse_options(msg, off, off) == Some((Seq::<OptionView>::empty(), off)),
{
}

/// Writing keeps the order and leaves nothing out: the bytes of the option
/// at index `i`, whatever its code, stand in the bytes of the list right
/// after the bytes of the options before it.
pub proof fn lemma_written_in_order(options: Seq<OptionView>, i: int)
    requires
        0 <= i < options.len(),
    ensures
        options_bytes(options) == options_bytes(options.take(i)) + option_bytes(options[i])
            + options_bytes(options.skip(i + 1)),
{
    let before = options.take(i);
    let after = options.skip(i + 1);
    assert(options =~= before.push(options[i]) + after);
    lemma_options_bytes_concat(before.push(options[i]), after);
    lemma_options_bytes_push(before, options[i]);
}

/// Reading keeps the order and leaves nothing out: the option at index `i`
/// of the result is the one whose bytes stand in the message right after
/// the bytes of the options before it in the result.
pub proof fn lemma_read_in_order(msg: Seq<u8>, off: int, end: int, i: int)
    requires
        0 <= off,
        parse_options(msg, off, end) is Some,
        0 <= i < parse_options(msg, off, end).unwrap().0.len(),
    ensures
        ({
            let options = parse_options(msg, off, end).unwrap().0;
            let at = off + options_bytes(options.take(i)).len();
            &&& at + option_bytes(options[i]).len() <= msg.len()
            &&& msg.subrange(at, at + option_bytes(options[i]).len()) == option_bytes(options[i])
        }),
{
    let (options, fin) = parse_options(msg, off, end).unwrap();
    let at = off + options_bytes(options.take(i)).len();
    let bytes = options_bytes(options);
    lemma_stands_what_was_read(msg, off, end);
    lemma_written_in_order(options, i);
    let window = msg.subrange(off, off + bytes.len());
    assert(msg.subrange(at, at + option_bytes(options[i]).len()) =~= option_bytes(options[i])) by {
        assert forall|k: int| 0 <= k < option_bytes(options[i]).len() implies msg[at + k]
            == option_bytes(options[i])[k] by {
            assert(window[at - off + k] == msg[at + k]);
        }
    }
}

/// Truncation is detected: where, after some options that stand in the
/// message, one more starts before `end` and announces more data than the
/// message holds after its length field, reading fails.
pub proof fn lemma_truncation_detected(
    msg: Seq<u8>,
    off: int,
    end: int,
    options: Seq<OptionView>,
)
    requires
        encodable(options),
        stands_at(msg, off, options),
        ({
            let at = off + options_bytes(options).len();
            &&& at < end
            &&& at + OPTION_HEADER_LEN <= msg.len()
            &&& be16_value(msg[at + 2], msg[at + 3]) > msg.len() - (at + OPTION_HEADER_LEN)
        }),
    ensures
        parse_options(msg, off, end) is None,
{
    lemma_fails_on_overrun(msg, off, end, options);
}

/// The boundary is met exactly: where the bytes of a list whose length
/// fields can hold the lengths stand at `off`, and the region announced is
/// as long as those bytes, reading gives the list and ends where the region
/// ends.
pub proof fn lemma_exact_boundary(msg: Seq<u8>, off: int, options: Seq<OptionView>)
    requires
        encodable(options),
        stands_at(msg, off, options),
    ensures
        parse_options(msg, off, off + options_bytes(options).len()) == Some(
            (options, off + options_bytes(options).len()),
        ),
{
    if options.len() > 0 {
        lemma_options_bytes_push(options.drop_last(), options.last());
        assert(options.drop_last().push(options.last()) =~= options);
    }
    lemma_reads_what_stands(msg, off, off + options_bytes(options).len(), options);
}

} // verus!
