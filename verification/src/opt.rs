//! The OPT pseudo resource record and its options.

use crate::errors::Error;
use crate::packer::{pack_bytes, pack_uint16, unpack_uint16};
use crate::text::{option_text, options_items, push_bytes, push_decimal, resource_text};
use crate::wire::{lemma_options_bytes_push, options_bytes, parse_options, OptionView};
use std::collections::HashMap;
use vstd::prelude::*;

verus! {

/// The types of resource records that a message body can have.
#[derive(Clone, Copy, Debug, PartialEq, Eq, Structural)]
pub enum DNSType {
    A,
    NS,
    CNAME,
    SOA,
    PTR,
    MX,
    TXT,
    AAAA,
    SRV,
    OPT,
}

/// A DNS message option within an `OPTResource`.
///
/// The message option is part of the extension mechanisms for DNS as
/// defined in RFC 6891. Its data is opaque here.
#[derive(Debug, PartialEq, Eq)]
pub struct DNSOption {
    /// The option code.
    pub code: u16,
    /// The option data.
    pub data: Vec<u8>,
}

impl View for DNSOption {
    type V = OptionView;

    open spec fn view(&self) -> OptionView {
        OptionView { code: self.code, data: self.data@ }
    }
}

impl Clone for DNSOption {
    /// An option with the same code and the same data.
    fn clone(&self) -> (option: Self)
        ensures
            option@ == self@,
    {
        DNSOption { code: self.code, data: self.data.clone() }
    }
}

impl Default for DNSOption {
    /// The option with code 0 and no data.
    fn default() -> (option: Self)
        ensures
            option@ == (OptionView { code: 0, data: Seq::empty() }),
    {
        DNSOption { code: 0, data: Vec::new() }
    }
}

impl DNSOption {
    /// Appends the text of this option to `text`.
    fn push_text(&self, text: &mut String)
        ensures
            final(text)@ == old(text)@ + option_text(self@),
    {
        text.append("dnsmessage.Option{Code: ");
        push_decimal(text, self.code);
        text.append(", Data: ");
        push_bytes(text, self.data.as_slice());
        text.append("}");
    }

    /// The text of this option, for diagnostics: its code in decimal and
    /// its data as a list of bytes in decimal.
    pub fn to_string(&self) -> (text: String)
        ensures
            text@ == option_text(self@),
    {
        let mut text = String::new();
        self.push_text(&mut text);
        text
    }
}

/// An OPT pseudo resource record.
///
/// The pseudo resource record is part of the extension mechanisms for DNS
/// as defined in RFC 6891. The order of its options is their order on the
/// wire; two of them may have the same code.
#[derive(Debug, PartialEq, Eq)]
pub struct OPTResource {
    /// The options, in their order on the wire.
    pub options: Vec<DNSOption>,
}

impl View for OPTResource {
    type V = Seq<OptionView>;

    open spec fn view(&self) -> Seq<OptionView> {
        views(self.options@)
    }
}

impl Clone for OPTResource {
    /// A record with the same options in the same order.
    fn clone(&self) -> (resource: Self)
        ensures
            resource@ == self@,
    {
        let mut options: Vec<DNSOption> = Vec::new();
        let mut i: usize = 0;
        while i < self.options.len()
            invariant
                i <= self.options.len(),
                views(options@) == self@.take(i as int),
            decreases self.options.len() - i,
        {
            let option = self.options[i].clone();
            assert(views(options@.push(option)) =~= self@.take(i as int).push(option@));
            options.push(option);
            i = i + 1;
        }
        OPTResource { options }
    }
}

impl Default for OPTResource {
    /// The record without options.
    fn default() -> (resource: Self)
        ensures
            resource@ == Seq::<OptionView>::empty(),
    {
        OPTResource { options: Vec::new() }
    }
}

impl OPTResource {
    /// The text of this record, for diagnostics: the texts of its options
    /// in their order, with a comma between one and the next.
    pub fn to_string(&self) -> (text: String)
        ensures
            text@ == resource_text(self@),
    {
        let mut text = String::new();
        text.append("dnsmessage.OPTResource{options: ");
        let ghost start = text@;
        let mut i: usize = 0;
        while i < self.options.len()
            invariant
                i <= self.options.len(),
                text@ == start + options_items(self@.take(i as int)),
            decreases self.options.len() - i,
        {
            if i > 0 {
                text.append(",");
            }
            self.options[i].push_text(&mut text);
            assert(self@.take(i + 1).drop_last() =~= self@.take(i as int));
            i = i + 1;
        }
        text.append("}");
        assert(self@.take(i as int) =~= self@);
        text
    }

    /// The type of this record body, which is always `DNSType::OPT`.
    pub fn real_type(&self) -> (t: DNSType)
        ensures
            t == DNSType::OPT,
    {
        DNSType::OPT
    }

    /// Appends the options to `msg`, in their order: of each its code, the
    /// length of its data and the data.
    ///
    /// Names are not compressed in this record, so `compression` is left as
    /// it is and `compression_off` is not looked at. Never fails.
    pub fn pack(
        &self,
        msg: Vec<u8>,
        compression: &mut Option<HashMap<String, usize>>,
        compression_off: usize,
    ) -> (res: Result<Vec<u8>, Error>)
        ensures
            res matches Ok(out) && out@ == msg@ + options_bytes(self@),
            *final(compression) == *old(compression),
    {
        let mut out = msg;
        let n: usize = self.options.len();
        let mut i: usize = 0;
        while i < n
            invariant
                i <= n,
                n == self.options.len(),
                out@ == msg@ + options_bytes(self@.take(i as int)),
            decreases n - i,
        {
            let opt = &self.options[i];
            out = pack_uint16(out, opt.code);
            out = pack_uint16(out, (opt.data.len() % 0x1_0000) as u16);
            out = pack_bytes(out, opt.data.as_slice());
            proof {
                lemma_options_bytes_push(self@.take(i as int), opt@);
                assert(self@.take(i as int).push(opt@) =~= self@.take(i + 1));
            }
            i = i + 1;
        }
        assert(self@.take(n as int) =~= self@);
        Ok(out)
    }

    /// Reads the options of a record from `msg`: the first starts at `off`,
    /// and another one is read as long as it starts before `off + length`.
    /// On success the options of `self` are those read, in the order in
    /// which they stand in `msg`, and the result is the offset after the
    /// last byte read.
    ///
    /// Fails with `Error::ErrCalcLen`, and leaves `self` as it was, where
    /// the code, the length or the announced data of one of them are not
    /// all within `msg`.
    pub fn unpack(&mut self, msg: &[u8], off: usize, length: usize) -> (res: Result<usize, Error>)
        ensures
            match res {
                Ok(end) => parse_options(msg@, off as int, off + length) == Some(
                    (final(self)@, end as int),
                ),
                Err(e) => e == Error::ErrCalcLen && parse_options(msg@, off as int, off + length)
                    is None && *final(self) == *old(self),
            },
    {
        let mut opts: Vec<DNSOption> = Vec::new();
        let mut cur: usize = off;
        let ghost end = off + length;
        while cur - off < length
            invariant
                off <= cur,
                end == off + length,
                *self == *old(self),
                parse_options(msg@, off as int, end) == following(
                    views(opts@),
                    parse_options(msg@, cur as int, end),
                ),
            decreases msg@.len() - cur,
        {
            let (code, at_len) = match unpack_uint16(msg, cur) {
                Ok(read) => read,
                Err(e) => {
                    return Err(e);
                },
            };
            let (l, at_data) = match unpack_uint16(msg, at_len) {
                Ok(read) => read,
                Err(e) => {
                    return Err(e);
                },
            };
            let l: usize = l as usize;
            if l > msg.len() - at_data {
                return Err(Error::ErrCalcLen);
            }
            let mut data: Vec<u8> = Vec::new();
            data.extend_from_slice(&msg[at_data..at_data + l]);
            let opt = DNSOption { code, data };
            proof {
                assert(opt.data@ =~= msg@.subrange(at_data as int, at_data + l));
                assert(views(opts@.push(opt)) =~= views(opts@).push(opt@));
                if let Some((more, fin)) = parse_options(msg@, at_data + l, end) {
                    assert(views(opts@).push(opt@) + more =~= views(opts@) + (seq![opt@] + more));
                }
            }
            opts.push(opt);
            cur = at_data + l;
        }
        self.options = opts;
        Ok(cur)
    }
}

/// The options of a vector, each as a value.
pub open spec fn views(options: Seq<DNSOption>) -> Seq<OptionView> {
    options.map_values(|o: DNSOption| o@)
}

/// What reading gives as a whole when `read` was read already and `rest` is
/// what reading the rest gives.
spec fn following(read: Seq<OptionView>, rest: Option<(Seq<OptionView>, int)>) -> Option<
    (Seq<OptionView>, int),
> {
    match rest {
        Some((more, fin)) => Some((read + more, fin)),
        None => None,
    }
}

} // verus!
