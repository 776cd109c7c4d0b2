use dns_opt::errors::Error;
use dns_opt::opt::{DNSOption, DNSType, OPTResource};
use std::collections::HashMap;

fn option(code: u16, data: &[u8]) -> DNSOption {
    DNSOption { code, data: data.to_vec() }
}

fn resource(options: Vec<DNSOption>) -> OPTResource {
    OPTResource { options }
}

fn packed(r: &OPTResource, msg: Vec<u8>) -> Vec<u8> {
    let mut compression: Option<HashMap<String, usize>> = None;
    match r.pack(msg, &mut compression, 0) {
        Ok(out) => out,
        Err(e) => panic!("pack failed: {:?}", e),
    }
}

#[test]
fn pack_empty_list_on_empty_buffer() {
    let r = resource(vec![]);
    assert_eq!(packed(&r, vec![]), Vec::<u8>::new());
}

#[test]
fn pack_empty_list_appends_nothing() {
    let r = OPTResource::default();
    assert_eq!(packed(&r, vec![7, 8, 9]), vec![7, 8, 9]);
}

#[test]
fn pack_single_option() {
    let r = resource(vec![option(3, &[1, 2, 3])]);
    assert_eq!(packed(&r, vec![]), vec![0x00, 0x03, 0x00, 0x03, 0x01, 0x02, 0x03]);
}

#[test]
fn pack_appends_after_what_is_there() {
    let r = resource(vec![option(0x1234, &[0xff])]);
    assert_eq!(
        packed(&r, vec![0xaa, 0xbb]),
        vec![0xaa, 0xbb, 0x12, 0x34, 0x00, 0x01, 0xff]
    );
}

#[test]
fn pack_writes_big_endian_fields() {
    let data = vec![0x5a; 0x0102];
    let r = resource(vec![option(0xfffe, &data)]);
    let out = packed(&r, vec![]);
    assert_eq!(out.len(), 4 + 0x0102);
    assert_eq!(&out[..4], &[0xff, 0xfe, 0x01, 0x02]);
    assert_eq!(&out[4..], &data[..]);
}

#[test]
fn pack_leaves_compression_alone() {
    let r = resource(vec![option(1, &[]), option(2, &[9])]);
    let mut names: HashMap<String, usize> = HashMap::new();
    names.insert(String::from("example.local."), 12);
    let mut compression = Some(names.clone());
    let out = r.pack(vec![], &mut compression, 12);
    assert_eq!(out, Ok(vec![0, 1, 0, 0, 0, 2, 0, 1, 9]));
    assert_eq!(compression, Some(names));
    assert_eq!(r, resource(vec![option(1, &[]), option(2, &[9])]));
}

#[test]
fn pack_never_fails() {
    let mut compression: Option<HashMap<String, usize>> = None;
    assert!(resource(vec![]).pack(vec![], &mut compression, 0).is_ok());
    assert!(resource(vec![option(0, &[])]).pack(vec![1], &mut compression, 5).is_ok());
    assert_eq!(compression, None);
}

#[test]
fn pack_truncates_the_length_of_long_data() {
    let r = resource(vec![option(9, &vec![1u8; 0x1_0000])]);
    let out = packed(&r, vec![]);
    assert_eq!(out.len(), 4 + 0x1_0000);
    assert_eq!(&out[..4], &[0, 9, 0, 0]);
    assert!(out[4..].iter().all(|b| *b == 1));

    let r = resource(vec![option(9, &vec![2u8; 0x1_0001])]);
    let out = packed(&r, vec![]);
    assert_eq!(out.len(), 4 + 0x1_0001);
    assert_eq!(&out[..4], &[0, 9, 0, 1]);
}

#[test]
fn unpack_single_option() {
    let mut r = OPTResource::default();
    let msg = [0x00, 0x03, 0x00, 0x03, 0x01, 0x02, 0x03];
    assert_eq!(r.unpack(&msg, 0, 7), Ok(7));
    assert_eq!(r.options, vec![option(3, &[1, 2, 3])]);
}

#[test]
fn unpack_truncated_data_fails() {
    let mut r = OPTResource::default();
    let msg = [0x00, 0x03, 0x00, 0x05, 0x01];
    assert_eq!(r.unpack(&msg, 0, 9), Err(Error::ErrCalcLen));
}

#[test]
fn two_options_round_trip() {
    let r = resource(vec![option(1, &[]), option(2, &[9])]);
    let msg = packed(&r, vec![]);
    assert_eq!(msg, vec![0, 1, 0, 0, 0, 2, 0, 1, 9]);
    let mut back = OPTResource::default();
    assert_eq!(back.unpack(&msg, 0, msg.len()), Ok(9));
    assert_eq!(back.options, vec![option(1, &[]), option(2, &[9])]);
    assert_eq!(back, r);
}

#[test]
fn round_trip_of_many_options() {
    let r = resource(vec![
        option(10, &[1, 2, 3, 4, 5, 6, 7, 8]),
        option(0, &[]),
        option(65535, &[0]),
        option(10, &[1, 2, 3, 4, 5, 6, 7, 8]),
        option(12, &vec![0; 300]),
        option(8, &[0, 1, 24, 0, 192, 0, 2]),
    ]);
    let msg = packed(&r, vec![]);
    let mut back = resource(vec![option(77, &[7])]);
    assert_eq!(back.unpack(&msg, 0, msg.len()), Ok(msg.len()));
    assert_eq!(back, r);
}

#[test]
fn round_trip_of_the_longest_data() {
    let data: Vec<u8> = (0..0xffffu32).map(|i| (i % 251) as u8).collect();
    let r = resource(vec![option(1, &data), option(2, &[])]);
    let msg = packed(&r, vec![]);
    assert_eq!(msg.len(), 4 + 0xffff + 4);
    assert_eq!(&msg[..4], &[0, 1, 0xff, 0xff]);
    let mut back = OPTResource::default();
    assert_eq!(back.unpack(&msg, 0, msg.len()), Ok(msg.len()));
    assert_eq!(back, r);
}

#[test]
fn round_trip_inside_a_message() {
    let r = resource(vec![option(5, &[1]), option(6, &[2, 3])]);
    let before = vec![0xde, 0xad, 0xbe];
    let mut msg = packed(&r, before.clone());
    let end = msg.len();
    msg.extend_from_slice(&[0, 7, 0, 0]);
    let mut back = OPTResource::default();
    assert_eq!(back.unpack(&msg, before.len(), end - before.len()), Ok(end));
    assert_eq!(back, r);
}

#[test]
fn unpack_of_an_empty_region() {
    let msg = [0x00, 0x03, 0x00, 0x03, 0x01, 0x02, 0x03];
    for off in [0usize, 3, 7, 8, 1000, usize::MAX] {
        let mut r = resource(vec![option(1, &[1])]);
        assert_eq!(r.unpack(&msg, off, 0), Ok(off));
        assert_eq!(r.options, vec![]);
    }
    let mut r = resource(vec![option(1, &[1])]);
    assert_eq!(r.unpack(&[], 0, 0), Ok(0));
    assert_eq!(r, OPTResource::default());
}

#[test]
fn unpack_keeps_order_and_equal_codes() {
    let msg = [0, 5, 0, 1, 0xa, 0, 4, 0, 0, 0, 5, 0, 1, 0xb, 0, 5, 0, 1, 0xa];
    let mut r = OPTResource::default();
    assert_eq!(r.unpack(&msg, 0, msg.len()), Ok(msg.len()));
    assert_eq!(
        r.options,
        vec![option(5, &[0xa]), option(4, &[]), option(5, &[0xb]), option(5, &[0xa])]
    );
    assert_eq!(packed(&r, vec![]), msg.to_vec());
}

#[test]
fn pack_keeps_order_and_equal_codes() {
    let a = resource(vec![option(1, &[1]), option(2, &[2]), option(1, &[1])]);
    let b = resource(vec![option(2, &[2]), option(1, &[1]), option(1, &[1])]);
    assert_eq!(packed(&a, vec![]), vec![0, 1, 0, 1, 1, 0, 2, 0, 1, 2, 0, 1, 0, 1, 1]);
    assert_eq!(packed(&b, vec![]), vec![0, 2, 0, 1, 2, 0, 1, 0, 1, 1, 0, 1, 0, 1, 1]);
}

#[test]
fn unpack_replaces_what_was_there() {
    let mut r = resource(vec![option(1, &[1]), option(2, &[2])]);
    assert_eq!(r.unpack(&[0, 9, 0, 0], 0, 4), Ok(4));
    assert_eq!(r.options, vec![option(9, &[])]);
}

#[test]
fn unpack_starts_at_the_offset() {
    let msg = [0xff, 0xff, 0xff, 0x01, 0x02, 0x00, 0x02, 0xab, 0xcd, 0xff];
    let mut r = OPTResource::default();
    assert_eq!(r.unpack(&msg, 3, 6), Ok(9));
    assert_eq!(r.options, vec![option(0x0102, &[0xab, 0xcd])]);
}

#[test]
fn unpack_fails_on_a_cut_header() {
    for len in 1..4usize {
        let msg = [0u8, 3, 0];
        let mut r = resource(vec![option(1, &[1])]);
        assert_eq!(r.unpack(&msg[..len], 0, 4), Err(Error::ErrCalcLen));
        assert_eq!(r.options, vec![option(1, &[1])]);
    }
    let mut r = OPTResource::default();
    assert_eq!(r.unpack(&[], 0, 1), Err(Error::ErrCalcLen));
    assert_eq!(r.unpack(&[0, 1, 0, 0], 5, 1), Err(Error::ErrCalcLen));
    assert_eq!(r.unpack(&[0, 1, 0, 0], usize::MAX, 1), Err(Error::ErrCalcLen));
    assert_eq!(r.unpack(&[0, 1, 0, 0], usize::MAX, usize::MAX), Err(Error::ErrCalcLen));
}

#[test]
fn unpack_fails_on_cut_data_of_a_later_option() {
    let msg = [0, 1, 0, 1, 7, 0, 2, 0, 3, 8, 8];
    let mut r = resource(vec![option(4, &[4])]);
    assert_eq!(r.unpack(&msg, 0, msg.len()), Err(Error::ErrCalcLen));
    assert_eq!(r.options, vec![option(4, &[4])]);
    let mut r = OPTResource::default();
    assert_eq!(r.unpack(&msg, 0, 5), Ok(5));
    assert_eq!(r.options, vec![option(1, &[7])]);
}

#[test]
fn unpack_fails_when_the_region_is_longer_than_the_options() {
    let msg = [0, 1, 0, 1, 7];
    let mut r = OPTResource::default();
    assert_eq!(r.unpack(&msg, 0, 6), Err(Error::ErrCalcLen));
    assert_eq!(r.unpack(&msg, 0, usize::MAX), Err(Error::ErrCalcLen));
    assert_eq!(r.unpack(&msg, 0, 5), Ok(5));
}

#[test]
fn unpack_consumes_exactly_the_region() {
    let msg = [0, 1, 0, 1, 7, 0, 2, 0, 0, 0, 3, 0, 2, 1, 2, 0xee, 0xee, 0xee, 0xee, 0xee];
    let mut r = OPTResource::default();
    assert_eq!(r.unpack(&msg, 0, 15), Ok(15));
    assert_eq!(r.options, vec![option(1, &[7]), option(2, &[]), option(3, &[1, 2])]);
    assert_eq!(r.unpack(&msg, 0, 9), Ok(9));
    assert_eq!(r.options, vec![option(1, &[7]), option(2, &[])]);
    assert_eq!(r.unpack(&msg, 5, 4), Ok(9));
    assert_eq!(r.options, vec![option(2, &[])]);
}

#[test]
fn unpack_lets_the_last_option_pass_the_region() {
    // Only the start of an option is held against the end of the region.
    let msg = [0, 1, 0, 2, 9, 9, 7, 7];
    let mut r = OPTResource::default();
    assert_eq!(r.unpack(&msg, 0, 5), Ok(6));
    assert_eq!(r.options, vec![option(1, &[9, 9])]);
    assert_eq!(r.unpack(&msg, 0, 1), Ok(6));
    assert_eq!(r.options, vec![option(1, &[9, 9])]);
    let msg = [0, 1, 0, 0, 0, 2, 0, 3, 1, 2, 3];
    assert_eq!(r.unpack(&msg, 0, 5), Ok(11));
    assert_eq!(r.options, vec![option(1, &[]), option(2, &[1, 2, 3])]);
}

#[test]
fn unpack_to_the_last_byte_of_the_message() {
    let msg = [0, 1, 0xff, 0xff];
    let mut r = OPTResource::default();
    assert_eq!(r.unpack(&msg, 0, 4), Err(Error::ErrCalcLen));
    let mut msg = vec![0, 1, 0xff, 0xff];
    msg.extend_from_slice(&vec![3u8; 0xfffe]);
    assert_eq!(r.unpack(&msg, 0, 4), Err(Error::ErrCalcLen));
    msg.push(3);
    assert_eq!(r.unpack(&msg, 0, 4), Ok(4 + 0xffff));
    assert_eq!(r.options, vec![option(1, &vec![3u8; 0xffff])]);
}

#[test]
fn long_data_does_not_come_back() {
    let r = resource(vec![option(9, &vec![1u8; 0x1_0000])]);
    let msg = packed(&r, vec![]);
    let mut back = OPTResource::default();
    assert_eq!(back.unpack(&msg, 0, 4), Ok(4));
    assert_eq!(back.options, vec![option(9, &[])]);
    assert_ne!(back, r);
}

#[test]
fn real_type_is_opt() {
    assert_eq!(OPTResource::default().real_type(), DNSType::OPT);
    assert_eq!(resource(vec![option(1, &[1])]).real_type(), DNSType::OPT);
    assert_ne!(OPTResource::default().real_type(), DNSType::TXT);
}

#[test]
fn default_values() {
    assert_eq!(OPTResource::default().options, vec![]);
    assert_eq!(DNSOption::default(), option(0, &[]));
}
