use nbd_async::nbd::{
    Command, NbdError, Reply, Request, CMD_MASK_COMMAND, REPLY_MAGIC, REQUEST_MAGIC,
    SIZE_OF_REPLY, SIZE_OF_REQUEST,
};

fn header(magic: u32, type_f: u32, handle: u64, from: u64, len: u32) -> Vec<u8> {
    let mut d = Vec::new();
    d.extend_from_slice(&magic.to_be_bytes());
    d.extend_from_slice(&type_f.to_be_bytes());
    d.extend_from_slice(&handle.to_be_bytes());
    d.extend_from_slice(&from.to_be_bytes());
    d.extend_from_slice(&len.to_be_bytes());
    d
}

#[test]
fn sizes_and_magics() {
    assert_eq!(SIZE_OF_REQUEST, 28);
    assert_eq!(SIZE_OF_REPLY, 16);
    assert_eq!(REQUEST_MAGIC, 0x2560_9513);
    assert_eq!(REPLY_MAGIC, 0x6744_6698);
    assert_eq!(CMD_MASK_COMMAND, 0xffff);
}

#[test]
fn parses_read_request_fields() {
    let d = header(REQUEST_MAGIC, 0, 0x0102_0304_0506_0708, 4096, 512);
    assert_eq!(d.len(), SIZE_OF_REQUEST);
    let r = Request::try_from_bytes(&d).unwrap();
    assert_eq!(r.magic, REQUEST_MAGIC);
    assert_eq!(r.command, Command::Read);
    assert_eq!(r.handle, 0x0102_0304_0506_0708);
    assert_eq!(r.from, 4096);
    assert_eq!(r.len, 512);
    assert!(!r.flags.fua);
    assert!(!r.flags.no_hole);
}

#[test]
fn parses_exact_byte_layout() {
    let d: Vec<u8> = vec![
        0x25, 0x60, 0x95, 0x13, // magic
        0x00, 0x03, 0x00, 0x01, // flags 3, command 1
        0, 0, 0, 0, 0, 0, 0, 9, // handle
        0, 0, 0, 0, 0, 1, 0, 0, // offset
        0, 0, 0x10, 0, // length
    ];
    let r = Request::try_from_bytes(&d).unwrap();
    assert_eq!(r.command, Command::Write);
    assert!(r.flags.fua);
    assert!(r.flags.no_hole);
    assert_eq!(r.handle, 9);
    assert_eq!(r.from, 0x1_0000);
    assert_eq!(r.len, 0x1000);
}

#[test]
fn each_command_code() {
    let expected = [
        Command::Read,
        Command::Write,
        Command::Disc,
        Command::Flush,
        Command::Trim,
        Command::WriteZeroes,
    ];
    for (code, cmd) in expected.iter().enumerate() {
        let d = header(REQUEST_MAGIC, code as u32, 1, 2, 3);
        assert_eq!(Request::try_from_bytes(&d).unwrap().command, *cmd);
    }
}

#[test]
fn flag_bits_are_read_from_high_half() {
    let fua = header(REQUEST_MAGIC, (1 << 16) | 3, 1, 0, 0);
    let r = Request::try_from_bytes(&fua).unwrap();
    assert!(r.flags.fua && !r.flags.no_hole);
    let no_hole = header(REQUEST_MAGIC, (1 << 17) | 5, 1, 0, 0);
    let r = Request::try_from_bytes(&no_hole).unwrap();
    assert!(!r.flags.fua && r.flags.no_hole);
    assert_eq!(r.command, Command::WriteZeroes);
    // other flag bits are ignored
    let other = header(REQUEST_MAGIC, (0xfffc << 16) | 4, 1, 0, 0);
    let r = Request::try_from_bytes(&other).unwrap();
    assert!(!r.flags.fua && !r.flags.no_hole);
    assert_eq!(r.command, Command::Trim);
}

#[test]
fn invalid_magic() {
    let d = header(REPLY_MAGIC, 0, 1, 2, 3);
    assert_eq!(Request::try_from_bytes(&d).unwrap_err(), NbdError::InvalidMagic);
}

#[test]
fn invalid_command() {
    let d = header(REQUEST_MAGIC, 6, 1, 2, 3);
    assert_eq!(Request::try_from_bytes(&d).unwrap_err(), NbdError::InvalidCommand);
    let d = header(REQUEST_MAGIC, 0xffff, 1, 2, 3);
    assert_eq!(Request::try_from_bytes(&d).unwrap_err(), NbdError::InvalidCommand);
}

#[test]
fn short_input_is_unexpected_eof() {
    let d = header(REQUEST_MAGIC, 0, 1, 2, 3);
    for n in 0..SIZE_OF_REQUEST {
        assert_eq!(Request::try_from_bytes(&d[..n]).unwrap_err(), NbdError::UnexpectedEof);
    }
    // a short buffer is reported before a bad magic
    let bad = header(0, 0, 1, 2, 3);
    assert_eq!(Request::try_from_bytes(&bad[..27]).unwrap_err(), NbdError::UnexpectedEof);
}

#[test]
fn trailing_bytes_are_ignored() {
    let mut d = header(REQUEST_MAGIC, 1, 77, 88, 99);
    let a = Request::try_from_bytes(&d).unwrap();
    d.extend_from_slice(&[0xff; 10]);
    let b = Request::try_from_bytes(&d).unwrap();
    assert_eq!(a, b);
}

#[test]
fn reply_from_request() {
    let d = header(REQUEST_MAGIC, 0, 0xdead_beef, 0, 0);
    let req = Request::try_from_bytes(&d).unwrap();
    let reply = Reply::from_request(&req);
    assert_eq!(reply, Reply { magic: REPLY_MAGIC, error: 0, handle: 0xdead_beef });
}

#[test]
fn append_to_vec_encodes_big_endian() {
    let reply = Reply { magic: REPLY_MAGIC, error: 5, handle: 0x0102_0304_0506_0708 };
    let mut buf = vec![0xaa];
    reply.append_to_vec(&mut buf).unwrap();
    assert_eq!(
        buf,
        vec![0xaa, 0x67, 0x44, 0x66, 0x98, 0, 0, 0, 5, 1, 2, 3, 4, 5, 6, 7, 8]
    );
}

#[test]
fn negative_error_is_twos_complement() {
    let reply = Reply { magic: 0, error: -1, handle: 0 };
    let mut buf = Vec::new();
    reply.append_to_vec(&mut buf).unwrap();
    assert_eq!(&buf[4..8], &[0xff, 0xff, 0xff, 0xff]);
}

#[test]
fn write_to_slice_exact_and_longer() {
    let reply = Reply { magic: REPLY_MAGIC, error: 0, handle: 42 };
    let mut exact = [0u8; 16];
    reply.write_to_slice(&mut exact).unwrap();
    let mut appended = Vec::new();
    reply.append_to_vec(&mut appended).unwrap();
    assert_eq!(&exact[..], &appended[..]);

    let mut longer = [0x11u8; 20];
    reply.write_to_slice(&mut longer).unwrap();
    assert_eq!(&longer[..16], &appended[..]);
    assert_eq!(&longer[16..], &[0x11; 4]);
}

#[test]
fn write_to_short_slice_fails_after_partial_write() {
    let reply = Reply { magic: REPLY_MAGIC, error: 0, handle: 42 };
    let mut short = [0u8; 6];
    assert_eq!(reply.write_to_slice(&mut short).unwrap_err(), NbdError::WriteZero);
    assert_eq!(short, [0x67, 0x44, 0x66, 0x98, 0, 0]);
    let mut empty: [u8; 0] = [];
    assert_eq!(reply.write_to_slice(&mut empty).unwrap_err(), NbdError::WriteZero);
}
