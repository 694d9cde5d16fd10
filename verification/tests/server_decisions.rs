use nbd_async::device::{
    completed_reply, error_code, next_request, operation_for, reply_message, Operation,
};
use nbd_async::nbd::{Command, NbdError, Reply, Request, REPLY_MAGIC, REQUEST_MAGIC};
use nbd_async::sys::{device_flags, HAS_FLAGS, READ_ONLY};

fn header(type_f: u32, handle: u64, from: u64, len: u32) -> Vec<u8> {
    let mut d = Vec::new();
    d.extend_from_slice(&REQUEST_MAGIC.to_be_bytes());
    d.extend_from_slice(&type_f.to_be_bytes());
    d.extend_from_slice(&handle.to_be_bytes());
    d.extend_from_slice(&from.to_be_bytes());
    d.extend_from_slice(&len.to_be_bytes());
    d
}

fn request(code: u32) -> Request {
    Request::try_from_bytes(&header(code, 7, 1024, 512)).unwrap()
}

#[test]
fn operations_for_each_command() {
    assert_eq!(operation_for(&request(0)), Operation::Read { offset: 1024, len: 512 });
    assert_eq!(operation_for(&request(1)), Operation::Write { offset: 1024, len: 512 });
    assert_eq!(operation_for(&request(2)), Operation::Unsupported);
    assert_eq!(operation_for(&request(3)), Operation::Flush);
    assert_eq!(operation_for(&request(4)), Operation::Trim { offset: 1024, len: 512 });
    assert_eq!(operation_for(&request(5)), Operation::Unsupported);
    assert_eq!(request(3).command, Command::Flush);
}

#[test]
fn error_codes() {
    let eio = nix::errno::Errno::EIO as i32;
    assert_ne!(eio, 0);
    assert_eq!(error_code(None), eio);
    assert_eq!(error_code(Some(0)), 0);
    assert_eq!(error_code(Some(28)), 28);
}

#[test]
fn completed_replies() {
    let req = request(0);
    assert_eq!(completed_reply(&req, Ok(())), Reply { magic: REPLY_MAGIC, error: 0, handle: 7 });
    let eio = nix::errno::Errno::EIO as i32;
    assert_eq!(completed_reply(&req, Err(None)), Reply { magic: REPLY_MAGIC, error: eio, handle: 7 });
    assert_eq!(
        completed_reply(&req, Err(Some(13))),
        Reply { magic: REPLY_MAGIC, error: 13, handle: 7 }
    );
}

#[test]
fn reply_message_is_header_then_payload() {
    let reply = completed_reply(&request(0), Ok(()));
    let msg = reply_message(&reply, &[9, 8, 7]);
    assert_eq!(msg.len(), 19);
    assert_eq!(&msg[..4], &REPLY_MAGIC.to_be_bytes());
    assert_eq!(&msg[4..8], &[0, 0, 0, 0]);
    assert_eq!(&msg[8..16], &7u64.to_be_bytes());
    assert_eq!(&msg[16..], &[9, 8, 7]);
    let bare = reply_message(&reply, &[]);
    assert_eq!(bare.len(), 16);
}

#[test]
fn failed_read_reply_carries_error_and_handle() {
    let req = request(0);
    let reply = completed_reply(&req, Err(None));
    let msg = reply_message(&reply, &[0; 4]);
    assert_eq!(&msg[4..8], &(nix::errno::Errno::EIO as i32).to_be_bytes());
    assert_eq!(&msg[8..16], &req.handle.to_be_bytes());
}

#[test]
fn next_request_from_socket_reads() {
    assert!(next_request(&[]).is_none());
    let d = header(1, 3, 4, 5);
    assert_eq!(next_request(&d[..10]), Some(Err(NbdError::UnexpectedEof)));
    let r = next_request(&d).unwrap().unwrap();
    assert_eq!(r.command, Command::Write);
    assert_eq!(r.handle, 3);
    let mut bad = d.clone();
    bad[0] = 0;
    assert_eq!(next_request(&bad), Some(Err(NbdError::InvalidMagic)));
    let mut long = d.clone();
    long.push(0);
    assert_eq!(next_request(&long), Some(Err(NbdError::UnexpectedEof)));
}

#[test]
fn flags_for_attach() {
    assert_eq!(device_flags(true), HAS_FLAGS | READ_ONLY);
    assert_eq!(device_flags(true), 3);
    assert_eq!(device_flags(false), 0);
}
