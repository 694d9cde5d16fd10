# nbd_async

A server for the Linux NBD (network block device) protocol.

- `src/` is the verified library: the big-endian wire encoding (`wire`), the
  request and reply format (`nbd`), the per-request decisions of a server
  (`device`) and the flags a device is attached with (`sys`).
- `app/` is the asynchronous plumbing around it: the `BlockDevice` trait that
  users implement, the ioctls that attach a socket to `/dev/nbdX`, and the
  loop that reads requests from the socket, runs them on the device and
  sends the replies that the library builds.
