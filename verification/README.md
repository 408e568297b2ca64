# bsdroid

Reads and writes the files of an Android device over MTP, on FreeBSD.

The library in `src/` is verified with Verus. It does no input or output: it says which transfer, listing or
wait is due, and takes in what came of it. The programs in `app/` move the bytes, over `libusb20` and `libfuse`.

| Module    | Subject                                                             |
| --------- | ------------------------------------------------------------------- |
| `ptp`     | Containers and datasets on the wire                                 |
| `usb`     | Descriptors, devices, transfers and the search for an MTP interface |
| `session` | One MTP session: operations, their answers, drains and repairs      |
| `mtpfs`   | The object tree, the requests of a filesystem, and reading ahead    |
| `probe`   | What `mtpprobe` reports                                             |
| `fixture` | Captures as annotated hexadecimal text                              |
| `text`    | Characters, digits and messages                                     |
| `time`    | Spans of time                                                       |

Three things are believed and not proved: what `String::push`, `char::from_u32` and `String::from_utf8` of the
standard library do. All three stand in `src/text.rs`.
