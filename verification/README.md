# gpiocdev

A library for accessing GPIO lines on Linux through the GPIO character
device, with its core verified by Verus.

## Layout

- `src/` is the verified library:
  - `line/` holds line values, line configuration and its uAPI flag
    encodings, line info, events and periods;
  - `request/` holds the request configuration, the builder that forms the
    uAPI request, the grouping of line configurations into v2 attributes,
    the decisions taken when reading and setting values, reconfiguring and
    decoding edge events, and the bookkeeping of the edge event buffer;
  - `chip/` holds the natural ordering of chip paths, the checks that a
    device is a GPIO chip, ABI detection and the decoding of info change
    events;
  - `search.rs` holds the iteration over the lines of the chips and the
    search for named lines;
  - `uapi.rs` holds the plain forms of the kernel's records, the bit level
    facts they rest on, and the calls into `gpiocdev-uapi` that decode raw
    event buffers;
  - `text.rs` renders numbers for messages.
- `app/` performs the system calls, file access and waiting around the
  library: chips, requests, edge event buffers and the Tokio wrappers.
- `tests/` exercises the library with concrete values.
