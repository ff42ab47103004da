# xitca_core

Verified cores of a few network protocols. They work on plain values, and their contracts say what
they return and change. Where chance or the clock has a say, as in the key of a masked frame or the
present date, a second function takes the key or the time as an argument and has the exact
contract. Where memory sets a limit, or the caller has to keep an order of steps, a function states
it as its precondition. Input and output, timers and tasks stay outside.

- `src/http_ws`: WebSocket frames. Reading and writing of frames, masking, opcodes, close codes
  and close reasons.
- `src/http`: the date of HTTP messages.
- `src/postgres`: the driver of a PostgreSQL connection. The queue of requests, the splitting of
  what the server sends into answers and other messages, the handing out of the answers, and the
  states of writing and closing.
- `src/service`: services that are put together from a service and a function.
- `src/buffer.rs`: what is relied on of the `bytes` crate, and big-endian numbers.
- `app`: the input and output around the cores.

The modules named `laws` state what holds of several functions together: that a frame is read back
as it was written, that no byte of the server is lost, that answers come in the order of the
requests, that a connection is shut down only when nothing is left to write and no request waits,
and more.

What the cores rely on without proof are the items marked `external_body` and
`assume_specification`. Each says in its comment what it claims of the function outside.
