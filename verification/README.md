# cntlm-next

A local HTTP proxy for `git`, `npm`, `curl` and other programs that cannot
authenticate to the proxy of their network. It listens on `127.0.0.1:3128`
without authentication, and answers the NTLM and Negotiate challenges of the
upstream proxy as the Windows user who is logged in. Which upstream proxy leads
to a destination comes from the user's proxy settings, from a PAC script, or
from the configuration.

## Layout

- `src/` is the library, verified with Verus. It holds what the program decides
  and computes: addresses and rules for hosts, proxy lists, HTTP/1 messages,
  chunked bodies, the handshake, the choice of hops, the ways to connect, and
  the texts that are printed. `src/boundary.rs` holds the functions of other
  crates that it calls, with what it relies on of each.
- `app/` is the program around it: the command line, files, sockets, the calls
  of Windows.
- `tests/` are the library's tests.

Readers of connections are state machines over the bytes that have arrived: they
say how many bytes to ask for, are fed what came, and give what is complete.
