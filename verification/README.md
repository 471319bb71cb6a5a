# chagle

A reverse proxy that exposes services behind a NAT: clients connect to a server, prove that they
have the token of a service, and carry the connections of its visitors.

- `src/` is the library: all that the program decides, with contracts that Verus proves. It
  reads and writes nothing itself.
- `app/` is the program around it: sockets, files, arguments and waiting times.
- `tests/` runs the library on concrete values.

| module | what it holds |
| --- | --- |
| `config`, `validate`, `rate`, `masked` | the configuration and what makes it valid |
| `server`, `client`, `handshake`, `channels`, `protocol` | the two sides and how they meet |
| `http_proxy`, `sni`, `base64` | HTTP virtual hosts, credentials, TLS server names |
| `proxy_protocol`, `plugin`, `bandwidth`, `load_balance` | what is done to connections |
| `health_check`, `metrics`, `dashboard` | watching the services |
| `text`, `entries`, `name_map`, `key_map` | what all of them share |

Public proof functions state what holds over several operations, such as that decoding undoes
encoding, or that a client with the right token is let in and found again.
