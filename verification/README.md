# docker-proxy

An HTTP proxy in front of the Docker Engine's socket. It authenticates each
request, judges it by the rules of a configuration file, forwards what may pass,
and redacts what comes back.

What the proxy decides and computes stands in `src/`, a library whose functions
carry contracts that Verus proves. `app/` is the program around it: it reads the
command line and files, asks the questions of the setup wizard, and runs sockets,
TLS and clocks within its size limits and timeouts.

| Module                                  | What it holds                                              |
| --------------------------------------- | ---------------------------------------------------------- |
| `proxy`                                 | a request's way from its head to its answer, step by step  |
| `rules`, `conditions`                   | what the rules say of a request, and response filters      |
| `auth`, `tls`, `limits`                 | roles, certificates and keys, lockouts and rate limits     |
| `paths`, `addresses`, `headers`         | canonical paths, the client's address, header lists        |
| `forwarding`, `upgrade`                 | which headers pass, and requests that switch protocols     |
| `config`, `yaml`, `json`                | configuration, condition values and JSON values            |
| `environment`, `expansion`, `loading`   | from the values of a file to a configuration ready for use |
| `metrics`, `audit`, `logging`           | counters and histogram, audit records, request log lines   |
| `startup`, `setup`                      | what is settled before listening, and the wizard's rules   |
| `text`, `pattern`, `table`              | operations on text, regular expressions, a keyed table     |

Public proof functions named `law_…` state what holds of the library as a whole;
the doc comment above each says it in words. Functions marked
`#[verifier::external_body]` call other crates, and say in their doc comments what
is believed of them.

Time is handed to the library as nanoseconds of a monotonic clock, so that limits
and lockouts can be tested without waiting.
