# rust_waf

The verified core of a web application firewall. It stands before a web
application, looks at every request, and decides whether to let it pass, to
record it, or to block it.

- `src/` is the library. Its functions are verified with Verus against their
  contracts, but for the few listed below that only call other code; the laws
  that span functions are public proof functions.
- `tests/` run the library on concrete values.
- `app/` is the program around it: the two servers, the database, the files and
  the environment.

## How a request is decided on

1. A firewall that is switched off lets everything pass.
2. An address on the white list passes, one on the black list is blocked.
3. The policies of the endpoint are checked: method, mandatory headers, allowed
   headers, size of the body, number of query parameters.
4. Percent encoding, HTML character references and base64 are undone, and the
   signature rules are matched.

What steps 3 and 4 find is blocked in active mode; in passive mode it is recorded
and let through. A request that passes goes to the scheme, host and port of the
configured target, whatever its path says. Responses are passed back with security headers and hardened
cookies.

## What is taken on trust

`src/outside.rs`, `src/headers.rs` and `src/moment.rs` hold the contracts of the
calls into `base64`, `regex`, `url`, `serde_json`, `sha2`, `http` and `chrono`, and
of a few functions of the standard library; `src/text.rs` holds that of
`String::push`. Verus believes these contracts without proof.

## Paths

The library has paths as Unix has them, with slashes between their components.
The program hands over the paths of other systems in that form.
