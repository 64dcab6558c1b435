# tencent_scf

A runtime for serverless compute functions on Tencent Cloud, written in Verus.

- `src/` is the verified library: how an invocation's headers become a
  `Context` (`context`, `decimal`), how an API gateway event becomes a request
  and a response becomes the gateway's record (`builtin::api`, with what the `http` and
  `base64` crates accept in `http_rules` and `codec`), the raw payload
  conversions (`convert`), named values with each name once (`Dict`), and the runtime's loop as a state machine
  (`runtime`): from where it stands and what the program reports, the next
  state and the request to make.
- `app/` is the program around it: HTTP with `ureq`, environment variables,
  JSON with `serde`, panic catching, and the `http::Request` / `http::Response`
  values that users see.
- `tests/` runs the library on concrete values.
