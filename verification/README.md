# pregate

A gate in front of a language-API backend. Each request text is checked
against a rules file: if it contains one of the rule phrases (or, when it
contains the exception phrase, one of rules two to six), or if it matches the
first rule once separators, case and letter-by-letter spelling are undone, it
gets a fixed reply; otherwise it is forwarded to the backend.

- `src/` is the verified library (Verus): the rule decision (`procl`), the
  separator detection and word-count similarity (`procl::simsim`), string and
  counting primitives (`text`, `counting`) and the calls into the `regex`
  crate (`pattern`).
- `app/` is the HTTPS server around it (actix-web, rustls, reqwest), the rules
  file reading (toml), and the floating-point cosine comparison (ndarray).
- `tests/` exercises the library with the real `regex` crate.
