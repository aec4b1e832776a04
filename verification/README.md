# email_assistant

Reads cooptation requests from an IMAP inbox, files each request of an
identified user with the company's cooptation API, and answers it with a
receipt by SMTP.

- `src/` is the verified library (Verus): reading raw messages into header
  fields and body parts (`reader`), the values profiled from a request
  (`api::profiling`), what is sent to the EOS and cooptation APIs (`api`,
  `api::eos`, `api::cooptation`), the receipt (`receipt`), the character
  sequence operations these rest on (`text`) and the regular expressions of
  the `regex` crate (`pattern`).
- `app/` is the program around it: environment, IMAP, HTTP, SMTP and files.
- `tests/` exercises the library on concrete messages.
