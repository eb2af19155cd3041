# northmail

The verified core of the NorthMail email client, written in Verus.

- `src/` — the library, every function proved against its contract except the
  few wrappers around outside crates and std (marked `external_body`, whose
  contracts are trusted):
  folder classification (`folder`), message flags and headers (`message`),
  the raw IMAP protocol (`imap_commands`, `imap_response`, `imap_fetch`,
  `imap_envelope`, `imap_list`, `bodystructure`), XOAUTH2 (`oauth2`),
  outgoing mail for SMTP and Microsoft Graph (`smtp`, `outgoing`), and the
  decisions behind the views: the message list (`listing`, `context_menu`),
  the folder sidebar (`sidebar`, `dragdrop`), the compose window (`compose`,
  `compose_session`, `recipients`), the main window (`main_window`), dates,
  HTML text and links (`dates`, `html_text`, `links`). `text` holds the
  string model and its lemmas.
- `app/` — the I/O around it: IMAP connections (raw over TLS, and through
  `async-imap`), sending through `lettre` and Microsoft Graph, error types
  with `Display`, and the few helpers that work in floating point.
- `tests/` — tests of the library on concrete values.

The GTK/libadwaita/WebKit widgets of the client are not part of this crate:
they need the system's GTK and WebKit libraries. The crate holds what those
views decide (the `listing`, `sidebar`, `compose*`, `recipients`,
`main_window`, `context_menu`, `dragdrop`, `html_text` and `links` modules).
