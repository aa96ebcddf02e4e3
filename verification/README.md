# cosmix

The decision logic of the cosmix desktop and mail suite, written in Verus
with its behaviour stated in contracts and proved.

- `src/` is the verified library:
  - mail server: `smtp_addr`, `smtp_session`, `smtp_auth`, `smtp_client`,
    `delivery` (recipient grouping, retry backoff, MX order, dot-stuffing),
    `inbound` (results stamp, SPF identity, spam routing), `bounce`, `blob`;
  - JMAP: `jmap_types`, `jmap_set` (set outcomes, body structure, envelopes,
    ids), `changes`, `sql` (partial updates and listing queries);
  - mail client: `mail` (message helpers, reply and forward drafts, sidebar);
  - desktop: `hub` (service registry and routing), `menu`, `script`,
    `executor`, `desktop`, `files`, `logs`, `format`;
  - `text`: the string model (trimming, lines, words, decimal numbers) the
    other modules are specified in.
- `tests/` runs the library on concrete values.
- `app/` holds the runtime around it: sockets, files, floating-point
  displays and JSON.
