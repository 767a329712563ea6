# sshtunnel_manager

The logic of an SSH tunnel manager for GNOME that runs every tunnel as a
systemd user unit (`sshtunnel@<id>.service`), written in Verus and proved
against its contracts.

`src/` is the verified library:

- `systemd` — reads the `Key=Value` text of `systemctl --user show` into
  unit properties and maps them to a tunnel status (`connected`,
  `connecting`, `failed`, `disconnected`) with systemd's failure summary.
- `failure` — turns a failed tunnel's systemd summary and last journal line
  into one actionable message (host key advice first).
- `command` — the `systemctl`/`journalctl` argument lists and what an exit
  status and output are taken to mean (error texts, `is-active` answers,
  the last journal line).
- `listing` — the `tunnelctl list` table and the runner's choice of profile
  source.
- `profile_form` — the editor's rules: ids derived from names (slugs),
  optional fields, unique names, port forwards.
- `runtime` — the editor's profile list: stored profiles merged with the
  backend's rows, each id once, ordered by lowercased name then id.
- `json` — re-rendering a stored profile as indented JSON.
- `text`, `number`, `order` — trimming, ASCII case folding, substring
  search, decimal integers, and lexicographic order on texts.

`app/` holds the programs around the library (the D-Bus backend daemon, the
tunnel runner, `tunnelctl` and the GTK editor). They also need the
workspace's `profile` crate (profile schema, storage and validation), which
is not part of this repository.
