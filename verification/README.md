# pickey

Automatic SSH key picking for Git. `pickey` sits as git's `core.sshCommand`: it reads the
host and repository path from the ssh arguments git passes, picks the first configured
rule that matches, and runs `ssh` with that rule's key (`-i <key>`, `IdentitiesOnly=yes`).

## Layout

- `src/` — the verified library (Verus). Its functions carry contracts that Verus proves,
  except five small `external_body` wrappers around outside calls (`String::push`,
  `str::to_lowercase`, `Path::strip_prefix`, `dirs::home_dir`, `glob_match::glob_match`),
  whose contracts are trusted.
  - `args`, `remote` — parsing git's ssh arguments and remote URLs into host and path.
  - `matcher` — first-match-wins rule selection (globs through the `glob-match` crate).
  - `ssh` — the ssh argument list that is actually run, keychain and port handling.
  - `dispatch` — the decision taken for one ssh invocation (pass through, no rule, use a
    rule and check author emails before a push).
  - `config` — rules, `~` expansion and the configuration path.
  - `init`, `suggest`, `merge` — what `pickey init` derives from git configuration and
    ssh configuration, and how auto-detected rules are merged with hand-written ones.
  - `gitconfig`, `agent`, `log` — author-email checks, key hints, log levels.
  - `text`, `order` — the string and ordering toolkit the rest is proved with.
- `app/` — the command-line program: argument parsing, files, processes, TOML loading.
  It calls the library for every decision.
- `tests/` — tests of the library on concrete values.

## Laws proved in `src/`

- Rules are tried top to bottom; the first one that matches wins (`matcher::find_match`).
- The selected key and `IdentitiesOnly=yes` come before the user's own options, and an
  explicit port is preserved (`ssh::lemma_selected_key_takes_precedence`,
  `ssh::lemma_explicit_port_preserved`).
- `pickey init` keeps every rule not marked `auto`, replaces the `auto` ones, and
  re-running it with the same findings changes nothing (`merge::lemma_merge_*`); a
  configuration file that cannot be read is left as it is (`merge::merge_config`).
- Without quotes or backslashes, an `sshCommand` is split on whitespace
  (`init::lemma_plain_command_splits_on_whitespace`).
- `pickey check <url>` finds the same host and path as the ssh arguments git produces
  for that URL (`remote::lemma_check_agrees_with_ssh_args`).
