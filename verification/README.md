# bugle

A launcher for Conan Exiles, as a verified library with a small command-line front end.

- `src/` is the library, written and proved with Verus:
  - `text`, `parser`: character helpers and the parser of the map syntax the game uses
    for cached users (`(Key="Value",...)`).
  - `ini_doc`: INI documents of the `ini` crate, modelled as values per section and key.
  - `config`: the launcher's own configuration and its INI form.
  - `auth`: Funcom Live Services accounts, cached users, the machine token, and what the
    home screen shows; `auth::playfab` builds the login request and reads its reply.
  - `game`: the installation (build id, paths), the last session, the launch command,
    mods and mod lists, single-player saves, and `game::engine`, the reader of Unreal
    Engine archives (`.pak`), packages and data tables that finds the maps.
  - `launcher`: the decisions between the screens and the game (capabilities, BattlEye,
    offline launches, mod mismatches of single-player games).
  - `l10n`, `net`: choice of locale, and server addresses.
- `tests/` exercises the library on concrete values.
- `app/` is the command-line program: file and network access, serde, and process start.
