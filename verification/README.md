# ini_pack_manager

The logic of a manager for INI component packs of Red Alert 2 / Yuri's
Revenge style games, verified with Verus: pack configuration parsing and
checking, option values and replacements, `Control` blocks in data files,
main INI registration, placeholders and imports, requirements, versions,
instances, components, configuration snapshots, presets and the remote
catalog.

- `src/` is the verified library. Each public function states in its
  contract what it returns; the `law_*` proof functions state properties
  that span several functions.
- `app/` is the unverified shell: files, archives, HTTP, JSON and TOML
  stores, and the commands a user interface calls. It reads what the library
  needs, hands it plain values and writes the results back.
- `tests/` runs the library on concrete values.
