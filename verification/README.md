# untrickystore

The `uts` toolkit that keeps TrickyStore's configuration in order on a rooted
Android device, split in two:

- `src/` is the library, verified with Verus: text handling with `str`
  semantics (`text`), paths and log formats (`common`), the patch level date
  rules (`patch`), the property rules and VBMeta digest handling (`props`),
  the target package list (`target`), service control and the module
  description (`service`), root detection (`rootdetect`), conflicts
  (`conflict`), the WebUI host choice (`webui`), the watcher's decisions
  (`daemon`) and message translation through gettext (`i18n`).
- `app/` is the `uts` program: it reads properties, files and command output,
  hands them to the library, and performs the writes, kills and launches the
  library decides on.
