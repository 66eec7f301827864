# DSH launcher

A launcher for DSH on Windows: it finds and starts DSH, shows how it stands, keeps it and its
plugins up to date, and packs and restores its data.

- `src/` is the library: every rule and every decision of the launcher, with contracts that Verus
  proves. Where an operation alternates work on the machine and decisions, the library holds a
  function from what is known so far to the next step.
- `tests/` runs the library on concrete values.
- `app/` is the program round it: the window and the tray icon, files, processes, the network, the
  registry, and the JSON that the window sees. It does what the library's steps say and hands back
  what came of it.

| module | what it holds |
| --- | --- |
| `text`, `text_laws`, `numbers`, `order`, `path` | texts, decimal numbers, orders and Windows paths |
| `clock`, `version` | time stamps, publish times, versions and their precedence |
| `json` | JSON documents, read and written by `serde_json` |
| `util` | names beside the program, the log, one operation at a time |
| `settings`, `proxy` | the settings file, the environment of a proxy |
| `locate`, `npm` | the search for DSH, questions to npm |
| `process`, `launch` | who listens on the port, starting and stopping |
| `plugins`, `plugin_ops`, `patch`, `patch_laws` | the plugins of a profile and the patch file that disables them |
| `backup`, `restore` | packing the data and putting them back |
| `update`, `checks`, `tray` | updates, the look at what DSH needs, the tray |

Verus believes without proof what `json`, `util`, `tray` and `text` state of `serde_json`, of `png`
and of two functions of the standard library; each such item says so above its contract.
