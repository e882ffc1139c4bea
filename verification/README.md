# Prompt Pocket

A prompt manager that keeps one Markdown file per prompt (YAML front matter,
folders as categories) and synchronises the data folder by hand with a
Jianguoyun WebDAV account or a GitHub repository.

The library in `src/` is verified with Verus: every public function carries a
contract, and the properties that span several functions are proved as
`law_*` proof functions.

| Module | What it decides |
| --- | --- |
| `text`, `markdown`, `meta`, `content` | prompt files: front matter, body, saving and reading back |
| `clock` | ISO-8601 time stamps from seconds since the epoch |
| `store`, `files` | listing and ordering prompts, counting categories, file and folder names, the order file |
| `percent` | percent-encoding of URL paths and its decoding |
| `sync` | what an upload or download sends, fetches, skips, backs up and cleans; the upload record; reports |
| `webdav`, `github` | request paths and bodies of both remotes, the WebDAV folder walk, the GitHub tree |
| `config`, `state` | settings and secrets, which remote is active, the lock between editing and synchronising |
| `desktop` | hotkey paste, window placement, which links open, path confinement to the data folder |

`app/` is a command-line program around the library: file system, network,
credential store and JSON. `tests/` holds the tests.
