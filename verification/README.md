# fubako

The logic of Fubako, a desktop manager for task folders: one folder per task under a work
root, a `.todo.json` in each folder holding the task's metadata, finished tasks moved into
year folders of an archive, old ones into a deep archive that is never scanned.

`src/` is the library, verified with Verus: folder names and their date prefixes, template
entries, checklist progress, the task summary and what the scan reads, which paths are managed,
the step-by-step folder move, the folder listing and its order, the names gathered for search,
the icon cache and PNG data URIs, the choice of an open file-manager window, and the search
for a free destination name. The wait that groups change events runs there too, though when it
returns rests on the clock and is not stated. `tests/` runs it. `app/` is the Tauri application
around it: the commands, the file system, the settings file, the watcher, and the Windows shell
calls.
