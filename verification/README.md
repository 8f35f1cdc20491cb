# Lings

A manager for local sound libraries. It walks folders of sound files, keeps an
index of them in an SQLite database, and reads and writes the Universal Category
System metadata of wave files, which stands in an iXML document inside the file.

- `src/` is the library, verified with Verus: file names, categories, iXML
  documents, RIFF chunks, the scans and the other jobs as state machines, and the
  statements and rows of the index. The modules whose names end in `_laws` hold
  theorems that relate several functions.
- `app/` is the desktop application around it: window, commands, database, disk.
- `tests/` runs the library on concrete values.

iXML documents are parsed with `roxmltree`, which descends into nested elements by
recursion and sets no limit. A document of many thousand nested elements can
exhaust the stack of the calling thread, so scan files of unknown origin on a thread
with a large stack.
