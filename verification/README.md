# fini

An interactive command-line task list with links, whose tasks are kept as
Markdown files, one directory per board.

The library under `src/` is verified with Verus:

- `task_item`, `date`, `text`, `paint`: tasks, calendar dates, and the ways a task
  is written out;
- `markdown`, `roundtrip`: the task file and archive file formats, and the laws
  that what is written reads back;
- `sort`, `util`, `indices`, `actions`: the operations on task lists, and on a
  store of boards;
- `storage`, `printer`, `copier`, `prompter`: the store, output, clipboard and
  questions, as traits with in-memory versions;
- `commands`: the commands of the program and the steps of the interactive loop;
- `session`: the interactive session over a single task list held in memory: its
  menu, what it shows each time round, and what each of its commands does.

`app/` holds the program around it: the command line, the settings file, the
store on disk (a directory per board, and the single-list JSON file of the older
interface), the terminal, the clipboard and the prompts.
