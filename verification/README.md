# stub

A minimal coding agent. The library (`src/`, verified with Verus) holds its
logic:

- `context`: token estimate and compression of the conversation (snipping
  long tool outputs, summarizing old history, hard collapse), with laws on
  idempotence and on what every stage keeps;
- `tools`: the registry that finds tools by name, the errors tools report,
  and the logic of the edit, file, grep, glob and shell tools;
- `agent`: what the chat loop does with each reply of the model;
- `text`, `pattern`, `message`: text functions with their specifications,
  regular expressions, and chat messages.

`app/` is the program around it: terminal I/O, the model's HTTP endpoint,
the file system and processes, JSON arguments and schemas.
