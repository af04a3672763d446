# claw_skills

Skills for an agent runtime: Markdown files with a YAML frontmatter that
give a prompt, the tools it may use, the triggers that activate it and the
context files to read. The library stores skills in a registry, matches
user input against their triggers (slash commands, regular expressions,
keywords), resolves `@skill:name` and `{{skill:name}}` references, and
prepares activations. It also holds the model provider's request and
response conversions, the accumulation of a streamed response, and the
option parsing and summaries of the command-line front end.

Every function in `src/` is verified with Verus against its contract;
calls into `regex`, `serde_json` and the standard library go through small
trusted wrappers whose contracts say what those crates document.

- `src/`: the verified library (`text`, `pattern`, `skill`, `order`,
  `registry`, `resolver`, `loader`, `message`, `activation`, `provider`,
  `request`, `cli`).
- `app/`: the program around it: command line, file and network I/O,
  YAML decoding, the Anthropic client and the asynchronous plumbing.
- `tests/`: tests of the library.
