# Arona

The logic of a bot framework that speaks the OneBot 11 protocol, written in Rust and
verified with Verus.

The library in `src/` decides; the program in `app/` acts. The library reads and writes
protocol messages, keeps the records of plugins, and says what happens to an event, a
message, a job or a configuration. The program opens sockets and files, loads plugin
libraries, runs the code of plugins and keeps the time.

| Module | What it holds |
| --- | --- |
| `text`, `collections` | texts, numbers, ordered maps |
| `json`, `yaml` | documents, read and printed by `serde_json` and `serde_yaml` |
| `runtime` | messages, priorities, who is answered |
| `onebot` | protocol, events, hooks, connections, calls |
| `config` | the configuration files: sections, templates, changes, loading |
| `container` | services that plugins offer one another |
| `quartz` | jobs and when they run |
| `plugin` | descriptions, order, life cycle, health, what is taken back |
| `framework` | all records of one framework |

Functions named `law_..` state what holds across calls: what a plugin that is turned off
can no longer do, what a switch undoes, what reads back from what was written.

A plugin is anything that implements `AronaPlugin`. Whatever it does when it is called,
the contracts fix who is called, when, with what, and what becomes of its answer and of
what it has on record.

Where the library calls another crate, a small function with a stated contract stands
around the call; the comment above it names the call and what is claimed of it.
