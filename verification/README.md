# atoma

A stateless orchestrator for agents: it reads an agent's definition, asks a provider, calls the
tools of its servers over the Model Context Protocol, and repeats until there is an answer.

The library in `src/` holds everything that decides: what a conversation looks like, when a run
stops, what a tool file means, which server receives which credential, what an answer of a server
or of a provider says. It is written in Verus, and each function states what it returns.
`app/` is the program around it: the command line, the file system, processes and HTTP.

| Module | What it is about |
| --- | --- |
| `text`, `dict`, `json`, `clock` | texts, maps by name, JSON values, dates |
| `domain` | agents, conversations, skills, tool servers and their health |
| `application::runner` | the inference loop, the calls of a turn, the record of a run |
| `application::tools` | the built-in tool |
| `application::validator` | whether a definition can do what it says |
| `infra::config`, `infra::credentials` | settings and secrets, and who receives them |
| `infra::llm` | providers, and the two dialects they are asked in |
| `infra::mcp` | tool servers: connecting, messages, findings, routing |
| `infra::hooks`, `infra::template`, `infra::timeouts`, `infra::persistence` | access rules, the system prompt, limits, files |

Properties that span functions are stated as proof functions whose names begin with `law_`, next
to what they are about: that a repaired conversation answers every call, that a report of a server
reaches one result, that a late answer is never taken for the answer that is waited for.

What is taken on trust is small: reading and printing JSON is `serde_json`, the clock is the
system's, and one `String` method of the standard library is given its documented meaning.
