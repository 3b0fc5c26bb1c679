# Porter

Porter puts many MCP servers behind one tool surface. Each server is known by a
slug, and its tools are offered under namespaced names such as
`github__create_issue`.

`src/` is the library, verified with Verus:

- `config`, `validation`: configurations, and which of them are valid
- `env`: `${VAR}` references and what they resolve to
- `filter`: tool patterns and the allow/deny policy
- `namespace`: namespaced tool names
- `server`: one managed server, its tools and its calls
- `registry`: all managed servers, their tools, and where a call goes
- `error`: what can go wrong, and the messages for it
- `table`, `text`: maps from text, and operations on text

`app/` runs the gateway around it: deserialization, the process environment,
channels to the server loops, cancellation and logging. It is not verified.
