# rust_agent

An MCP server that lets an agent delegate tasks to specialist agents backed by a
knowledge base of Markdown documentation.

`src/` is the verified library (Verus):

- `config`: assembling the settings from layered configuration entries.
- `pattern`: compiled regular expressions (through the `regex` crate).
- `digest`: SHA-256 fingerprints (through `sha2`) in lowercase hexadecimal.
- `rag`: the indexing rules: which walked files are taken, chunking, when a
  file must be indexed again.
- `update`: the update of the knowledge base as a state machine that decides
  the next action from the outcome of the previous one.
- `storage`: the `documents` table layout and how rows are picked from query
  batches.
- `tools::knowledge`: the answers of the knowledge tool.
- `mcp`: the decisions of the `chat` tool.

`app/` is the program around it: reading the configuration, walking folders,
reading files, the embedding model, the LanceDB store, the agents and the HTTP
server.
