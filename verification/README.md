# engram-mcp

A verified library behind a small server that offers a Markdown knowledge base
to MCP clients: `search` and `fetch` for what the caller may see, and
`append_note` for leaving a note in the owner's inbox. Callers come with one of
two keys, or with a token of the built-in OAuth authorization server.

`src/` is the library. Every function in it is verified with Verus against its
contract; what the contracts speak of is stated over sequences, sets and maps.

| Module | What it holds |
| --- | --- |
| `config` | settings and what is wrong with them |
| `auth`, `limits`, `http` | who is asking, how often they may, and what the others are told |
| `oauth` | clients, consent, codes, tokens and refresh token families; `oauth::laws` states what holds of them together |
| `document`, `search` | identifiers, visibility, front matter, ranking and snippets; `document::walking` states what is found for a scope |
| `inbox` | notes: their text, their names and the room there is for them; `inbox::filing` states what storing one does to the files |
| `server`, `audit` | the tools, their answers and what is recorded |
| `text`, `scan`, `format`, `order`, `table`, `calendar`, `json` | the ground the others stand on |
| `crypto`, `web`, `yaml` | calls into other crates, with what is taken on trust of them |

The functions named `lemma_...` that nothing calls state what holds of the
library as a whole: that a code is redeemed once, that a reused refresh token
ends its family, that a hidden document is answered as one that is not there.

`app/` is the server itself: files, clocks, the environment and HTTP. `tests/`
runs the library on concrete values.
