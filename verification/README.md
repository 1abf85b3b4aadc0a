# responses_to_chat

Lowers a request in the shape of the Responses interface to one turn of a chat:
messages, tools, a registry of who runs which tool, and settings.

`lowering::lower_request` and its two siblings are the entry points. Each states
in its contract that the turn, or the refusal with its exact words, is
`lowering::lowered_turn` of the request, the replayed messages, whether the image
agent is active, and the role policy.

| Module | What it holds |
| --- | --- |
| `responses`, `config` | requests and role policies |
| `chat`, `error` | what comes out: messages, tools, refusals |
| `lowering` | conversation, settings and turn |
| `roles` | rules by role, tags, runs of one role as one message |
| `messages` | runs of a role, system messages at the front as one |
| `reasoning` | blocks of reasoning and how they join |
| `tools` | the tools that the model is told of, and the registry |
| `content`, `web_search` | content, tool output, arguments, web searches |
| `validate` | which requests are refused as a whole |
| `json`, `codec` | JSON values, and JSON text through `serde_json` |
| `text`, `ordered` | texts, and maps with texts as keys |
| `laws` | what holds of every turn |

`codec` holds what is believed of `serde_json`, and `text` one specification of
`String::push`; everything else is proved. `app` turns floats and serialisable
shell commands into values of the library.
