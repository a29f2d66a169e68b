# altmd

alt-markdown is a strict superset of CommonMark with a curated set of
components (callouts, tabs, charts, figures, citations, a table of contents,
an AI edit policy), rendered to safe HTML with a static fallback for every
component.

The library in `src/` is verified with Verus:

- `parser`, `directive`, `decode`, `ext`, `attrs`: source text to syntax tree
  (`ast`); the CommonMark engine is comrak, reached through the trusted items
  of `cm`.
- `prepass`, `render`, `html`: syntax tree to HTML, with anchors, figure
  numbers, cross-references and citations resolved.
- `inert`: the laws that rendered HTML opens no `script` or `iframe` element
  and begins no event-handler attribute; `render_document` states both of its
  result.
- `serializer`: syntax tree back to normalised source.
- `policy`: the `:::ai-policy` permission map.
- `sanitize`: the raw-HTML sanitiser (ammonia, through a trusted item).
- `splice`: the decisions of `:::include` resolution.
- `api`: the entry points (`parse`, `render`, `to_source`, `normalise`).

`app/` is the command-line tool (`altmd render|ast|fmt|check|policy`), which
reads files, follows includes on disk, prints JSON, and holds the browser
bindings.
