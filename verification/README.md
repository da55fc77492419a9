# mermaid_canvas

Parsing and layout decisions for Mermaid diagrams, verified with Verus.

The library reads Mermaid source text (flowchart, class, state, ER,
requirement, packet and sequence diagrams) into one diagram model, and takes
the discrete decisions of a layered layout: which rank each node goes to, and
in which order the nodes of a rank stand. Every executable function states its
result in its contract over a mathematical model of the text and of the
diagram, and Verus proves the code against it.

## Layout

- `src/` — the verified library.
  - `text`, `syntax`, `pattern`, `numeric`, `color`: text handling shared by
    the parsers (lines, words, trimming, byte offsets, numbers, hex colours).
  - `diagram`, `model`, `convert`: the diagram model, its view as sequences of
    characters, and the operations that build it.
  - `detect`, `parser`: recognising the diagram type and dispatching.
  - `flowchart`, `class`, `state`, `sequence`, `er`, `requirement`, `packet`:
    each parser as a step function over lines (the model), and
    `*_parser` modules with the executable parsers proved equal to it.
  - `layering`, `ranking`: rank assignment, barycenter ordering and grouping
    of subgraph members within a rank.
  - `sequence_frame`: the discrete frame of a sequence layout (columns,
    message rows, activation boxes, lifelines).
  - `theme`, `preset`, `layer`, `style`, `decor`, `cli`, `samples`, `demo`,
    `error`, `component_error`: theme tables, render settings and small types.
- `tests/` — tests of the library.
- `app/` — the demo program: argument handling, and the floating-point part of
  the layout (coordinates, edge routes, subgraph boxes, sequence rows) and of
  colour arithmetic, built on the library.

Laws of the library are public proof functions named `law_*` or `lemma_*`
next to the functions they speak of.
