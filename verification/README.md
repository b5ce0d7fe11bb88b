# rsmarkdown

A streaming markdown core, verified with Verus.

Markdown that arrives in chunks (as a language model writes it) is split
into stable blocks; only the trailing block is healed (unclosed code spans,
fences, emphasis, links, tables, math, HTML fragments and footnotes are
completed or removed) and every block is parsed into a small syntax tree
through a least-recently-used cache.

Layout of `src/`:

- `text`, `scan`, `pattern`: character-level helpers and line patterns;
  `bytes`: byte offsets into UTF-8 text.
- `fix`, `fix_table`, `fix_math`, `emphasis`: the healing steps.
- `preprocess`: line-ending normalization, LaTeX delimiters, the ordered
  healing pipeline.
- `blocks`: block segmentation.
- `ast`, `parse`: the syntax tree and the tree builder over pulldown-cmark's
  event stream.
- `processor`: `MarkdownProcessor`, the cache and the per-block results.
- `renderer`: the display seam.
- `tui`: the terminal front end's logic. `renderer` turns each block's
  tree into lines of styled spans wrapped to a width (CJK-aware, through
  unicode-width), with a per-block cache; styles are semantic tags that the
  display layer maps to colors. `math` converts LaTeX to Unicode, `width`
  measures text. `agent_view`, `command_menu`, `permission`, `help`, `list`
  and `text_reader` hold the state of the interactive components and their
  reactions to plain input events (`input`); `activities` and `agent` model
  an agent session, `chat` and `turn` the chat with its scripted agent turn.

Every function states its result in `requires`/`ensures` over `Seq<char>`
views. Inside the model positions are character indices; the public scanners
on `&str` take and return byte offsets (`bytes` relates the two). `app/` holds a headless command-line
demo that streams a file through the processor and the renderer and prints
the lines.
