# sharpr

The decision logic of Sharpr, a GTK image curation tool and viewer, as a
library verified with Verus.

- `src/` — the library. Each module states its behaviour over mathematical
  models (`Seq`, `Set`, `Map`, spec functions) and proves it:
  - `tags`, `collections`, `folders`, `filmstrip`: the tag browser, the
    collection and folder trees of the sidebar, the filmstrip's selection and
    thumbnail scheduling;
  - `panel`, `pipeline`, `queue`, `history`, `activity`, `compare`: the
    processing queue — per-image settings, step summaries, the runner's
    decisions, output locations, the history list, background operations,
    and comparisons of finished results;
  - `viewer`, `image_ops`, `styles`, `labels`, `drops`, `markdown`: the
    viewer's zoom modes and upscale file names, in-memory rotations and
    flips, colour classes, the texts shown in the interface, drag-and-drop
    payloads, and the help page's Markdown;
  - `text`, `paths`, `strset`, `sort`: character sequences, path text,
    sorted string sets and stable sorting, with their proofs.
- `tests/` — tests run against the compiled library.
- `app/` — what cannot be verified here: reading and writing files, settings
  JSON, the clock, and floating-point zoom and scroll arithmetic.

Calls into the `image` and `itoa` crates and into `std::path` are wrapped in
small trusted functions whose contracts say what those calls return.
