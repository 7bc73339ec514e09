# tweet_query

A terminal viewer for a MongoDB collection of tweets, with its logic verified
in Verus.

- `src/` is the verified library:
  - `graph.rs`: the search for groups of three users who all replied to
    each other (mutual-reply triangles), proved to find each such group once
    and nothing else;
  - `names.rs`: the order of screen names used to list each triangle once;
  - `triangle.rs`: users, their lookup by screen name, and the triples shown;
  - `app.rs`: the browsing state of the viewer (query, page, triangle) and
    the keys that drive it;
  - `text.rs`: the texts shown (white space clean-up, counts, page titles);
  - `canvas.rs`: clipping, line cells and label placement for the wireframe;
  - `loader.rs`: the handling of newline-delimited JSON files: blank lines
    skipped, each other line's parse-and-convert outcome (from `serde_json`
    and `bson`, trusted) turned into its document or its error, and the
    documents gathered in full batches for bulk inserts, in line order;
  - `records.rs`: the rows of the aggregation queries.
- `app/` is the program around it: the MongoDB queries, file loading, the
  terminal loop and the ratatui drawing (including the floating-point
  projection of the wireframe).
- `tests/` exercises the library on concrete values.
