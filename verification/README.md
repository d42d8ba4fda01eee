# wildside

The data pipeline of the Wildside walking-tour engine: OpenStreetMap
ingestion, Wikidata dump selection, download and claim extraction, claim
persistence into SQLite, OSRM travel time matrices, and the integer signals
of popularity scoring.

`src/` is the library, written in Verus and verified: every function states
its behaviour in `requires`/`ensures` over mathematical models (`Seq`, `Map`,
`Set`, spec functions), and laws that relate several functions are public
proof functions (`lemma_*`). The library decides; it does no I/O.

- `ids`: OSM element identifiers packed into one `u64` space.
- `text`: string and character helpers with the meaning of `str::trim` and
  friends.
- `poi`, `accumulator`, `sort`: points of interest and the mergeable
  accumulator behind parallel PBF ingestion.
- `etl`: Wikidata entity identifiers, dump lines and heritage claims.
- `urls`, `dump`, `source`, `download`: dump manifests, URL resolution, and
  the download state machine with its audit record.
- `store`: the claims schema and the claim persistence plan.
- `fs`: planning parent directories for capability-based file access.
- `routing`: OSRM Table API URLs, responses and a stub provider.
- `scorer`: sitelink counts, claim selectors and the mapping from themes
  of interest to claim selectors.
- `foreign`: outside types carried through unopened.

`app/` is the program around it: the `wikidata-etl` command line, HTTP
(reqwest), files, SQLite (rusqlite), JSON decoding (serde, simd-json), PBF
decoding (osmpbf) and floating-point work (coordinates, bounding boxes,
popularity weights). It performs what the library asks and hands plain
values back.

Not here: the user-relevance scorer, which blends popularity with a
visitor's interest weights in floating point and answers the engine core's
`Scorer` trait, and the placeholder OR-Tools solver, which answers its
`Solver` trait with "not implemented". Both are built on the engine core
crate (themes, interest profiles, stores, solve requests), which this crate
does not depend on; the theme type of `ThemeClaimMapping` is therefore a
type parameter.

`tests/` exercises the library on concrete values.
