# logpipe

Collects log files and the output of containers, reads each line into a record,
and writes the records to ClickHouse in batches. Delivery is at least once: the
offset of a file moves on only when the data up to it is stored, and never past
a line that is still waiting for more; what is left of a file is sent before it is
let go, and receipts for a file that was cut off since do not count. Given up are
what goes beyond the limits of a line or an event, a line that had not ended when
its file was cut off, and batches that are to be dropped when they cannot be stored.

The library under `src/` holds the rules and is verified with Verus: what a line
says, how the lines of a stack trace are merged, which files are read from where,
when a batch is stored, tried again or given up, and what statements and rows are
sent. The program under `app/` does what touches the world: files, sockets, the
clock and signals. It asks the library what to do next and tells it what came of it.

| Part | What it is about |
| --- | --- |
| `src/event.rs`, `value.rs`, `json.rs`, `map.rs` | records and their JSON |
| `src/time.rs`, `text.rs`, `list.rs` | times, texts and lists |
| `src/parser/` | the shell of container logs, the formats, merging of lines |
| `src/source/` | finding files, reading on, stored offsets, labels of pods, standard input |
| `src/pipeline.rs`, `batch.rs` | batches, receipts, waits |
| `src/sink/` | statements and rows for ClickHouse, lines for the console |
| `src/config.rs` | the configuration and what is put together from it |
| `src/laws/` | what holds of all of this taken together |

What the library takes from other crates without proof stands in functions marked
`external_body` and in `assume_specification` items; the comment above each says
what is taken.
