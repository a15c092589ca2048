# factory_droid

Collector for the workspace of Factory Droid, `~/.factory`: live sessions with their workers, the
catalog of custom models, missions, and findings on the configuration. API keys are never carried
over.

The library under `src/` is verified with Verus. It works on texts and plain values; what reads
files, walks directories and serialises stands under `app/`.

| module | holds |
| --- | --- |
| `text` | cutting, trimming, searching and ordering of strings |
| `json` | JSON documents, parsed by `serde_json` |
| `markdown` | headings of Markdown texts |
| `clock` | points in time, parsed by `chrono` or read off the system clock |
| `ids` | maps and sets keyed by ids |
| `order` | stable sorting |
| `catalog` | the catalog of models |
| `missions` | missions |
| `validate` | validation of the configuration |
| `tokens` | token usage |
| `scan` | the walk in search of settings files |
| `index` | entries of the index of sessions |
| `session` | sessions as they are reported |
| `collector` | what is remembered, and how a tick brings it up to date |
| `report` | the report of live sessions |

A session is live while its entry in the index, its settings file or one of its workers was updated
within the last ten minutes. The settings file counts because the index lags behind.

Contracts are stated over mathematical views of the data. What holds of the library as a whole
(the catalog has one entry for each id, reported sessions come freshest first, findings and catalog
do not depend on API keys, and the like) is stated in public proof functions beside the code.
