# document_library

A personal document library: it takes documents in (PDF, Word, PowerPoint, Excel, CSV, Markdown,
plain text, pictures), keeps managed copies of them, makes them safe to look at, extracts and searches
their text, files them by rules, and watches directories from which new documents are received.

`src/` is the library. Verus verifies all of it, and every public function carries a contract; the
contracts are stated over characters, bytes and mathematical integers. `app/` is ordinary Rust around it: the
database, the files, the threads and the commands of a user interface. It does what the library
decides and reports back what happened.

## Layout of src/

| Modules | What they hold |
| --- | --- |
| `error`, `models` | errors, the records that are exchanged, their names in storage |
| `text`, `bytes`, `data`, `paths`, `digest` | characters, numbers in bytes, lists, paths, hashes |
| `limits` | what a file may cost to expand, and the budget that keeps count |
| `archive`, `package`, `workbook` | ZIP archives: reading, checking, writing |
| `xml`, `markup`, `relations`, `parts` | XML events, edits of XML text, the relationships of a package |
| `sanitize`, `slides`, `extraction` | packages without active content, presentations, the text of a document |
| `csv`, `spreadsheet`, `worksheet`, `table` | tables and their previews |
| `pdf_security`, `pdf_text`, `images` | PDF files without actions, their text, pictures and links |
| `formats`, `content`, `preview`, `indexing` | what each format can do, previews, the search index |
| `classification`, `collections`, `search`, `documents` | rules, the tree of collections, tags, queries, the trash |
| `locations`, `scanning`, `receive` | places of libraries, scanned paths, receiving directories |
| `imports`, `batches`, `copies`, `runs`, `recovery` | taking files in, step by step, and what an interruption leaves |

Work that alternates with the file system or the database is a machine that says what to do next and is
told how it went: `NewCopy`, `SingleCopy` and `Replacement` in `copies`, `ImportRun` and `ReplaceRun` in `runs`,
`BatchRun` in `documents`. Its laws speak of every order of events.

What the library as a whole promises stands as public proof functions under the heading `Laws` of each
module. What is believed of other crates and of std is said in the doc comments of the few functions that are
marked `external_body` or given by `assume_specification`.
