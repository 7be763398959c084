# Hikitsugi Doc XML

A knowledge base of handover documents (引継ぎドキュメント). Excel workbooks are converted to an
XML form of their own, which can be viewed, searched, edited, and exported to Excel again.

- `src/` is the library: reading workbooks, writing and reading documents, searching, planning
  an export, and the rules of the server. It is written in Verus, and every function in it is
  verified against its contract.
- `tests/` runs the library on concrete values.
- `app/` is the server: files, HTTP, floating-point numbers, and the spreadsheet writer that
  carries out the plans of the library.

## How the library is laid out

| Module | What it holds |
|--------|---------------|
| `text`, `cellref`, `color`, `floats` | texts, cell references, colours, numbers given as text |
| `xml`, `lines` | the events of an XML document, and XML as it is written |
| `archive`, `workbook`, `styles`, `sheet`, `worksheet`, `drawing` | the parts of an xlsx file |
| `document`, `convert` | the handover document, and whether a cached one is up to date |
| `export`, `plan` | from a document to the actions that restore its workbook |
| `search`, `catalog`, `order`, `requests` | searching, listing by name, and answering requests |
| `numbers`, `agreement` | which texts have to be read as floating-point numbers |
| `readback`, `lookup`, `restore`, `fidelity` | proofs that what was written is what is found and restored |

What is believed without proof about `quick_xml`, `zip`, `md5`, `base64`, `serde_json` and the
standard library stands in the contracts of the functions marked `external_body` and of the
`assume_specification` items, each with a comment that says what it claims.
