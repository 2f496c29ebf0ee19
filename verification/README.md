# sheet_shadow_core

A shadow of an `.xlsx` workbook for programs that edit workbooks on somebody's behalf. The
workbook is read into a model; values, formulas, formats, merged cells, sheets, lines, comments,
rules, drawings, charts, sparklines, pivot tables and embedded objects are changed in the model;
every change can be tried out first and leaves a trail; saving rewrites only the parts of the
package that a change is about.

The library in `src/` is verified with Verus. Its contracts say exactly what each operation
returns and does to the model, and the public proof functions named `law_...` state what holds
across operations: a preview tells what the operation does, a refused request changes nothing,
parts that no change is about are copied byte for byte, entries follow their cells when lines are
inserted, deleted or moved, every formula agrees with its value after an update, and a store is
stale as soon as a value of the workbook differs from what it holds.

## Layout

| Files | What they hold |
| --- | --- |
| `text`, `numbers`, `pattern`, `xml`, `splice`, `entries`, `copies` | texts, regular expressions, documents, maps and sets |
| `coord`, `ranges`, `formula`, `calls`, `structured`, `deps`, `diagnostics` | cells, references and what formulas depend on |
| `eval`, `steady`, `values` | the value of a formula, what stays of it with more answers, and values as they are shown |
| `records`, `objects`, `engine` | the model of a workbook |
| `package`, `cells`, `sheetparts`, `drawings`, `highrisk` | reading a package |
| `recalc`, `agreement`, `sheetops`, `objectops`, `structure`, `inventory` | requests and reports |
| `cellxml`, `sheetxml`, `partxml`, `styles`, `save`, `readback` | writing a package, and what reads back of it |
| `sqltext`, `store`, `snapshots` | the workbook as tables of a database |

Arithmetic on floating-point numbers is not part of the library. Where a formula needs a number
worked out, the evaluation says so (`Outcome::Need`), and goes on once the answer is handed in.
`app/` answers these questions, opens files and databases, and offers the whole to Python.
