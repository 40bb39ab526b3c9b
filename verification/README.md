# usfm3

A USFM 3.x parser whose logic is written and proved in Verus.

The pipeline is `tokenize -> parse_cst -> parse_ast / lower_cst -> serialize`:

| Module | What it holds |
| --- | --- |
| `text` | char/byte helpers, trimming and decimal specs |
| `lexer` | the tokenizer; every char of the input lands in exactly one token |
| `markers` | the marker registry (`MarkerName`, kinds, default and required attributes) |
| `cst` | the lossless concrete syntax tree and its parser; the leaves spell the source back |
| `ast`, `source_map` | the semantic tree and the parallel tree of source spans |
| `builder` | lowering from CST to AST, with diagnostics |
| `validation` | the semantic checks; their full report is a spec function |
| `diagnostics` | diagnostic values and lists, sorted in document order |
| `usfm`, `usj`, `json`, `vref` | serializers: USFM text, USJ values and JSON text, verse maps |
| `ast_usx` | the USX form of the parsed AST |
| `spanned_ast`, `spanned_usj`, `usx`, `marker_table` | the span-carrying tree, its USJ and USX forms, and a flat marker table |

`app/` is the command-line front end (file and stdin input, printing).
