# prql_parser

A parser for [PRQL](https://prql-lang.org), proved with Verus. `parse_source` makes a
list of statements out of the text of a query, or lists all that is wrong with it.

| module | what it holds |
|---|---|
| `ast` | the tree, and its mathematical view |
| `span`, `error` | places in the source, and errors at them |
| `lexer` | characters to tokens |
| `stream`, `log`, `common` | what the parser walks over, what it remembers of failures, and its smallest rules |
| `grammar`, `source_grammar` | what each rule makes of the tokens, as specifications |
| `expr`, `stmt`, `interpolation` | the parser: one function for each rule, proved equal to it |
| `laws` | what holds of the parser as a whole |
| `places`, `twins`, `source_twins` | the proof that places never decide over the tree |

The grammar is written as functions of the tokens. A rule says what stands at a place
and where that ends; of several ways to go on it takes the first that leads anywhere.
The contract of `parse_source` says that its result is what these functions give, for
every text and every source number.

A number that is no integer keeps its decimal text, and the version that a header asks
for keeps its own: the tree holds no floating point and no version requirement.
`app` gives the value of such a number.
