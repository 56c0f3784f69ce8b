# lico

The front end and intermediate layers of the Lico scripting language, written in Verus.
The library's own functions in `src/` carry contracts that the verifier proves; the calls
into outside crates and into std that vstd does not specify go through small wrappers
(marked `#[verifier::external_body]`) whose contracts are trusted, not proved.

- `lexer`: source text to tokens; the tokens tile the source.
- `parser`: tokens to a lossless syntax tree (built with `rowan`) and its syntax errors.
  The events of every grammar function, and so the tree of every input, are specified
  exactly (`parser::grammar::events`, `program_parse`); expressions are parsed by binding
  power, and for programs of plain statements the events are also given in closed form
  (`pratt`, `chain_program_events`).
- `position`: byte ranges to line and column positions.
- `ir`: the intermediate representation of a module (values, effects, strings and symbols
  in one storage, named by keys) and the builder that produces it.
- `database::function_capture`: which names each function takes from the functions around it.
- `lower_ast::context`: the scope bookkeeping used while lowering a syntax tree.
- `compile`: pieces of intermediate code, the local and scope bookkeeping of compilation, and
  the final lowering of intermediate code into instructions with a table of source ranges.
- `il`: instructions, local ids, addresses and source ranges of executable code.
- `object`: the kinds of runtime values and their truthiness; `ustring`, strings indexed by
  character.
- `collections`: an arena and a sorted linear map.

`app/` is a small command line program that reads a file, lexes and parses it, and prints
the syntax tree or the errors. `tests/` holds the tests.
