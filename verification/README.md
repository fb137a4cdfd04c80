# A compiler and a microprogrammed processor simulator, verified

`src/` is the verified library:

- `text` – character classes, text building, number formatting and parsing
- `lexer`, `parser` – tokens and the syntax tree, with their grammar as spec functions;
  `parse_end` – how the parser treats `EOF`
- `fold` – constant folding; `tree` – the text of a syntax tree
- `codegen` – the code generator, modelled step by step on the state `Cg`;
  `code_grows` – what compiling only adds to
- `binary` – memory images as little-endian bytes
- `consts`, `microcode`, `mem`, `arith`, `cpu`, `trace` – the processor: control words,
  the cache in front of RAM, the ALU, the clocked datapath and its trace text
- `input` – the simulator's input file and output report

The laws that relate several functions, or hold over every input or
state, are public proof functions named `lemma_...` in the module they
speak of.

`app/` holds the command lines (`compile` and `run`); `tests/` the tests.
