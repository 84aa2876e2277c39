# agikit

A library for the resources of Sierra's Adventure Game Interpreter (AGI),
with its behaviour stated in `requires` / `ensures` contracts and proved by
Verus.

- `src/compression`: the LZW coder of AGI version 3 resources, and the proof
  that decompressing what was compressed gives the input back.
- `src/logic`: logic resources. Decoding and encoding bytecode, with the proof
  that a program written and read back is the same program; the assembly text;
  the graph the decompiler reads bytecode into, as a graph of nodes and
  edges and as a program of named nodes, and its basic blocks with their
  rewriting passes and the rounds of them that run until nothing changes;
  logic scripts (parsing, printing, formatting, the statement graph with its
  exact edges, its `else` rewriting pass and the pass that takes out
  redundant jumps, and
  the steps of compilation that stand here: primitive statements and
  expressions, and the passes over compiled instructions); the dominators
  and post-dominators of a control-flow graph, defined by the walks from
  its root.
- `src/picture`: picture resources, decoding and encoding them, and the
  parts of rendering into pixel buffers that work on whole pixels (pens,
  flood fill, RGBA output through a palette), and the step that decides,
  command by command, the colors, the pen and the points to draw.
- `src/object_list`, `src/word_list`, `src/xor_encryption`, `src/agi_version`:
  the smaller formats, and version detection.
- `app/`: rendering a whole picture: line drawing, which works in floating
  point, around the library's rendering steps and pixel operations.
- `tests/`: tests of the library on concrete values.
