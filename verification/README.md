# Numora

Numora is a small executable math language: `.mth` programs give values,
attach a formula and ask for a result, solve an equation numerically, or
simplify algebra expressions.

This crate is written in Verus. `src/` is the library, and every function
in it is verified against its contract, but for one trusted wrapper of
`String::push`:

- `text` — character-level helpers (`trim`, `lines`, `split_whitespace`, ...)
  with specifications of the `str` functions they stand for;
- `lexer`, `token`, `parser`, `ast`, `tracer` — reading calculator
  expressions and writing them on one line; `numeral` names number tokens
  in messages as `{:?}` writes their `f64` values;
- `program`, `solver` — reading `.mth` programs and equation lines;
- `includes` — splitting and merging sections, and the expansion of
  `@include` lines as a state machine whose file reads are done outside;
- `modes`, `runtime`, `config` — the `@run` modes, their order, and how a
  source is routed;
- `value` — physical dimensions and unit texts;
- `algebra` — algebra expression trees, their reading, their one-line and
  LaTeX forms, explanations, and the plan and output of `simplify:` programs
  (`lines`: what showing the steps adds to that output).

`app/` is the command-line program around it: file and console I/O, and
everything that computes with floating-point numbers (evaluation, the
numeric solver, step traces and algebra simplification), which the library
does not hold.
