# grep_rustico

A small grep with its own regular expressions, verified with Verus.

Expressions hold literals, `.`, bracket expressions (`[abc]`, `[a-z]`, `[^...]`),
POSIX classes (`[[:digit:]]`, ...), repetitions (`*`, `+`, `?`, `{n}`, `{n,}`,
`{,m}`, `{n,m}`), anchors (`^`, `$`) and alternatives (`|`). An expression is read
into steps, and a line is matched against them by a backtracking matcher that
tries the numbers of matches of each repeated step from the most down.

Layout of `src/`:

- `analisis.rs`: what reading an expression gives (steps or an error), as spec
  functions; `regex.rs` reads it and matches lines, proved against them.
- `casa.rs`: what it means for steps to match a stretch of a line (`casa`), the
  law that a line is accepted exactly when it contains such a stretch
  (`ley_busqueda_general`), and the laws of alternatives.
- `motor.rs`, `busqueda.rs`: the state machine that the matcher of `clase/` runs,
  why it always stops, and what it finds for plain patterns, anchors, bracket
  expressions, POSIX classes and a last repeated character.
- `caracter.rs`, `clase_char.rs`, `paso_regex.rs`, `paso_evaluado.rs`,
  `repeticion.rs`, `lector.rs`, `texto.rs`: the units, steps and text helpers.
- `errors.rs`, `verficacion_inicial.rs`, `egrep/`: errors and the checks on the
  command line.
- `clase/`: the first version of the matcher, where a bracket's `^` negates the
  step's repetition, with its own reading, matcher and laws.

`app/main.rs` is the command line: it reads the file named on it and prints its
lines.
