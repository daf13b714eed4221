# the_sieve

TTRPG-flavoured markdown (stat blocks, boxed read-aloud text, column
switches, page breaks, license appendices) turned into half-letter booklets.

- `src/` is the library, verified with Verus: the markdown tree builder over
  the CommonMark event stream, the directive parsers, the HTML and Typst
  renderers, the content decisions of the PDF layout (stat-block items,
  styled runs, list markers, track planning), license texts, errors and the
  output-path rule of the command line.
- `tests/` exercises the library on concrete documents.
- `app/` is the `the-sieve` command: argument parsing, file and stdin I/O,
  the krilla + parley page layout and drawing, and the Typst compile.

The PDF layout loads its fonts (EB Garamond, JetBrains Mono) at run time
from the directory named by `THE_SIEVE_FONTS`, or `fonts/`.
