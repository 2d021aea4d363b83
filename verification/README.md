# cnc_tools

Scans an archive of CNC programs (machine → part groups → parts → program
files) and reports which tools each program calls.

- `src/` is the library, verified with Verus: which directories are parts and
  groups (`parser`, `data::is_part_dir`), the decoders of Mazatrol `.pbg` and
  `.maz` tables, Heidenhain `.h` and G-code programs (`parser::*`), the line
  splitting of text files (`lines`), tool sets (`toolset`), counts and
  averages (`data`), ordering by name (`order`), the report text, progress
  lines, totals and CSV rows (`report`), and the command-line decisions
  (`args`).
- `app/` is the program around it: reading the command line with `lexopt`,
  walking the file system (`walkdir`, `rayon`, `indicatif`), and writing the
  JSON (`serde_json`) or CSV (`csv`) report.
