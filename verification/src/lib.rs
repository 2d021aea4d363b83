//! Tool inventory of CNC program archives: the pure logic behind the scanner.
//!
//! The crate reads nothing by itself. It decides which directories hold parts,
//! decodes the tool tables of Mazatrol (`.pbg`, `.maz`), Heidenhain (`.h`) and
//! G-code programs from their bytes, aggregates tool counts per part group,
//! orders the results by name and renders the report lines.
pub mod args;
pub mod data;
pub mod lines;
pub mod order;
pub mod parser;
pub mod report;
pub mod text;
pub mod toolset;
