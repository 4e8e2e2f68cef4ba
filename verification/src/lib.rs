//! The core of a language for writing musical patterns as text.
//!
//! A source is read into a syntax tree (`parser`, `ast`). A pattern of the
//! tree is lowered to events with exact durations and scheduled, in ticks of
//! a clock (`clock`, `ratio`), onto streams of degrees and modulations
//! (`interpreter`). The scheduled pattern is stepped tick by tick and hands
//! out pitches and modulations (`types`).

pub mod ast;
pub mod clock;
pub mod interpreter;
pub mod parser;
pub mod ratio;
pub mod settings;
pub mod types;
