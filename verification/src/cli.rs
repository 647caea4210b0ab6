//! The command-line surface.
use vstd::prelude::*;

verus! {

/// What the user asks for.
#[derive(Debug)]
pub struct Cli {
    pub command: Command,
}

/// A command, with its arguments.
#[derive(Debug)]
pub enum Command {
    /// Measure proof generation for a single circuit and print a report.
    Run {
        /// Path to the circuit directory (the folder that contains Nargo.toml).
        circuit_dir: String,
        /// How many times to repeat each measurement. The first run is
        /// discarded (cold CRS download / cold cache), and the rest are
        /// reduced to their median. Minimum 1.
        repeats: usize,
    },
    /// Measure two or more circuits and print them side by side in one table.
    Compare {
        /// Circuit directories to measure and compare (two or more).
        circuit_dirs: Vec<String>,
        /// Same as for a single circuit: applied to every circuit. Minimum 1.
        repeats: usize,
    },
    /// Render the JSON results in results/ into a self-contained HTML report.
    Report {
        /// Directory holding the measurement JSON files.
        results_dir: String,
        /// Output HTML file path.
        out: String,
        /// After rendering, open the report in the default browser.
        open: bool,
    },
}

} // verus!
