//! zkbench: reproducible proof-generation benchmarks for Noir circuits.
//!
//! This library holds every decision of the benchmarker: which jobs a measurement consists of and
//! in what order ([`bench`], [`campaign`]), what is made of the samples ([`measure`],
//! [`pipeline`]), what makes a directory a circuit ([`circuit`]), and what is shown of the results
//! ([`report`], [`chart`], [`report_html`], [`page`]). What all of it comes to, from the inputs to
//! the results, is stated in [`laws`]. Running tools, reading and writing files,
//! and talking to the terminal are left to the program around it.
pub mod bench;
pub mod campaign;
pub mod chart;
pub mod circuit;
pub mod cli;
pub mod double;
pub mod gates;
pub mod laws;
pub mod measure;
pub mod order;
pub mod page;
pub mod paint;
pub mod path;
pub mod pipeline;
pub mod precision;
pub mod report;
pub mod report_html;
pub mod text;
pub mod tools;
