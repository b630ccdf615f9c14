//! What a system benchmark decides and computes: which CPUs each stage loads, what the workloads
//! do and how much that counts for, which blocks and elements the phases touch, which results are
//! compared, and what the report shows. Clocks, threads, files and floating-point numbers are the
//! caller's.
pub mod chart;
pub mod cpulist;
pub mod info;
pub mod io;
pub mod kernels;
pub mod linux;
pub mod machine;
pub mod macos;
pub mod memory;
pub mod network;
pub mod order;
pub mod paint;
pub mod platform;
pub mod primes;
pub mod procfs;
pub mod progress;
pub mod report;
pub mod reporter;
pub mod results;
pub mod samples;
pub mod sorted;
pub mod suite;
pub mod text;
pub mod topology;
