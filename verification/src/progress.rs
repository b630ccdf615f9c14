//! The texts of the progress messages.

use vstd::prelude::*;
use crate::text::push_decimal;
#[allow(unused_imports)]
use crate::text::decimal;

verus! {

/// Before the machine is looked at.
pub fn collecting_info(path: &str) -> (r: String)
    ensures
        r@ == "collecting system information for "@ + path@,
{
    let mut text = "collecting system information for ".to_string();
    text.append(path);
    text
}

/// Before the first stage of the CPU benchmark.
pub fn cpu_stages(stages: usize, seconds: u64) -> (r: String)
    ensures
        r@ == "running CPU score v2: "@ + decimal(stages as nat) + " topology stage(s), "@ + decimal(
            seconds as nat,
        ) + "s each"@,
{
    let mut text = "running CPU score v2: ".to_string();
    push_decimal(&mut text, stages as u64);
    text.append(" topology stage(s), ");
    push_decimal(&mut text, seconds);
    text.append("s each");
    text
}

/// Before a stage of the CPU benchmark.
pub fn cpu_stage(id: &str, threads: usize) -> (r: String)
    ensures
        r@ == "running CPU stage "@ + id@ + " with "@ + decimal(threads as nat) + " thread(s)"@,
{
    let mut text = "running CPU stage ".to_string();
    text.append(id);
    text.append(" with ");
    push_decimal(&mut text, threads as u64);
    text.append(" thread(s)");
    text
}

/// Before the first stage of a scaling sequence.
pub fn cpu_sequence(threads: usize, seconds: u64) -> (r: String)
    ensures
        r@ == "running full CPU scaling sequence from 1 to "@ + decimal(threads as nat)
            + " thread(s), "@ + decimal(seconds as nat) + "s each"@,
{
    let mut text = "running full CPU scaling sequence from 1 to ".to_string();
    push_decimal(&mut text, threads as u64);
    text.append(" thread(s), ");
    push_decimal(&mut text, seconds);
    text.append("s each");
    text
}

/// Before a phase of the memory benchmark.
pub fn memory_phase(phase: &str, seconds: u64) -> (r: String)
    ensures
        r@ == "running memory "@ + phase@ + " phase for "@ + decimal(seconds as nat) + "s"@,
{
    let mut text = "running memory ".to_string();
    text.append(phase);
    text.append(" phase for ");
    push_decimal(&mut text, seconds);
    text.append("s");
    text
}

/// Before the storage benchmark.
pub fn io_started(path: &str, block_kb: usize, file_size_mb: usize) -> (r: String)
    ensures
        r@ == "running IO benchmark in "@ + path@ + " using "@ + decimal(block_kb as nat)
            + " KiB blocks and a "@ + decimal(file_size_mb as nat) + " MiB file"@,
{
    let mut text = "running IO benchmark in ".to_string();
    text.append(path);
    text.append(" using ");
    push_decimal(&mut text, block_kb as u64);
    text.append(" KiB blocks and a ");
    push_decimal(&mut text, file_size_mb as u64);
    text.append(" MiB file");
    text
}

/// Before a phase of the storage benchmark.
pub fn io_phase(phase: &str, seconds: u64) -> (r: String)
    ensures
        r@ == "running IO "@ + phase@ + " phase for "@ + decimal(seconds as nat) + "s"@,
{
    let mut text = "running IO ".to_string();
    text.append(phase);
    text.append(" phase for ");
    push_decimal(&mut text, seconds);
    text.append("s");
    text
}

/// Before the network benchmark.
pub fn network_started(target: &str, seconds: u64) -> (r: String)
    ensures
        r@ == "running network benchmark against "@ + target@ + " for "@ + decimal(seconds as nat)
            + "s"@,
{
    let mut text = "running network benchmark against ".to_string();
    text.append(target);
    text.append(" for ");
    push_decimal(&mut text, seconds);
    text.append("s");
    text
}

} // verus!
