# nsysbench

`nsysbench` benchmarks a machine's CPU, memory, storage and network, and adds the scores up. The
library under `src/` holds what the benchmarks decide and compute, verified with Verus. The program
under `app/` brings the clocks, threads, files, requests and the floating-point arithmetic.

## The library

| Module | What it holds |
| --- | --- |
| `topology` | core classes, the choice of CPUs, the stages of the CPU benchmark |
| `linux`, `cpulist`, `procfs`, `macos`, `machine` | what the operating systems say of the machine |
| `platform` | SIMD paths, placement of workers |
| `kernels`, `primes`, `samples` | the CPU workloads, what workers count, the median of samples |
| `memory`, `io`, `network` | the phases of the other benchmarks |
| `results`, `suite` | what was measured, which stages are scored, what a suite runs |
| `info`, `report`, `chart`, `paint`, `progress`, `reporter` | what is shown, and in which colours |
| `text`, `order`, `sorted` | strings, dictionary order, sorted sets and maps |

Contracts speak of sequences, sets and integers: `select_cpus` returns `selected_cpus(topology,
requested)`, `topology_stages` returns `stage_plan(topology, selected)`, and so on. Public proof
functions state what holds across functions, such as that the last stage of a plan loads every
selected CPU, or that a written CPU list reads back as its CPUs.

Trusted are the contracts of `String::push`, `u64::isqrt`, `std::hint::black_box` and of the calls
into the crate `colored` in `paint`. Each says in its doc comment what it claims.

## The program

```bash
nsysbench run --threads 2 --duration 5 --memory-mb 256 --io-path /tmp
nsysbench cpu --threads 8 --cpu-max-prime 20000
nsysbench cpu --threads 8 --duration 5 --sequence
nsysbench memory --size-mb 256 --duration 8
nsysbench io --path /tmp --block-kb 4 --file-size-mb 64 --duration 8
nsysbench network --target http://localhost/file --duration 8
nsysbench --json info --path /tmp
```

Results go to stdout, progress messages to stderr; `--quiet` and `--json` suppress the messages.
