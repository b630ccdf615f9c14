use nsysbench::info::{
    bytes_of_kib, cpu_info, filesystem_type, format_bytes, io_info, system_info, MemoryInfo,
    SizeOverflow,
};
use nsysbench::linux::{
    linux_allowed_cpus, linux_core_type_name, linux_cpu_topology, normalize_linux_capacity_classes,
    CoreEntry, CpuReading,
};
use nsysbench::machine::{cpu_topology, TopologyProbe};
use nsysbench::macos::{self, macos_cpu_topology, sysctl_usize, MacosReadings};
use nsysbench::procfs;
use nsysbench::sorted::{TextMap, TextSet};
use nsysbench::topology::{fallback_cpu_topology, select_cpus, CpuTopology};

fn reading(cpus: &str, core_type: Option<&str>, capacity: Option<&str>) -> CpuReading {
    CpuReading {
        core_cpus_list: Some(cpus.to_string()),
        core_type: core_type.map(str::to_string),
        cpu_capacity: capacity.map(str::to_string),
    }
}

fn classes(topology: &CpuTopology) -> Vec<(String, Vec<usize>, usize)> {
    topology
        .core_classes
        .iter()
        .map(|class| (class.id.clone(), class.logical_cpus.clone(), class.physical_cores))
        .collect()
}

fn rows(map: &TextMap) -> Vec<(&str, &str)> {
    map.rows
        .iter()
        .map(|(key, value)| (key.as_str(), value.as_str()))
        .collect()
}

#[test]
fn linux_cores_are_grouped_by_siblings_and_type() {
    let readings = vec![
        reading("0,4\n", Some("core\n"), None),
        reading("1\n", Some("Atom\n"), None),
        reading("2\n", Some("0x20\n"), None),
        reading("0,4\n", Some("0x40\n"), None),
    ];
    let topology = linux_cpu_topology(vec![0, 1, 2, 4], &readings);
    assert_eq!(topology.logical_cpus, vec![0, 1, 2, 4]);
    assert_eq!(topology.physical_cores, 3);
    assert_eq!(topology.smt_threads_per_core, 2);
    assert_eq!(topology.core_groups, vec![vec![0, 4], vec![1], vec![2]]);
    assert_eq!(
        classes(&topology),
        vec![
            ("efficiency".to_string(), vec![1, 2], 2),
            ("performance".to_string(), vec![0, 4], 1),
        ]
    );
    assert_eq!(
        topology.source,
        "Linux sysfs topology intersected with sched_getaffinity"
    );
}

#[test]
fn linux_core_groups_share_out_the_cpus() {
    let allowed = vec![0, 1, 3, 6, 7];
    let lists = ["0-1", "0-1", "2-3", "6-7", "6-7"];
    let readings = lists.iter().map(|list| reading(list, None, None)).collect();
    let topology = linux_cpu_topology(allowed.clone(), &readings);
    let mut grouped: Vec<usize> = topology.core_groups.concat();
    grouped.sort();
    assert_eq!(grouped, allowed);
    assert_eq!(topology.core_groups, vec![vec![0, 1], vec![3], vec![6, 7]]);
}

#[test]
fn linux_siblings_outside_the_mask_are_left_out() {
    let readings = vec![reading("0-1", None, None), reading("2-3", None, None)];
    let topology = linux_cpu_topology(vec![0, 2], &readings);
    assert_eq!(topology.core_groups, vec![vec![0], vec![2]]);
    assert_eq!(
        classes(&topology),
        vec![("default".to_string(), vec![0, 2], 2)]
    );
    assert_eq!(select_cpus(&topology, 0), vec![0, 2]);
}

#[test]
fn linux_without_sysfs_takes_each_cpu_for_a_core() {
    let nothing = || CpuReading {
        core_cpus_list: None,
        core_type: None,
        cpu_capacity: None,
    };
    let topology = linux_cpu_topology(vec![5, 6], &vec![nothing(), reading(" \n", None, None)]);
    assert_eq!(topology.core_groups, vec![vec![5], vec![6]]);
    assert_eq!(topology.physical_cores, 2);
    let none = linux_cpu_topology(vec![], &vec![]);
    assert_eq!(none.physical_cores, 1);
    assert_eq!(none.smt_threads_per_core, 0);
}

#[test]
fn linux_capacities_become_classes() {
    let readings = vec![
        reading("0", None, Some("1024\n")),
        reading("1", None, Some("446\n")),
        reading("2", None, Some("800\n")),
        reading("3", None, Some("446\n")),
    ];
    let topology = linux_cpu_topology(vec![0, 1, 2, 3], &readings);
    assert_eq!(
        classes(&topology),
        vec![
            ("capacity-800".to_string(), vec![2], 1),
            ("efficiency".to_string(), vec![1, 3], 2),
            ("performance".to_string(), vec![0], 1),
        ]
    );
}

#[test]
fn linux_one_capacity_stays_as_it_is() {
    let mut cores = vec![
        CoreEntry {
            cpus: vec![0],
            class: "capacity-1024".to_string(),
        },
        CoreEntry {
            cpus: vec![1],
            class: "capacity-x".to_string(),
        },
    ];
    normalize_linux_capacity_classes(&mut cores);
    assert_eq!(cores[0].class, "capacity-1024");
    cores.push(CoreEntry {
        cpus: vec![2],
        class: "capacity-0512".to_string(),
    });
    normalize_linux_capacity_classes(&mut cores);
    assert_eq!(cores[0].class, "performance");
    assert_eq!(cores[1].class, "capacity-x");
    assert_eq!(cores[2].class, "efficiency");
}

#[test]
fn linux_core_types_have_names() {
    assert_eq!(linux_core_type_name(" ATOM "), "efficiency");
    assert_eq!(linux_core_type_name("32"), "efficiency");
    assert_eq!(linux_core_type_name("core"), "performance");
    assert_eq!(linux_core_type_name("64"), "performance");
    assert_eq!(linux_core_type_name("Mid"), "core-type-mid");
}

#[test]
fn linux_mask_names_the_allowed_cpus() {
    let mask = Some(vec![false, true, true, false, true]);
    assert_eq!(linux_allowed_cpus(&mask, 8), vec![1, 2, 4]);
    assert_eq!(linux_allowed_cpus(&Some(vec![false]), 2), vec![0, 1]);
    assert_eq!(linux_allowed_cpus(&None, 3), vec![0, 1, 2]);
}

#[test]
fn macos_levels_become_classes() {
    let readings = MacosReadings {
        logical: Some(8),
        physical: Some(8),
        performance: Some(6),
        efficiency: Some(2),
    };
    let topology = macos_cpu_topology(&readings, 1);
    assert_eq!(
        classes(&topology),
        vec![
            ("performance".to_string(), vec![0, 1, 2, 3, 4, 5], 6),
            ("efficiency".to_string(), vec![6, 7], 2),
        ]
    );
    assert_eq!(topology.smt_threads_per_core, 1);
    assert_eq!(topology.core_groups.len(), 8);
    assert_eq!(select_cpus(&topology, 0).len(), 8);
}

#[test]
fn macos_without_readings_has_one_class() {
    let readings = MacosReadings {
        logical: None,
        physical: None,
        performance: None,
        efficiency: None,
    };
    let topology = macos_cpu_topology(&readings, 3);
    assert_eq!(
        classes(&topology),
        vec![("performance".to_string(), vec![0, 1, 2], 3)]
    );
    assert_eq!(
        topology.source,
        "macOS sysctl perflevel topology; placement is QoS advisory"
    );
}

#[test]
fn macos_numbers_are_trimmed() {
    assert_eq!(sysctl_usize(&Some(" 12\n".to_string())), Some(12));
    assert_eq!(sysctl_usize(&Some("twelve".to_string())), None);
    assert_eq!(sysctl_usize(&None), None);
    assert_eq!(
        macos::memory_info(&Some("17179869184\n".to_string())),
        MemoryInfo {
            total_bytes: Some(17179869184)
        }
    );
    assert_eq!(macos::memory_info(&None), MemoryInfo { total_bytes: None });
}

#[test]
fn macos_details_are_picked() {
    let output = "hw.physicalcpu: 4\nkern.ostype: Darwin\nhw.perflevel0.logicalcpu: 4\n\
                  machdep.cpu.brand_string: Apple M1\nhw.physicalcpu_max: 9\n";
    let (cores, details) = macos::cpu_details(output);
    assert_eq!(cores, Some(4));
    assert_eq!(
        rows(&details),
        vec![
            ("hw.perflevel0.logicalcpu", "4"),
            ("hw.physicalcpu", "4"),
            ("machdep.cpu.brand_string", "Apple M1"),
        ]
    );
}

#[test]
fn each_platform_has_its_topology() {
    let linux = cpu_topology(TopologyProbe::Linux {
        allowed: vec![3],
        readings: vec![reading("3", None, None)],
    });
    assert_eq!(linux.logical_cpus, vec![3]);
    let macos = cpu_topology(TopologyProbe::Macos {
        readings: MacosReadings {
            logical: Some(2),
            physical: Some(1),
            performance: None,
            efficiency: None,
        },
        parallelism: 1,
    });
    assert_eq!(macos.smt_threads_per_core, 2);
    let other = cpu_topology(TopologyProbe::Other { parallelism: 2 });
    assert_eq!(other.source, "scheduler-visible logical CPUs");
    assert_eq!(classes(&other), vec![("default".to_string(), vec![0, 1], 2)]);
}

const CPUINFO: &str = "processor\t: 0\nvendor_id\t: GenuineIntel\nmodel name\t: Xeon\n\
cpu MHz\t\t: 2100.000\nphysical id\t: 0\ncore id\t\t: 0\n\n\
processor\t: 1\nvendor_id\t: GenuineIntel\nmodel name\t: Xeon\n\
cpu MHz\t\t: 1900.500\nphysical id\t: 0\ncore id\t\t: 1\n\n\
processor\t: 2\nphysical id\t: 0\ncore id\t\t: 1\n\n";

#[test]
fn cpuinfo_gives_cores_and_details() {
    let (cores, details) = procfs::cpu_details(CPUINFO);
    assert_eq!(cores, Some(2));
    assert_eq!(
        rows(&details),
        vec![
            ("cpu MHz", "1900.500, 2100.000"),
            ("model name", "Xeon"),
            ("vendor_id", "GenuineIntel"),
        ]
    );
}

#[test]
fn empty_cpuinfo_gives_nothing() {
    let (cores, details) = procfs::cpu_details("");
    assert_eq!(cores, None);
    assert!(details.rows.is_empty());
}

#[test]
fn meminfo_gives_the_total() {
    let contents = "MemFree: 1 kB\nMemTotal: x\nMemTotal:       16384 kB\n".to_string();
    assert_eq!(
        procfs::memory_info(&Some(contents)),
        Ok(MemoryInfo {
            total_bytes: Some(16777216)
        })
    );
    assert_eq!(
        procfs::memory_info(&Some("MemTotal:\n".to_string())),
        Ok(MemoryInfo { total_bytes: None })
    );
    assert_eq!(procfs::memory_info(&None), Ok(MemoryInfo { total_bytes: None }));
    assert_eq!(
        procfs::memory_info(&Some("MemTotal: 18014398509481984 kB".to_string())),
        Err(SizeOverflow)
    );
    assert_eq!(bytes_of_kib(18014398509481983), Ok(18446744073709550592));
}

fn known(name: &str) -> Option<String> {
    Some(name.to_string())
}

#[test]
fn df_describes_the_storage() {
    let output = "Filesystem 1024-blocks Used Available Capacity Mounted on\n\
                  /dev/sda1 100 40 60 40% /\n";
    let info = io_info("/tmp", &known(output), &known("ext4\n")).unwrap();
    assert_eq!(info.path, "/tmp");
    assert_eq!(info.filesystem.as_deref(), Some("ext4"));
    assert_eq!(info.total_bytes, Some(102_400));
    assert_eq!(info.available_bytes, Some(61_440));
    let untyped = io_info("/tmp", &known(output), &None).unwrap();
    assert_eq!(untyped.filesystem, None);
    assert_eq!(untyped.total_bytes, Some(102_400));
    let blank = io_info("/tmp", &known(output), &known(" \n")).unwrap();
    assert_eq!(blank.filesystem, None);
}

#[test]
fn df_names_the_type_of_the_filesystem() {
    let output = "Filesystem Type 1024-blocks Used Available Capacity Mounted on\n\
                  /dev/sda1 xfs 100 40 60 40% /\n";
    assert_eq!(filesystem_type(&known(output)), known("xfs"));
    assert_eq!(filesystem_type(&known("/dev/sda1 100 40 60")), None);
    assert_eq!(filesystem_type(&known("")), None);
    assert_eq!(filesystem_type(&None), None);
}

#[test]
fn df_without_enough_fields_describes_nothing() {
    for output in [None, Some(""), Some("a b c\n")] {
        let info = io_info("x", &output.map(str::to_string), &known("ext4")).unwrap();
        assert_eq!(info.path, "x");
        assert_eq!(info.filesystem, None);
        assert_eq!(info.total_bytes, None);
        assert_eq!(info.available_bytes, None);
    }
    let odd = io_info("x", &known("fs - 1 2"), &None).unwrap();
    assert_eq!(odd.total_bytes, None);
    assert_eq!(odd.available_bytes, Some(2048));
}

#[test]
fn df_sizes_that_do_not_fit_are_refused() {
    let huge = known("fs 18446744073709551615 0 1");
    assert_eq!(io_info("x", &huge, &known("ext4")).err(), Some(SizeOverflow));
    let huge = known("fs 1 0 18446744073709551615");
    assert_eq!(io_info("x", &huge, &None).err(), Some(SizeOverflow));
}

#[test]
fn cpu_info_adds_the_topology() {
    let topology = fallback_cpu_topology("test", 4);
    let mut details = TextMap::new();
    details.insert("model".to_string(), "7".to_string());
    let info = cpu_info(&topology, None, details);
    assert_eq!(info.logical_cpus, 4);
    assert_eq!(info.physical_cores, Some(4));
    assert_eq!(
        rows(&info.details),
        vec![
            ("core classes", "default: 4 logical / 4 physical"),
            ("model", "7"),
            ("topology source", "test"),
        ]
    );
    let reported = cpu_info(&topology, Some(2), TextMap::new());
    assert_eq!(reported.physical_cores, Some(2));
    let storage = io_info(".", &None, &None).unwrap();
    let system = system_info(reported, MemoryInfo { total_bytes: None }, storage);
    assert_eq!(system.cpu.physical_cores, Some(2));
    assert_eq!(system.io.path, ".");
}

#[test]
fn maps_and_sets_keep_their_order() {
    let mut map = TextMap::new();
    for (key, value) in [("b", "1"), ("a", "2"), ("b", "3"), ("", "4")] {
        map.insert(key.to_string(), value.to_string());
    }
    assert_eq!(rows(&map), vec![("", "4"), ("a", "2"), ("b", "3")]);
    let mut set = TextSet::new();
    for item in ["z", "é", "z", "A", "za"] {
        set.insert(item.to_string());
    }
    assert_eq!(set.items, vec!["A", "z", "za", "é"]);
}

#[test]
fn sizes_are_shown_in_gib() {
    assert_eq!(format_bytes(0), "0.00 GiB");
    assert_eq!(format_bytes(1 << 30), "1.00 GiB");
    assert_eq!(format_bytes(1 << 27), "0.12 GiB");
    assert_eq!(format_bytes(3 << 27), "0.38 GiB");
    assert_eq!(format_bytes(u64::MAX), "17179869184.00 GiB");
}

#[test]
fn sizes_are_shown_as_floating_point_formats_them() {
    let mut bytes: u64 = 1;
    let mut state: u64 = 0x9E37_79B9_7F4A_7C15;
    let mut samples = vec![0, 5_368_709, 5_368_710, u64::MAX, u64::MAX - 1, (1 << 53) + 1];
    for _ in 0..2000 {
        state = state.wrapping_mul(6364136223846793005).wrapping_add(1);
        samples.push(state);
        samples.push(state >> (state % 64));
        samples.push((state >> 30) << 27);
        bytes = bytes.rotate_left(1);
        samples.push(bytes);
        samples.push(bytes.wrapping_sub(1));
    }
    for bytes in samples {
        let expected = format!("{:.2} GiB", bytes as f64 / 1024_f64.powi(3));
        assert_eq!(format_bytes(bytes), expected, "{bytes}");
    }
}
