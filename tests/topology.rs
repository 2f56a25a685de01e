use core_affinity::CoreId;
use dgen_rs::cpulist::{affinity_from_status, parse_cpu_list};
use dgen_rs::numa::{NUMA_LABEL, UMA_LABEL};
use dgen_rs::threads::{build_cpu_affinity_map, numa_optimization_enabled, pin_target, resolve_thread_count};
use dgen_rs::{generate_data, generate_data_with_topology, GeneratorConfig, NumaMode, NumaNode, NumaTopology};

fn two_nodes() -> NumaTopology {
    NumaTopology::from_detected(
        2,
        vec![
            NumaNode { node_id: 0, cpus: vec![0, 1, 2, 3], memory_kib: 0 },
            NumaNode { node_id: 1, cpus: vec![4, 5, 6, 7], memory_kib: 0 },
        ],
    )
}

#[test]
fn cpu_lists_are_counted() {
    assert_eq!(parse_cpu_list("0-23"), 24);
    assert_eq!(parse_cpu_list("0-11,24-35"), 24);
    assert_eq!(parse_cpu_list("0,2,4"), 3);
    assert_eq!(parse_cpu_list(" 1 , 3-4 "), 3);
    assert_eq!(parse_cpu_list("+7"), 1);
    assert_eq!(parse_cpu_list("0-3,\n"), 4);
}

#[test]
fn malformed_cpu_list_entries_count_nothing() {
    assert_eq!(parse_cpu_list(""), 0);
    assert_eq!(parse_cpu_list("x"), 0);
    assert_eq!(parse_cpu_list("5-3"), 0);
    assert_eq!(parse_cpu_list("1 - 3"), 0);
    assert_eq!(parse_cpu_list("-1"), 0);
    assert_eq!(parse_cpu_list("99999999999999999999999"), 0);
    assert_eq!(parse_cpu_list("0-18446744073709551615"), usize::MAX);
}

#[test]
fn affinity_line_is_found_in_status_text() {
    let status = "Name:\tcat\nCpus_allowed:\tff\nCpus_allowed_list:\t0-7\nMems_allowed_list:\t0\n";
    assert_eq!(affinity_from_status(status), Some(8));
    let crlf = "Name:\tcat\r\nCpus_allowed_list:\t0-3,8\r\n";
    assert_eq!(affinity_from_status(crlf), Some(5));
    assert_eq!(affinity_from_status("Name:\tcat\n"), None);
    assert_eq!(affinity_from_status("Cpus_allowed_list:\t\nCpus_allowed_list: 2\n"), Some(1));
}

#[test]
fn undetected_topology_is_one_node_with_every_cpu() {
    let t = NumaTopology::from_detected(0, Vec::new());
    assert_eq!(t.num_nodes, 1);
    assert!(t.is_uma);
    assert!(!t.should_enable_numa_pinning());
    assert_eq!(t.deployment_type(), UMA_LABEL);
    assert_eq!(t.nodes.len(), 1);
    assert_eq!(t.nodes[0].cpus.len(), t.logical_cpus);
    assert_eq!(t.cpus_for_node(0).map(|c| c.len()), Some(t.logical_cpus));
    assert!(t.physical_cores >= 1);
    assert!(t.logical_cpus >= 1);
}

#[test]
fn multi_node_topology_queries() {
    let t = two_nodes();
    assert_eq!(t.num_nodes, 2);
    assert!(!t.is_uma);
    assert!(t.should_enable_numa_pinning());
    assert_eq!(t.deployment_type(), NUMA_LABEL);
    assert_eq!(t.cpus_for_node(1), Some(&[4usize, 5, 6, 7][..]));
    assert_eq!(t.cpus_for_node(5), None);
}

#[test]
fn numa_policy_follows_the_mode() {
    let multi = two_nodes();
    let single = NumaTopology::from_detected(1, vec![NumaNode { node_id: 0, cpus: vec![0, 1], memory_kib: 0 }]);
    assert!(numa_optimization_enabled(NumaMode::Auto, Some(&multi)));
    assert!(!numa_optimization_enabled(NumaMode::Auto, Some(&single)));
    assert!(numa_optimization_enabled(NumaMode::Force, Some(&single)));
    assert!(!numa_optimization_enabled(NumaMode::Disabled, Some(&multi)));
    assert!(!numa_optimization_enabled(NumaMode::Force, None));
}

#[test]
fn thread_count_resolution_order() {
    let t = two_nodes();
    assert_eq!(resolve_thread_count(Some(3), None, Some(&t), 5, 16), 3);
    assert_eq!(resolve_thread_count(None, None, Some(&t), 5, 16), 16);
    assert_eq!(resolve_thread_count(None, Some(1), Some(&t), 5, 16), 4);
    assert_eq!(resolve_thread_count(Some(2), Some(1), Some(&t), 5, 16), 2);
    assert_eq!(resolve_thread_count(Some(9), Some(1), Some(&t), 5, 16), 4);
    assert_eq!(resolve_thread_count(None, Some(7), Some(&t), 5, 16), 5);
    assert_eq!(resolve_thread_count(None, Some(0), None, 5, 16), 5);
    assert_eq!(resolve_thread_count(Some(6), Some(0), None, 5, 16), 6);
}

#[test]
fn affinity_map_for_one_node() {
    let t = two_nodes();
    let map = build_cpu_affinity_map(&t, 6, Some(1));
    assert_eq!(map.len(), 6);
    for thread in 0..6 {
        assert_eq!(map[&thread], vec![4 + thread % 4]);
    }
    assert!(build_cpu_affinity_map(&t, 6, Some(9)).is_empty());
}

#[test]
fn affinity_map_round_robins_nodes() {
    let t = two_nodes();
    let map = build_cpu_affinity_map(&t, 4, None);
    assert_eq!(map[&0], vec![0]);
    assert_eq!(map[&1], vec![5]);
    assert_eq!(map[&2], vec![2]);
    assert_eq!(map[&3], vec![7]);
    let wide = build_cpu_affinity_map(&t, 2, None);
    assert_eq!(wide[&0], vec![0, 1]);
    assert_eq!(wide[&1], vec![6, 7]);
}

#[test]
fn pin_target_picks_the_first_requested_core() {
    let available = vec![CoreId { id: 10 }, CoreId { id: 11 }, CoreId { id: 12 }];
    assert_eq!(pin_target(&[2, 0], &available), Some(CoreId { id: 12 }));
    assert_eq!(pin_target(&[3], &available), None);
    assert_eq!(pin_target(&[], &available), None);
}

#[test]
fn topology_does_not_change_the_bytes() {
    let t = two_nodes();
    let config = GeneratorConfig {
        numa_mode: NumaMode::Force,
        numa_node: Some(1),
        size: 9 * 1024 * 1024,
        seed: Some(4),
        ..GeneratorConfig::default()
    };
    let pinned = generate_data_with_topology(config, Some(&t), Some(2));
    let plain = generate_data(config);
    assert_eq!(pinned.as_slice(), plain.as_slice());
    let spread = generate_data_with_topology(GeneratorConfig { numa_node: None, ..config }, Some(&t), None);
    assert_eq!(spread.as_slice(), plain.as_slice());
}
