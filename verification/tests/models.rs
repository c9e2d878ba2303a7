use npm_audit::chains::DependencyTree;
use npm_audit::models::{
    AuditReport, DependencyType, FixAvailable, Metadata, Severity, VulnCount, Vulnerability,
};
use npm_audit::name_map::NameMap;

fn leaf() -> DependencyTree {
    DependencyTree::default()
}

fn node(children: Vec<(&str, DependencyTree)>) -> DependencyTree {
    DependencyTree {
        dependencies: children
            .into_iter()
            .map(|(name, child)| (name.to_string(), child))
            .collect(),
    }
}

fn create_vuln(name: &str, severity: Severity) -> Vulnerability {
    Vulnerability {
        name: name.to_string(),
        severity,
        is_direct: DependencyType::Direct,
        via: vec![],
        range: "1.0.0".to_string(),
        fix_available: FixAvailable::Bool(false),
    }
}

#[test]
fn test_collect_chains_single_chain() {
    let tree = node(vec![("a", node(vec![("b", node(vec![("target", leaf())]))]))]);

    let names = vec!["target".to_string()];
    let result = tree.collect_chains(&names);

    assert_eq!(
        result.get("target").unwrap(),
        &vec![vec!["a".to_string(), "b".to_string(), "target".to_string()]]
    );
}

#[test]
fn test_collect_chains_diamond_returns_all_paths() {
    let tree = node(vec![(
        "a",
        node(vec![
            ("b", node(vec![("target", leaf())])),
            ("c", node(vec![("target", leaf())])),
        ]),
    )]);

    let names = vec!["target".to_string()];
    let mut result = tree.collect_chains(&names).remove("target").unwrap();
    result.sort();

    let mut expected = vec![
        vec!["a".to_string(), "b".to_string(), "target".to_string()],
        vec!["a".to_string(), "c".to_string(), "target".to_string()],
    ];
    expected.sort();

    assert_eq!(result, expected);
}

#[test]
fn test_collect_chains_absent_name_returns_no_entry() {
    let tree = node(vec![("a", leaf())]);

    let names = vec!["missing".to_string()];
    let result = tree.collect_chains(&names);

    assert!(!result.contains_key("missing"));
}

#[test]
fn collect_chains_keeps_depth_first_order_and_groups_by_name() {
    let tree = node(vec![
        ("x", node(vec![("t", leaf()), ("u", node(vec![("t", leaf())]))])),
        ("t", leaf()),
        ("u", leaf()),
    ]);
    let names = vec!["t".to_string(), "u".to_string()];
    let result = tree.collect_chains(&names);

    assert_eq!(result.len(), 2);
    assert_eq!(result.name_at(0), "t");
    assert_eq!(result.name_at(1), "u");
    assert_eq!(
        result.get("t").unwrap(),
        &vec![
            vec!["x".to_string(), "t".to_string()],
            vec!["x".to_string(), "u".to_string(), "t".to_string()],
            vec!["t".to_string()],
        ]
    );
    assert_eq!(
        result.get("u").unwrap(),
        &vec![vec!["x".to_string(), "u".to_string()], vec!["u".to_string()]]
    );
    assert!(!result.contains_key("x"));
}

#[test]
fn collect_chains_of_empty_tree_is_empty() {
    let names = vec!["a".to_string()];
    assert!(leaf().collect_chains(&names).is_empty());
}

#[test]
fn test_dependency_type_from_bool() {
    assert_eq!(DependencyType::from(true), DependencyType::Direct);
    assert_eq!(DependencyType::from(false), DependencyType::Indirect);
}

#[test]
fn dependency_type_and_severity_names() {
    assert_eq!(DependencyType::Direct.as_str(), "direct");
    assert_eq!(DependencyType::Indirect.as_str(), "indirect");
    assert_eq!(Severity::Info.as_str(), "info");
    assert_eq!(Severity::Low.as_str(), "low");
    assert_eq!(Severity::Moderate.as_str(), "moderate");
    assert_eq!(Severity::High.as_str(), "high");
    assert_eq!(Severity::Critical.as_str(), "critical");
    assert!(Severity::Info.rank() < Severity::Low.rank());
    assert!(Severity::High.rank() < Severity::Critical.rank());
}

#[test]
fn test_filtered_vulnerabilities() {
    let mut vulns = NameMap::new();
    vulns.insert("v1".to_string(), create_vuln("v1", Severity::Low));
    vulns.insert("v2".to_string(), create_vuln("v2", Severity::High));
    vulns.insert("v3".to_string(), create_vuln("v3", Severity::Critical));

    let report = AuditReport {
        vulnerabilities: vulns,
        metadata: Metadata::default(),
    };

    let result = report.filtered_vulnerabilities(Some(Severity::High));
    assert_eq!(result.len(), 2)
}

#[test]
fn filtered_without_floor_keeps_everything_in_order() {
    let mut vulns = NameMap::new();
    vulns.insert("v1".to_string(), create_vuln("v1", Severity::Info));
    vulns.insert("v2".to_string(), create_vuln("v2", Severity::Critical));
    vulns.insert("v3".to_string(), create_vuln("v3", Severity::Low));
    let report = AuditReport { vulnerabilities: vulns, metadata: Metadata::default() };

    let names: Vec<&str> = report
        .filtered_vulnerabilities(None)
        .iter()
        .map(|v| v.name.as_str())
        .collect();
    assert_eq!(names, vec!["v1", "v2", "v3"]);
}

#[test]
fn sorted_vulnerabilities_orders_by_severity_stably() {
    let mut vulns = NameMap::new();
    vulns.insert("a".to_string(), create_vuln("a", Severity::Critical));
    vulns.insert("b".to_string(), create_vuln("b", Severity::Low));
    vulns.insert("c".to_string(), create_vuln("c", Severity::Info));
    vulns.insert("d".to_string(), create_vuln("d", Severity::Critical));
    vulns.insert("e".to_string(), create_vuln("e", Severity::Moderate));
    vulns.insert("f".to_string(), create_vuln("f", Severity::Low));
    let report = AuditReport { vulnerabilities: vulns, metadata: Metadata::default() };

    let all: Vec<&str> = report
        .sorted_vulnerabilities(None)
        .iter()
        .map(|v| v.name.as_str())
        .collect();
    assert_eq!(all, vec!["c", "b", "f", "e", "a", "d"]);

    let severe: Vec<&str> = report
        .sorted_vulnerabilities(Some(Severity::Moderate))
        .iter()
        .map(|v| v.name.as_str())
        .collect();
    assert_eq!(severe, vec!["e", "a", "d"]);
}

#[test]
fn test_vuln_count_from_iter() {
    let vulns = [
        create_vuln("v1", Severity::Low),
        create_vuln("v2", Severity::Moderate),
        create_vuln("v3", Severity::Moderate),
    ];

    let refs: Vec<&Vulnerability> = vulns.iter().collect();
    let count: VulnCount = VulnCount::from_iter(&refs);
    assert_eq!(count.low, 1);
    assert_eq!(count.moderate, 2);
    assert_eq!(count.total, 3);
}

#[test]
fn vuln_count_counts_add_up_to_total() {
    let vulns = [
        create_vuln("a", Severity::Info),
        create_vuln("b", Severity::Critical),
        create_vuln("c", Severity::High),
        create_vuln("d", Severity::Critical),
    ];
    let refs: Vec<&Vulnerability> = vulns.iter().collect();
    let c = VulnCount::from_iter(&refs);
    assert_eq!(
        c,
        VulnCount { info: 1, low: 0, moderate: 0, high: 1, critical: 2, total: 4 }
    );
    assert_eq!(c.info + c.low + c.moderate + c.high + c.critical, c.total);
}

#[test]
fn name_map_insert_get_remove() {
    let mut m: NameMap<u32> = NameMap::new();
    assert!(m.is_empty());
    m.insert("lodash".to_string(), 1);
    m.insert("minimist".to_string(), 2);
    m.insert("lodash".to_string(), 3);
    assert_eq!(m.len(), 2);
    assert_eq!(m.get("lodash"), Some(&3));
    assert_eq!(m.get("minimist"), Some(&2));
    assert_eq!(m.get("left-pad"), None);
    assert_eq!(m.name_at(0), "lodash");
    assert_eq!(m.remove("lodash"), Some(3));
    assert_eq!(m.remove("lodash"), None);
    assert!(!m.contains_key("lodash"));
    assert!(m.contains_key("minimist"));
    assert_eq!(m.len(), 1);
}
