use npm_audit::display::{
    format_chain, format_fix, format_fix_line, format_outdated, format_severity, format_summary,
    format_vulnerability_header, header_line, vulnerability_block, vulnerability_details,
};
use npm_audit::models::{
    Advisory, DependencyType, Fix, FixAvailable, OutdatedEntry, Severity, Via, VulnCount,
    Vulnerability,
};
use npm_audit::name_map::NameMap;
use npm_audit::style::{Emphasis, Paint};

fn lodash() -> Vulnerability {
    Vulnerability {
        name: "lodash".to_string(),
        severity: Severity::Critical,
        is_direct: DependencyType::Direct,
        via: vec![],
        range: ">= 4.0.0".to_string(),
        fix_available: FixAvailable::Bool(true),
    }
}

#[test]
fn test_format_summary_filters_zero_severities_and_total_text() {
    let counts = VulnCount {
        critical: 1,
        low: 2,
        total: 3,
        ..Default::default()
    };

    let result = format_summary(&counts, Some(3));
    let result_without_total_text = format_summary(&counts, None);

    assert!(result.contains("Critical"));
    assert!(!result.contains("High"));
    assert!(result.contains("3"));
    assert!(!result_without_total_text.contains("out of"));
}

#[test]
fn format_summary_exact_text() {
    let counts = VulnCount { info: 4, low: 2, moderate: 0, high: 10, critical: 1, total: 17 };
    assert_eq!(
        format_summary(&counts, Some(120)),
        "Found 🔴 1 Critical, 🟠 10 High, 🟢 2 Low, (Total: 17 out of 120 total)!\n"
    );
    assert_eq!(
        format_summary(&VulnCount::default(), None),
        "Found , (Total: 0)!\n"
    );
}

#[test]
fn test_format_vulnerability_header() {
    let vuln = lodash();

    let result = format_vulnerability_header(&vuln);

    assert!(result.contains("lodash"));
    assert!(result.contains("CRITICAL"));
    assert!(result.contains(">= 4.0.0"));
    assert!(result.contains("direct"));
}

#[test]
fn header_and_block_with_and_without_colors() {
    colored::control::set_override(false);
    assert_eq!(
        format_vulnerability_header(&lodash()),
        "[CRITICAL] lodash (>= 4.0.0) [direct]"
    );
    let outdated = NameMap::new();
    let chains = NameMap::new();
    let block = vulnerability_block(&vuln_with_vias(), &outdated, &chains);
    assert_eq!(
        block,
        vec![
            "[HIGH] minimist (<1.2.6) [indirect]",
            " ├─ • Prototype Pollution (<1.2.6)",
            " │  └─   https://example.org/a",
            "  Via: mkdirp",
            " └─ → no fix available",
            "",
        ]
    );
    let readme = vulnerability_block(&readme_example(), &outdated, &chains);
    assert_eq!(
        readme.join("\n"),
        "[CRITICAL] lodash (>= 4.0.0) [direct]\n ├─ • Prototype Pollution in lodash (>= 4.0.0)\n │  └─   https://github.com/advisories/GHSA-xxxx-xxxx-xxxx\n └─ → npm install lodash@4.17.21 (major bump)\n"
    );

    colored::control::set_override(true);
    let result = format_vulnerability_header(&lodash());
    assert_eq!(
        result,
        "[\x1b[41;30mCRITICAL\x1b[0m] \x1b[1mlodash\x1b[0m (\x1b[2m>= 4.0.0\x1b[0m) [\x1b[36mdirect\x1b[0m]"
    );
    let block = vulnerability_block(&vuln_with_vias(), &outdated, &chains);
    assert_eq!(block[1], "\x1b[2m ├─ • Prototype Pollution (<1.2.6)\x1b[0m");
    assert_eq!(block[4], "\x1b[1;31m └─ → no fix available\x1b[0m");
    assert_eq!(block[5], "");
    colored::control::unset_override();
}

fn readme_example() -> Vulnerability {
    Vulnerability {
        name: "lodash".to_string(),
        severity: Severity::Critical,
        is_direct: DependencyType::Direct,
        via: vec![Via::Advisory(Advisory {
            title: "Prototype Pollution in lodash".to_string(),
            url: "https://github.com/advisories/GHSA-xxxx-xxxx-xxxx".to_string(),
            range: ">= 4.0.0".to_string(),
        })],
        range: ">= 4.0.0".to_string(),
        fix_available: FixAvailable::Fix(Fix {
            name: "lodash".to_string(),
            version: "4.17.21".to_string(),
        }),
    }
}

#[test]
fn header_line_layout() {
    assert_eq!(header_line("A", "b", "c", "d"), "[A] b (c) [d]");
}

#[test]
fn severity_badges() {
    let badge = format_severity(Severity::High);
    assert_eq!(badge.text, "HIGH");
    assert_eq!(badge.fg, Some(Paint::Black));
    assert_eq!(badge.bg, Some(Paint::TrueColor { r: 255, g: 165, b: 0 }));
    assert_eq!(format_severity(Severity::Info).text, "INFO");
    assert_eq!(format_severity(Severity::Moderate).bg, Some(Paint::Yellow));
}

#[test]
fn test_format_outdated_with_current() {
    let entry = OutdatedEntry {
        current: Some("4.0.0".to_string()),
        latest: "4.18.1".to_string(),
    };

    let result = format_outdated(&entry);

    assert!(result.contains("4.0.0"));
    assert!(result.contains("4.18.1"));
}

#[test]
fn test_format_outdated_missing_current_shows_unknown() {
    let entry = OutdatedEntry {
        current: None,
        latest: "4.18.1".to_string(),
    };

    let result = format_outdated(&entry);

    assert!(result.contains("unknown"));
    assert!(result.contains("4.18.1"));
}

#[test]
fn test_format_chain() {
    let entry = ["1".to_string(), "2".to_string()];

    let result = format_chain(&entry);

    assert!(result.contains("1 → 2"));
}

#[test]
fn format_chain_edges() {
    assert_eq!(format_chain(&[]), "");
    assert_eq!(format_chain(&["a".to_string()]), "a");
    assert_eq!(
        format_chain(&["a".to_string(), "b".to_string(), "c".to_string()]),
        "a → b → c"
    );
}

#[test]
fn format_fix_variants() {
    assert_eq!(format_fix(&FixAvailable::Bool(true)), "npm audit fix");
    assert_eq!(format_fix(&FixAvailable::Bool(false)), "no fix available");
    let fix = FixAvailable::Fix(Fix { name: "lodash".to_string(), version: "4.17.21".to_string() });
    assert_eq!(format_fix(&fix), "npm install lodash@4.17.21 (major bump)");
}

#[test]
fn fix_line_colors() {
    let none = format_fix_line(&FixAvailable::Bool(false));
    assert_eq!(none.text, " └─ → no fix available");
    assert_eq!(none.fg, Some(Paint::Red));
    assert_eq!(none.emphasis, Emphasis::Bold);
    let some = format_fix_line(&FixAvailable::Bool(true));
    assert_eq!(some.fg, Some(Paint::Green));
}

fn vuln_with_vias() -> Vulnerability {
    Vulnerability {
        name: "minimist".to_string(),
        severity: Severity::High,
        is_direct: DependencyType::Indirect,
        via: vec![
            Via::Advisory(Advisory {
                title: "Prototype Pollution".to_string(),
                url: "https://example.org/a".to_string(),
                range: "<1.2.6".to_string(),
            }),
            Via::Reference("mkdirp".to_string()),
        ],
        range: "<1.2.6".to_string(),
        fix_available: FixAvailable::Bool(false),
    }
}

#[test]
fn details_list_vias_outdated_and_paths() {
    let mut outdated = NameMap::new();
    outdated.insert(
        "minimist".to_string(),
        OutdatedEntry { current: Some("1.2.0".to_string()), latest: "1.2.8".to_string() },
    );
    let mut chains: NameMap<Vec<Vec<String>>> = NameMap::new();
    chains.insert(
        "minimist".to_string(),
        vec![
            vec!["minimist".to_string()],
            vec!["a".to_string(), "minimist".to_string()],
            vec!["b".to_string(), "c".to_string(), "minimist".to_string()],
        ],
    );
    let lines = vulnerability_details(&vuln_with_vias(), &outdated, &chains);
    assert_eq!(
        lines,
        vec![
            " ├─ • Prototype Pollution (<1.2.6)",
            " │  └─   https://example.org/a",
            "  Via: mkdirp",
            "  Outdated: installed: 1.2.0, latest: 1.2.8",
            "  Paths:",
            "    - a → minimist",
            "    - b → c → minimist",
        ]
    );
}

#[test]
fn details_single_path_and_direct_only() {
    let outdated = NameMap::new();
    let mut chains: NameMap<Vec<Vec<String>>> = NameMap::new();
    chains.insert(
        "minimist".to_string(),
        vec![vec!["minimist".to_string()], vec!["a".to_string(), "minimist".to_string()]],
    );
    let mut v = vuln_with_vias();
    v.via = vec![];
    assert_eq!(
        vulnerability_details(&v, &outdated, &chains),
        vec!["  Path: a → minimist"]
    );
    let mut direct_only: NameMap<Vec<Vec<String>>> = NameMap::new();
    direct_only.insert("minimist".to_string(), vec![vec!["minimist".to_string()]]);
    assert!(vulnerability_details(&v, &outdated, &direct_only).is_empty());
}

fn report_of(vulns: Vec<Vulnerability>, total: u32) -> npm_audit::models::AuditReport {
    let mut map = NameMap::new();
    for v in vulns {
        map.insert(v.name.clone(), v);
    }
    npm_audit::models::AuditReport {
        vulnerabilities: map,
        metadata: npm_audit::models::Metadata {
            vulnerabilities: VulnCount { total, ..Default::default() },
        },
    }
}

#[test]
fn closing_line_without_vulnerabilities() {
    let report = report_of(vec![], 5);
    let shown = report.sorted_vulnerabilities(Some(Severity::High));
    assert_eq!(
        npm_audit::display::closing_line(&report, Some(Severity::High), &shown),
        "No vulnerabilities found!"
    );
}

#[test]
fn closing_line_mentions_total_only_with_a_floor() {
    let report = report_of(vec![lodash(), vuln_with_vias()], 9);
    let all = report.sorted_vulnerabilities(None);
    assert_eq!(
        npm_audit::display::closing_line(&report, None, &all),
        "Found 🔴 1 Critical, 🟠 1 High, (Total: 2)!\n"
    );
    let severe = report.sorted_vulnerabilities(Some(Severity::Critical));
    assert_eq!(
        npm_audit::display::closing_line(&report, Some(Severity::Critical), &severe),
        "Found 🔴 1 Critical, (Total: 1 out of 9 total)!\n"
    );
    assert_eq!(npm_audit::display::package_names(&all), vec!["minimist", "lodash"]);
}
