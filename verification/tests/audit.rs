use npm_audit::audit::{
    check_report_output, outdated_without_output, tree_without_output, AuditError, NpmCommand,
};

#[test]
fn test_parse_report_stdout_empty() {
    let stdout = b"";
    let stderr = b"npm error";

    let result = check_report_output(stdout, stderr);
    assert!(result.is_err());
    assert!(result.unwrap_err().message().contains("npm error"));
}

#[test]
fn report_output_present_is_accepted() {
    assert!(check_report_output(b"{}", b"").is_ok());
}

#[test]
fn test_parse_outdated_empty_stdout_returns_empty_map() {
    let result = outdated_without_output(b"");

    assert!(result.unwrap().is_empty());
    assert!(outdated_without_output(b"{}").is_none());
}

#[test]
fn test_parse_tree_empty_stdout_returns_default_tree() {
    let result = tree_without_output(b"");

    assert!(result.unwrap().dependencies.is_empty());
    assert!(tree_without_output(b"{}").is_none());
}

#[test]
fn error_messages() {
    assert_eq!(
        AuditError::not_run(NpmCommand::Audit).message(),
        "Failed to execute 'npm audit'. Is npm installed and available in your PATH?"
    );
    assert_eq!(
        AuditError::unreadable(NpmCommand::Tree, b"not json").message(),
        "Failed to parse the dependencies tree not json"
    );
    assert_eq!(
        AuditError::unreadable(NpmCommand::Outdated, b"x\xffy").message(),
        "Failed to parse npm outdated JSON output x\u{fffd}y"
    );
    assert_eq!(
        check_report_output(b"", b"gone").unwrap_err().message(),
        "npm audit produced no output: gone"
    );
}

#[test]
fn npm_arguments() {
    assert_eq!(NpmCommand::Audit.args(), vec!["audit", "--json"]);
    assert_eq!(NpmCommand::Outdated.args(), vec!["outdated", "--json"]);
    assert_eq!(NpmCommand::Tree.args(), vec!["ls", "--all", "--json"]);
    assert_eq!(NpmCommand::Tree.subcommand(), "ls");
}
