use mission_control::collector::project::{
    artifact_dirs, detect_artifacts, detect_kind, detect_name, detect_stack, probe_files, readme_files,
    relative_age, scan, try_detect_purpose, try_scan, ProjectFiles,
};
use mission_control::json::JsonValue;
use mission_control::schema::project::ProjectKind;
use mission_control::time::Timestamp;

fn strings(v: &[&str]) -> Vec<String> {
    v.iter().map(|s| s.to_string()).collect()
}

fn empty() -> ProjectFiles {
    ProjectFiles {
        existing: Vec::new(),
        cargo_toml: None,
        package_json: None,
        pyproject_toml: None,
        readmes: vec![None, None, None, None],
        artifact_ages: vec![None; 8],
        cwd_mtime: None,
    }
}

#[test]
fn probe_lists() {
    assert_eq!(probe_files().len(), 13);
    assert_eq!(readme_files(), strings(&["README.md", "readme.md", "README", "README.txt"]));
    assert_eq!(artifact_dirs()[0], "graphify-out");
    assert_eq!(artifact_dirs()[7], ".git");
}

#[test]
fn kind_from_markers() {
    assert_eq!(detect_kind(&strings(&[])), ProjectKind::Unknown);
    assert_eq!(detect_kind(&strings(&["Cargo.toml"])), ProjectKind::Rust);
    assert_eq!(detect_kind(&strings(&["yarn.lock"])), ProjectKind::Node);
    assert_eq!(detect_kind(&strings(&["Pipfile", "setup.py"])), ProjectKind::Python);
    assert_eq!(detect_kind(&strings(&["Cargo.toml", "package.json"])), ProjectKind::Mixed);
    assert_eq!(detect_kind(&strings(&["Dockerfile"])), ProjectKind::Unknown);
}

#[test]
fn rust_name_from_the_first_twenty_lines() {
    let mut f = empty();
    f.cargo_toml = Some("[package]\nname = \"herdr\"\nversion = \"0.1.0\"\n".to_string());
    assert_eq!(detect_name(ProjectKind::Rust, &f), Some("herdr".to_string()));
    f.cargo_toml = Some("[package]\nname =  'mc'  \r\n".to_string());
    assert_eq!(detect_name(ProjectKind::Rust, &f), Some("mc".to_string()));
    f.cargo_toml = Some("name = \"\"\nname = \"second\"\n".to_string());
    assert_eq!(detect_name(ProjectKind::Rust, &f), Some("second".to_string()));
    let mut late = String::new();
    for _ in 0..20 {
        late.push_str("x = 1\n");
    }
    late.push_str("name = \"late\"\n");
    f.cargo_toml = Some(late);
    assert_eq!(detect_name(ProjectKind::Rust, &f), None);
}

#[test]
fn node_and_python_names() {
    let mut f = empty();
    f.package_json = Some(JsonValue::Object(vec![
        ("name".to_string(), JsonValue::Str("web-app".to_string())),
        ("description".to_string(), JsonValue::Str("A web app".to_string())),
    ]));
    f.pyproject_toml = Some("[project]\nname = \"tool\"\n".to_string());
    assert_eq!(detect_name(ProjectKind::Node, &f), Some("web-app".to_string()));
    assert_eq!(detect_name(ProjectKind::Python, &f), Some("tool".to_string()));
    assert_eq!(detect_name(ProjectKind::Mixed, &f), None);
    assert_eq!(try_detect_purpose(ProjectKind::Node, &f), Some(Some("A web app".to_string())));
}

#[test]
fn purpose_from_the_first_prose_line_of_a_readme() {
    let mut f = empty();
    f.readmes = vec![
        None,
        Some("# Title\n\n[![badge]](x)\n   \n".to_string()),
        Some("# herdr\n\n  terminal workspace manager  \nmore\n".to_string()),
        None,
    ];
    assert_eq!(try_detect_purpose(ProjectKind::Unknown, &f), Some(Some("terminal workspace manager".to_string())));
}

#[test]
fn long_purpose_is_cut_to_117_bytes() {
    let mut f = empty();
    f.readmes = vec![Some("a".repeat(130)), None, None, None];
    let p = try_detect_purpose(ProjectKind::Unknown, &f).unwrap().unwrap();
    assert_eq!(p, format!("{}...", "a".repeat(117)));
    f.readmes = vec![Some("b".repeat(120)), None, None, None];
    assert_eq!(try_detect_purpose(ProjectKind::Unknown, &f), Some(Some("b".repeat(120))));
    f.readmes = vec![Some(format!("{}é{}", "c".repeat(116), "d".repeat(10))), None, None, None];
    assert_eq!(try_detect_purpose(ProjectKind::Unknown, &f), None);
}

#[test]
fn purpose_falls_back_to_the_cargo_description() {
    let mut f = empty();
    f.cargo_toml = Some("[package]\ndescription = \"Mission control\"\n".to_string());
    assert_eq!(try_detect_purpose(ProjectKind::Rust, &f), Some(Some("Mission control".to_string())));
    f.cargo_toml = Some("[package]\ndescription =\"\"\n".to_string());
    assert_eq!(try_detect_purpose(ProjectKind::Rust, &f), Some(Some(String::new())));
    assert_eq!(try_detect_purpose(ProjectKind::Python, &f), Some(None));
}

#[test]
fn stack_labels_with_rust_edition() {
    let mut f = empty();
    f.existing = strings(&["main.tf", "Cargo.toml", "Dockerfile", "pyproject.toml"]);
    f.cargo_toml = Some("[package]\nedition = \"2018\"\nedition = \"2021\"\n".to_string());
    assert_eq!(detect_stack(&f), strings(&["Rust (2021)", "Python", "Docker", "Terraform"]));
    f.cargo_toml = None;
    assert_eq!(detect_stack(&f), strings(&["Rust", "Python", "Docker", "Terraform"]));
}

#[test]
fn ages_in_words() {
    assert_eq!(relative_age(0), "just now");
    assert_eq!(relative_age(59), "just now");
    assert_eq!(relative_age(60), "1m ago");
    assert_eq!(relative_age(3599), "59m ago");
    assert_eq!(relative_age(7200), "2h ago");
    assert_eq!(relative_age(86399), "23h ago");
    assert_eq!(relative_age(86400 * 3), "3d ago");
}

#[test]
fn artifact_hints_in_order() {
    let mut ages = vec![None; 8];
    ages[0] = Some(7300);
    ages[7] = Some(5);
    let hints = detect_artifacts(&ages);
    assert_eq!(hints.len(), 2);
    assert_eq!(hints[0].path, "graphify-out/");
    assert_eq!(hints[0].updated_relative, "2h ago");
    assert_eq!(hints[1].path, ".git/");
    assert_eq!(hints[1].updated_relative, "just now");
}

#[test]
fn scan_builds_the_profile() {
    let now = Timestamp { secs: 1_700_000_000, nanos: 0 };
    let mut f = empty();
    f.existing = strings(&["Cargo.toml"]);
    f.cargo_toml = Some("[package]\nname = \"herdr\"\nedition = \"2021\"\n".to_string());
    f.readmes = vec![Some("# herdr\nterminal workspace manager\n".to_string()), None, None, None];
    f.artifact_ages[3] = Some(120);
    let p = scan("/home/u/herdr", &f, now);
    assert_eq!(p.cwd, "/home/u/herdr");
    assert_eq!(p.kind, ProjectKind::Rust);
    assert_eq!(p.name, Some("herdr".to_string()));
    assert_eq!(p.purpose, Some("terminal workspace manager".to_string()));
    assert_eq!(p.stack_summary, strings(&["Rust (2021)"]));
    assert_eq!(p.recent_artifacts.len(), 1);
    assert_eq!(p.recent_artifacts[0].path, "target/");
    assert_eq!(p.scanned_at, now);
    assert_eq!(p.cwd_mtime, now);
    f.cwd_mtime = Some(Timestamp { secs: 5, nanos: 1 });
    assert_eq!(try_scan("/x", &f, now).unwrap().cwd_mtime, Timestamp { secs: 5, nanos: 1 });
}
