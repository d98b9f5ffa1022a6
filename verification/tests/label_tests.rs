use prezel::label::{Label, LabelError};

fn b(s: &str) -> Vec<u8> {
    s.as_bytes().to_vec()
}

#[test]
fn test_format_and_parsing() {
    let box_domain = b"red-squirrel.prezel.app";
    let labels = vec![
        Label::Prod { project: b("test-project") },
        Label::Deployment { project: b("test-project"), deployment: b("3fg6fdhj") },
        Label::DeploymentInsert { project: b("test-project"), deployment: b("3fg6fdhj") },
        Label::ProdDb { project: b("test-uuid") },
        Label::BranchDb { project: b("test-uuid"), deployment: b("3fg6fdhj") },
    ];
    for label in labels {
        let formatted = label.format_hostname(box_domain);
        assert_eq!(Label::strip_from_domain(&formatted, box_domain).unwrap(), label);
    }
}

#[test]
fn parse_label_covers_the_grammar() {
    assert_eq!(
        prezel::label::parse_label(b"demo"),
        Some(Label::Prod { project: b("demo") })
    );
    assert_eq!(
        prezel::label::parse_label(b"demo--libsql"),
        Some(Label::ProdDb { project: b("demo") })
    );
    assert_eq!(
        prezel::label::parse_label(b"demo--abc123"),
        Some(Label::Deployment { project: b("demo"), deployment: b("abc123") })
    );
    assert_eq!(
        prezel::label::parse_label(b"demo--abc123-insert"),
        Some(Label::DeploymentInsert { project: b("demo"), deployment: b("abc123") })
    );
    assert_eq!(
        prezel::label::parse_label(b"demo--abc123-libsql"),
        Some(Label::BranchDb { project: b("demo"), deployment: b("abc123") })
    );
}

#[test]
fn parse_label_rejects_what_fits_no_rule() {
    assert_eq!(prezel::label::parse_label(b"a--b--c"), None);
    assert_eq!(prezel::label::parse_label(b"demo--abc-def-ghi"), None);
    assert_eq!(prezel::label::parse_label(b"demo--abc-unknown"), None);
}

#[test]
fn strip_from_domain_names_each_failure() {
    assert_eq!(
        Label::strip_from_domain(b"demo.other.zone", b"box.example"),
        Err(LabelError::NotUnderDomain)
    );
    assert_eq!(
        Label::strip_from_domain(b"box.example", b"box.example"),
        Err(LabelError::NotUnderDomain)
    );
    // The character before the box domain must be a dot.
    assert_eq!(
        Label::strip_from_domain(b"demobox.example", b"box.example"),
        Err(LabelError::NotUnderDomain)
    );
    assert_eq!(
        Label::strip_from_domain(b"a.b.box.example", b"box.example"),
        Err(LabelError::ExtraDots)
    );
    assert_eq!(
        Label::strip_from_domain(b"a--b--c.box.example", b"box.example"),
        Err(LabelError::InvalidLabel)
    );
}

#[test]
fn insert_enabled_only_on_insert_labels() {
    assert!(Label::DeploymentInsert { project: b("p"), deployment: b("d") }.insert_enabled());
    assert!(!Label::Deployment { project: b("p"), deployment: b("d") }.insert_enabled());
    assert!(!Label::Prod { project: b("p") }.insert_enabled());
    assert!(!Label::ProdDb { project: b("p") }.insert_enabled());
    assert!(!Label::BranchDb { project: b("p"), deployment: b("d") }.insert_enabled());
}

#[test]
fn app_name_validity_matches_the_grammar() {
    assert!(prezel::ids::is_app_name_valid(b"demo"));
    assert!(prezel::ids::is_app_name_valid(b"my-app"));
    assert!(!prezel::ids::is_app_name_valid(b"api"));
    assert!(!prezel::ids::is_app_name_valid(b"my--app"));
}
