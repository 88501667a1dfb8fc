use yalla::config::{ConfigTable, ConfigValue};
use yalla::config::table_to_root;
use yalla::model::CmdNode;

fn to_config(t: &toml::Table) -> ConfigTable {
    let mut entries: Vec<(String, ConfigValue)> = Vec::new();
    for (k, v) in t.iter() {
        let cv = if let Some(s) = v.as_str() {
            ConfigValue::Text(s.to_string())
        } else if let Some(sub) = v.as_table() {
            ConfigValue::Table(to_config(sub))
        } else {
            ConfigValue::Other
        };
        entries.push((k.clone(), cv));
    }
    ConfigTable { entries }
}

fn node(name: &str, description: Option<&str>, cmd: Option<&str>, children: Vec<CmdNode>) -> CmdNode {
    CmdNode {
        name: name.to_string(),
        description: description.map(|s| s.to_string()),
        cmd: cmd.map(|s| s.to_string()),
        children,
    }
}

fn basic_config_text() -> &'static str {
    "title = \"This is a demo top level title\"

[stop]
description = \"Stop local services\"
cmd = \"docker compose down\"

[tools]
description = \"Developer tooling\"
[tools.fmt]
cmd = \"cargo fmt\"
[tools.lint]
cmd = \"cargo clippy --all-targets --all-features -- -D warnings\"
[tools.ls]
cmd = \"ls -1\"

[script]
description = \"Project scripts (also runnable)\"
cmd = \"bash ./scripts/run.sh\"
[script.deploy]
cmd = \"bash ./scripts/deploy.sh --env=prod\"
[script.test]
cmd = \"cargo test --all --all-features\"

[db.migrate]
cmd = \"diesel migration run\"

[ci.build]
cmd = \"cargo build --release\"
[ci.test]
cmd = \"cargo test --workspace\"

[kube.dev.apply]
cmd = \"kubectl apply -k k8s/overlays/dev\"

[git.status]
cmd = \"git rev-parse --is-inside-work-tree\"
"
}

#[test]
fn table_to_root_builds_expected_tree() {
    let table: toml::Table = toml::from_str(basic_config_text()).expect("read fixture");

    let got = table_to_root("yalla", &to_config(&table));

    let expect = node(
        "yalla",
        Some("This is a demo top level title"),
        None,
        vec![
            node(
                "ci",
                None,
                None,
                vec![
                    node("build", None, Some("cargo build --release"), vec![]),
                    node("test", None, Some("cargo test --workspace"), vec![]),
                ],
            ),
            node(
                "db",
                None,
                None,
                vec![node("migrate", None, Some("diesel migration run"), vec![])],
            ),
            node(
                "git",
                None,
                None,
                vec![node("status", None, Some("git rev-parse --is-inside-work-tree"), vec![])],
            ),
            node(
                "kube",
                None,
                None,
                vec![node(
                    "dev",
                    None,
                    None,
                    vec![node("apply", None, Some("kubectl apply -k k8s/overlays/dev"), vec![])],
                )],
            ),
            node(
                "script",
                Some("Project scripts (also runnable)"),
                Some("bash ./scripts/run.sh"),
                vec![
                    node("deploy", None, Some("bash ./scripts/deploy.sh --env=prod"), vec![]),
                    node("test", None, Some("cargo test --all --all-features"), vec![]),
                ],
            ),
            node("stop", Some("Stop local services"), Some("docker compose down"), vec![]),
            node(
                "tools",
                Some("Developer tooling"),
                None,
                vec![
                    node("fmt", None, Some("cargo fmt"), vec![]),
                    node(
                        "lint",
                        None,
                        Some("cargo clippy --all-targets --all-features -- -D warnings"),
                        vec![],
                    ),
                    node("ls", None, Some("ls -1"), vec![]),
                ],
            ),
        ],
    );

    assert_eq!(got, expect);
}

#[test]
fn root_description_prefers_explicit_over_title() {
    let text = "title = \"the title\"
description = \"the description\"
[stop]
cmd = \"docker compose down\"
";
    let table: toml::Table = toml::from_str(text).expect("parse");
    let got = table_to_root("yalla", &to_config(&table));
    assert_eq!(got.description, Some("the description".to_string()));
}

#[test]
fn unrecognized_values_are_ignored() {
    let text = "count = 3
flag = true
[stop]
cmd = \"docker compose down\"
pin = 7
";
    let table: toml::Table = toml::from_str(text).expect("parse");
    let got = table_to_root("yalla", &to_config(&table));
    assert_eq!(got.description, None);
    assert_eq!(got.children.len(), 1);
    assert_eq!(got.children[0].name, "stop");
    assert_eq!(got.children[0].cmd, Some("docker compose down".to_string()));
    assert_eq!(got.children[0].children.len(), 0);
}

#[test]
fn command_key_is_recognized_as_alias() {
    let text = "[stop]
command = \"docker compose down\"
";
    let table: toml::Table = toml::from_str(text).expect("parse");
    let got = table_to_root("yalla", &to_config(&table));
    assert_eq!(got.children.len(), 1);
    assert_eq!(got.children[0].cmd, Some("docker compose down".to_string()));
}

#[test]
fn cmd_takes_precedence_over_command() {
    let text = "[stop]
cmd = \"one\"
command = \"two\"
";
    let table: toml::Table = toml::from_str(text).expect("parse");
    let got = table_to_root("yalla", &to_config(&table));
    assert_eq!(got.children[0].cmd, Some("one".to_string()));
}

#[test]
fn reserved_keys_never_become_children() {
    let text = "[description]
cmd = \"echo nope\"
[stop]
cmd = \"docker compose down\"
[stop.command]
note = \"not a child either\"
";
    let table: toml::Table = toml::from_str(text).expect("parse");
    let got = table_to_root("yalla", &to_config(&table));
    assert_eq!(got.description, None, "a table-valued description is not metadata");
    assert_eq!(got.children.len(), 1, "the description table must not become a child");
    assert_eq!(got.children[0].name, "stop");
    assert_eq!(got.children[0].cmd, Some("docker compose down".to_string()));
    assert!(got.children[0].children.is_empty(), "the command table must not become a child");
}

#[test]
fn empty_table_is_a_bare_root() {
    let table: toml::Table = toml::from_str("").expect("parse");
    let got = table_to_root("yalla", &to_config(&table));
    assert_eq!(
        got,
        node("yalla", None, None, vec![])
    );
}
