use clap::{Arg, Command};
use yalla::cli::{build_clap_from_root, subcommand_path};
use yalla::model::CmdNode;

fn leaf_args() -> Arg {
    Arg::new("args").trailing_var_arg(true).num_args(0..)
}

fn demo_cli() -> Command {
    // yalla
    // |- stop (leaf)
    // |- tools
    // |   |- fmt (leaf)
    // |   |- lint (leaf)
    // |- script
    //     |- deploy (leaf)
    let tools = Command::new("tools")
        .subcommand(Command::new("fmt").arg(leaf_args()))
        .subcommand(Command::new("lint").arg(leaf_args()))
        .subcommand_required(true)
        .arg_required_else_help(true);

    let script = Command::new("script")
        // parent itself runnable (has trailing args)
        .arg(leaf_args())
        .subcommand(Command::new("deploy").arg(leaf_args()));

    Command::new("yalla")
        .subcommand(Command::new("stop").arg(leaf_args()))
        .subcommand(tools)
        .subcommand(script)
}

fn node(name: &str, description: Option<&str>, cmd: Option<&str>, children: Vec<CmdNode>) -> CmdNode {
    CmdNode {
        name: name.to_string(),
        description: description.map(|s| s.to_string()),
        cmd: cmd.map(|s| s.to_string()),
        children,
    }
}

// Shared fixture: full tree with all permutations
fn fixture_root() -> CmdNode {
    node(
        "yalla",
        Some("This is a demo top level title"),
        None,
        vec![
            // A) Top-level leaf
            node("stop", Some("Stop local services"), Some("docker compose down"), vec![]),
            // B) Explicit parent + children
            node(
                "tools",
                Some("Developer tooling"),
                None,
                vec![
                    node("fmt", None, Some("cargo fmt"), vec![]),
                    node(
                        "lint",
                        None,
                        Some("cargo clippy --all-targets --all-features -- -D warnings"),
                        vec![],
                    ),
                    node("ls", None, Some("ls -1"), vec![]),
                ],
            ),
            // C) Parent with cmd AND children
            node(
                "script",
                Some("Project scripts (also runnable)"),
                Some("bash ./scripts/run.sh"),
                vec![
                    node("deploy", None, Some("bash ./scripts/deploy.sh --env=prod"), vec![]),
                    node("test", None, Some("cargo test --all --all-features"), vec![]),
                ],
            ),
            // D) Implicit parent (single child)
            node("db", None, None, vec![node("migrate", None, Some("diesel migration run"), vec![])]),
            // E) Implicit parent (multiple children)
            node(
                "ci",
                None,
                None,
                vec![
                    node("build", None, Some("cargo build --release"), vec![]),
                    node("test", None, Some("cargo test --workspace"), vec![]),
                ],
            ),
            // F) Deep implicit parents
            node(
                "kube",
                None,
                None,
                vec![node(
                    "dev",
                    None,
                    None,
                    vec![node("apply", None, Some("kubectl apply -k k8s/overlays/dev"), vec![])],
                )],
            ),
            // G) Another realistic leaf under a different namespace
            node(
                "git",
                None,
                None,
                vec![node("status", None, Some("git rev-parse --is-inside-work-tree"), vec![])],
            ),
        ],
    )
}

#[test]
fn path_empty_when_no_subcommand() {
    let cmd = demo_cli();
    let m = cmd.clone().get_matches_from(["yalla"]);
    let path = subcommand_path(&m);
    assert!(path.is_empty());
}

#[test]
fn single_level_subcommand() {
    let cmd = demo_cli();
    let m = cmd.clone().get_matches_from(["yalla", "stop"]);
    let path = subcommand_path(&m);
    assert_eq!(path, vec!["stop".to_string()]);
}

#[test]
fn two_levels_subcommand() {
    let cmd = demo_cli();
    let m = cmd.clone().get_matches_from(["yalla", "tools", "fmt"]);
    let path = subcommand_path(&m);
    assert_eq!(path, vec!["tools".to_string(), "fmt".to_string()]);
}

#[test]
fn parent_only_without_child_is_captured() {
    let cmd = demo_cli();
    let m = cmd.clone().get_matches_from(["yalla", "script"]);
    let path = subcommand_path(&m);
    assert_eq!(path, vec!["script".to_string()]);
}

#[test]
fn deep_path_with_trailing_args() {
    let cmd = demo_cli();
    let m = cmd
        .clone()
        .get_matches_from(["yalla", "script", "deploy", "--", "--flag", "value"]);
    let path = subcommand_path(&m);
    assert_eq!(path, vec!["script".to_string(), "deploy".to_string()]);
}

#[test]
fn clap_util_invalid_subcommand_errors() {
    let cmd = demo_cli();
    let res = cmd.clone().try_get_matches_from(["yalla", "unknown"]);
    assert!(res.is_err());
}

#[test]
fn runnable_leaf_accepts_trailing_args() {
    let cmd = build_clap_from_root(&fixture_root());
    let m = cmd.clone().get_matches_from(["yalla", "stop", "--", "-v"]);
    assert_eq!(subcommand_path(&m), vec!["stop".to_string()]);
}

#[test]
fn pure_namespace_requires_subcommand() {
    let cmd = build_clap_from_root(&fixture_root());
    let res = cmd.clone().try_get_matches_from(["yalla", "tools"]);
    assert!(res.is_err(), "tools without child should error");
}

#[test]
fn runnable_parent_and_child_paths() {
    let cmd = build_clap_from_root(&fixture_root());

    // Parent runnable without child
    let m1 = cmd.clone().get_matches_from(["yalla", "script"]);
    assert_eq!(subcommand_path(&m1), vec!["script".to_string()]);

    // Child runnable
    let m2 = cmd.clone().get_matches_from(["yalla", "script", "deploy"]);
    assert_eq!(
        subcommand_path(&m2),
        vec!["script".to_string(), "deploy".to_string()]
    );
}

#[test]
fn deep_nesting_path() {
    let cmd = build_clap_from_root(&fixture_root());
    let m = cmd
        .clone()
        .get_matches_from(["yalla", "kube", "dev", "apply"]);
    assert_eq!(
        subcommand_path(&m),
        vec!["kube".to_string(), "dev".to_string(), "apply".to_string()]
    );
}

#[test]
fn model_invalid_subcommand_errors() {
    let cmd = build_clap_from_root(&fixture_root());
    let res = cmd.clone().try_get_matches_from(["yalla", "unknown"]);
    assert!(res.is_err());
}
