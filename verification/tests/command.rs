use dsh_desktop::command::{
    bundled_service_command, dev_command_at, dev_service_command, join_path, launch_service,
    LaunchMode, ServiceCommand, DESKTOP_PORT, NO_REPO_ROOT,
};
use dsh_desktop::service::ServiceError;
use std::path::Path;

fn texts(items: &[&str]) -> Vec<String> {
    items.iter().map(|item| item.to_string()).collect()
}

fn dev_at(repo: &str) -> ServiceCommand {
    ServiceCommand {
        program: "node".to_string(),
        args: texts(&[
            "--import",
            "tsx/esm",
            "apps/cli/src/bin.ts",
            "web",
            "--port",
            "31080",
            "--no-open",
        ]),
        current_dir: repo.to_string(),
    }
}

#[test]
fn dev_command_runs_three_levels_up() {
    assert_eq!(
        dev_service_command("/home/me/dsh/apps/desktop/src-tauri"),
        Ok(dev_at("/home/me/dsh"))
    );
    assert_eq!(dev_service_command("repo/apps/desktop/src-tauri"), Ok(dev_at("repo")));
    assert_eq!(dev_service_command("./apps/desktop/src-tauri"), Ok(dev_at(".")));
    assert_eq!(dev_service_command("apps/desktop/src-tauri"), Ok(dev_at("")));
    assert_eq!(dev_service_command("/r/x/.y/z.."), Ok(dev_at("/r")));
    assert_eq!(dev_service_command("/x/y/z"), Ok(dev_at("/")));
    assert_eq!(dev_service_command("/apps/desktop/src-tauri"), Ok(dev_at("/")));
}

#[test]
fn dev_command_agrees_with_std_on_parents() {
    let dirs = ["/a/b/c/d", "/a/b/", "/a//b/./c/d/.", "a/b", "..", "", "/", "/a", "a/../b/c/"];
    for dir in dirs {
        let root = Path::new(dir)
            .parent()
            .and_then(Path::parent)
            .and_then(Path::parent)
            .map(|path| path.to_str().unwrap().to_string());
        match root {
            Some(root) => assert_eq!(dev_service_command(dir), Ok(dev_at(&root))),
            None => assert!(dev_service_command(dir).is_err()),
        }
    }
}

#[test]
fn dev_command_needs_a_repo_root() {
    let error = Err(ServiceError::Spawn(
        "CARGO_MANIFEST_DIR has no repo root above it".to_string(),
    ));
    assert_eq!(dev_service_command(""), error);
    assert_eq!(dev_service_command("/"), error);
    assert_eq!(dev_service_command("/a/b"), error);
    assert_eq!(dev_service_command("a/b"), error);
    assert_eq!(dev_service_command("/a"), error);
    assert_eq!(dev_service_command("a"), error);
    assert_eq!(dev_command_at(None), error);
    assert_eq!(NO_REPO_ROOT, "CARGO_MANIFEST_DIR has no repo root above it");
}

#[test]
fn dev_command_at_a_repo() {
    assert_eq!(dev_command_at(Some("/r".to_string())), Ok(dev_at("/r")));
}

#[test]
fn bundled_command_uses_the_resources() {
    let expected = ServiceCommand {
        program: "/App/Resources/runtime/bin/node".to_string(),
        args: texts(&["/App/Resources/dsh/lib/bin.js", "web", "--port", "31080", "--no-open"]),
        current_dir: "/App/Resources/dsh".to_string(),
    };
    assert_eq!(bundled_service_command("/App/Resources"), Ok(expected));
    let slashed = bundled_service_command("/App/Resources/").unwrap();
    assert_eq!(slashed.program, "/App/Resources/runtime/bin/node");
}

#[test]
fn launches_follow_the_mode() {
    let dev = LaunchMode::Dev { manifest_dir: "/r/apps/desktop/src-tauri".to_string() };
    assert_eq!(launch_service(&dev), Ok(dev_at("/r")));
    let bundled = LaunchMode::Bundled { resource_dir: "/res".to_string() };
    assert_eq!(launch_service(&bundled), bundled_service_command("/res"));
    let lost = LaunchMode::Dev { manifest_dir: "/r".to_string() };
    assert!(launch_service(&lost).is_err());
}

#[test]
fn every_launch_has_the_desktop_port() {
    for command in [dev_service_command("/r/a/b/c"), bundled_service_command("/res")] {
        let args = command.unwrap().args;
        let at = args.iter().position(|arg| arg == "--port").unwrap();
        assert_eq!(args[at + 1], DESKTOP_PORT);
        assert_eq!(args.iter().filter(|arg| *arg == "--port").count(), 1);
        assert_eq!(args.iter().filter(|arg| *arg == "--no-open").count(), 1);
    }
}

#[test]
fn joins_agree_with_std() {
    let bases = ["", "/", "/a", "/a/", "a", "a//", ".", "é"];
    let parts = ["", "b", "/b", "b/c", ".dsh", "/", "越"];
    for base in bases {
        for part in parts {
            let expected = Path::new(base).join(part);
            assert_eq!(join_path(base, part), expected.to_str().unwrap());
        }
    }
}
