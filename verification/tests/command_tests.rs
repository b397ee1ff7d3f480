use dockfoxbuild::commands::{
    checkpoint_command, cmd_command, commit_command, entrypoint_command, env_command,
    execute_run, expose_command, fetch_command, from_command, image_exists_command,
    inspect_env_command, label_command, push_image_command, remove_container_command,
    remove_image_command, stopsignal_command, tag_command, user_command, volume_command,
    workdir_command, write_exec_form, Kvp,
};
use dockfoxbuild::dockerignore::DockerIgnore;
use dockfoxbuild::errors::BuildError;
use dockfoxbuild::healthcheck::{health_config_command, health_words_command, healthcheck_command};
use dockfoxbuild::state::{Operation, State};

fn words(v: &[&str]) -> Vec<String> {
    v.iter().map(|s| s.to_string()).collect()
}

fn state() -> State {
    let mut s = State::new(
        DockerIgnore::empty(),
        "/ctx".to_string(),
        false,
        false,
        None,
        None,
        None,
    );
    s.container = Some("c1".to_string());
    s
}

fn bare() -> State {
    let mut s = state();
    s.container = None;
    s
}

#[test]
fn key_value_words() {
    let k = Kvp::from_str("A=b=c").unwrap();
    assert_eq!((k.key.as_str(), k.value.as_str()), ("A", "b=c"));
    match Kvp::from_str("A") {
        Err(BuildError::NotKeyValue { word }) => assert_eq!(word, "A"),
        other => panic!("{:?}", other),
    }
}

#[test]
fn from_and_checkpoint() {
    let mut s = bare();
    assert_eq!(from_command("alpine AS x", &s), words(&["from", "alpine"]));
    s.format = Some("oci".to_string());
    s.as_images.insert("base".to_string(), "sha".to_string());
    assert_eq!(from_command("base AS x", &s), words(&["from", "--format", "oci", "sha"]));
    s.last_id = "last".to_string();
    assert_eq!(checkpoint_command(&s), words(&["from", "last"]));
}

#[test]
fn env_sets_the_stage() {
    let mut s = state();
    assert_eq!(
        env_command("A=1 'B=x y'", &mut s).unwrap(),
        words(&["config", "--env", "A=1", "--env", "B=x y", "c1"])
    );
    assert_eq!(s.stage.get("B"), "x y");
    assert!(matches!(env_command("A", &mut s), Err(BuildError::NotKeyValue { .. })));
    assert!(matches!(env_command("'A", &mut s), Err(BuildError::Unbalanced)));
    assert!(matches!(
        env_command("A=1", &mut bare()),
        Err(BuildError::NoContainer { op: Operation::Env })
    ));
}

#[test]
fn run_passes_arguments_and_network() {
    let mut s = state();
    s.network = Some("none".to_string());
    let args = vec![("A".to_string(), "1".to_string()), ("B".to_string(), "".to_string())];
    assert_eq!(
        execute_run("echo $A", &s, &args).unwrap(),
        words(&[
            "run", "--network", "none", "--env", "A=1", "--env", "B=", "c1", "--", "sh", "-c",
            "echo $A",
        ])
    );
    assert!(matches!(
        execute_run("x", &bare(), &vec![]),
        Err(BuildError::NoContainer { op: Operation::Run })
    ));
}

#[test]
fn values_are_configured() {
    let s = state();
    assert_eq!(workdir_command("/a b", &s).unwrap(), words(&["config", "--workingdir", "/a b", "c1"]));
    assert_eq!(user_command(" me ", &s).unwrap(), words(&["config", "--user", "me", "c1"]));
    assert_eq!(
        stopsignal_command("SIGTERM ", &s).unwrap(),
        words(&["config", "--stop-signal", "SIGTERM", "c1"])
    );
    assert_eq!(
        label_command("a=b 'c=d e'", &s).unwrap(),
        words(&["config", "--label", "a=b", "--label", "c=d e", "c1"])
    );
    assert_eq!(
        expose_command("80  443/tcp", &s).unwrap(),
        words(&["config", "--port", "80", "--port", "443/tcp", "c1"])
    );
    assert!(matches!(user_command("u", &bare()), Err(BuildError::NoContainer { op: Operation::User })));
    assert!(matches!(label_command("'", &s), Err(BuildError::Unbalanced)));
}

#[test]
fn exec_and_shell_form() {
    let s = state();
    assert_eq!(write_exec_form(" [\"a\"] "), "[\"a\"]");
    assert_eq!(
        write_exec_form("echo \"x\"\ty\u{1}"),
        "[\"/bin/sh\",\"-c\",\"echo \\\"x\\\"\\ty\\u0001\"]"
    );
    assert_eq!(
        entrypoint_command("[\"a\", \"b\"]", &s).unwrap(),
        words(&["config", "--entrypoint", "[\"a\", \"b\"]", "c1"])
    );
    assert_eq!(
        cmd_command("serve", &s).unwrap(),
        words(&["config", "--cmd", "[\"/bin/sh\",\"-c\",\"serve\"]", "c1"])
    );
}

#[test]
fn volumes_are_words_or_json() {
    let s = state();
    assert_eq!(
        volume_command("/a '/b c'", &s).unwrap(),
        words(&["config", "--volume", "/a", "--volume", "/b c", "c1"])
    );
    assert_eq!(
        volume_command(" [\"/a\", \"/b\"]", &s).unwrap(),
        words(&["config", "--volume", "/a", "--volume", "/b", "c1"])
    );
    assert!(matches!(volume_command("[1]", &s), Err(BuildError::BadVolumes)));
    assert!(matches!(volume_command("'x", &s), Err(BuildError::Unbalanced)));
    assert!(matches!(
        volume_command("[1]", &bare()),
        Err(BuildError::NoContainer { op: Operation::Volume })
    ));
}

#[test]
fn health_checks() {
    let s = state();
    assert_eq!(
        healthcheck_command(" NONE ", &s).unwrap(),
        words(&["config", "--healthcheck", "NONE", "c1"])
    );
    assert_eq!(
        healthcheck_command("--interval=5s --retries 3 CMD curl -f 'http://x y'", &s).unwrap(),
        words(&[
            "config",
            "--healthcheck-interval",
            "5s",
            "--healthcheck-retries",
            "3",
            "--healthcheck",
            "CMD-SHELL curl -f http://x y",
            "c1",
        ])
    );
    assert_eq!(
        healthcheck_command("--timeout=1s --start-period=2s --retries=+07 CMD '[\"a\"]'", &s).unwrap(),
        words(&[
            "config",
            "--healthcheck-timeout",
            "1s",
            "--healthcheck-start-period",
            "2s",
            "--healthcheck-retries",
            "7",
            "--healthcheck",
            "CMD [\"a\"]",
            "c1",
        ])
    );
    assert!(matches!(
        healthcheck_command("curl x", &s),
        Err(BuildError::NoHealthCommand { line }) if line == "curl x"
    ));
    assert!(matches!(healthcheck_command("--bad CMD x", &s), Err(BuildError::BadOptions)));
    assert!(matches!(healthcheck_command("--retries=x CMD x", &s), Err(BuildError::BadOptions)));
    assert!(matches!(healthcheck_command("--retries=-1 CMD x", &s), Err(BuildError::BadOptions)));
    assert!(matches!(
        healthcheck_command("--retries=4294967296 CMD x", &s),
        Err(BuildError::BadOptions)
    ));
    assert!(matches!(healthcheck_command("CMD 'x", &s), Err(BuildError::Unbalanced)));
    assert!(matches!(
        healthcheck_command("NONE", &bare()),
        Err(BuildError::NoContainer { op: Operation::HealthCheck })
    ));
    assert_eq!(
        health_words_command("CMD true", &words(&["CMD", "true"]), "c").unwrap(),
        words(&["config", "--healthcheck", "CMD-SHELL true", "c"])
    );
    assert_eq!(
        health_config_command(&vec![None, None, None, Some("-0".to_string())], &words(&["x"]), "c")
            .unwrap(),
        words(&["config", "--healthcheck-retries", "0", "--healthcheck", "CMD-SHELL x", "c"])
    );
}

#[test]
fn image_and_container_commands() {
    assert_eq!(fetch_command("i"), words(&["pull", "i"]));
    assert_eq!(
        inspect_env_command("i"),
        words(&["inspect", "--format", "{{range .OCIv1.Config.Env}}{{.}}\n{{end}}", "i"])
    );
    assert_eq!(image_exists_command("i"), words(&["images", "--format", "{{.ID}}", "i"]));
    assert_eq!(commit_command("c", "n"), words(&["commit", "c", "n"]));
    assert_eq!(remove_container_command("c"), words(&["rm", "c"]));
    assert_eq!(remove_image_command("t"), words(&["rmi", "t"]));
    assert_eq!(tag_command("i", "t"), words(&["tag", "i", "t"]));
    assert_eq!(push_image_command("i", "n"), words(&["push", "i", "n"]));
}
