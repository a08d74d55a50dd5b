use oci_bundle::config::{
    create_runtime_config, join_commas, process_args, runtime_config_with, ExecConfig,
    ImageConfig, RuntimeConfig,
};
use oci_bundle::user::UserError;

fn s(v: &str) -> String {
    v.to_string()
}

fn strings(v: &[&str]) -> Vec<String> {
    v.iter().map(|x| x.to_string()).collect()
}

fn exec(user: Option<&str>) -> ExecConfig {
    ExecConfig {
        working_dir: Some(s("/srv")),
        entrypoint: Some(strings(&["/bin/sh", "-c"])),
        cmd: Some(strings(&["echo hi"])),
        env: Some(strings(&["PATH=/usr/bin"])),
        user: user.map(|u| u.as_bytes().to_vec()),
        stop_signal: Some(s("SIGTERM")),
        labels: Some(vec![(s("k"), s("v")), (s("org.opencontainers.image.os"), s("label-os"))]),
    }
}

fn image(config: Option<ExecConfig>) -> ImageConfig {
    ImageConfig {
        os: s("linux"),
        architecture: s("amd64"),
        variant: None,
        os_version: Some(s("1.0")),
        os_features: Some(strings(&["a", "b", "c"])),
        author: None,
        created: Some(s("2024-01-01T00:00:00Z")),
        config,
    }
}

fn annotation<'a>(rc: &'a RuntimeConfig, key: &str) -> Option<&'a str> {
    rc.annotations.iter().find(|(k, _)| k == key).map(|(_, v)| v.as_str())
}

#[test]
fn config_translation_scenario() {
    let rc = create_runtime_config(&image(Some(exec(Some("0"))))).unwrap();
    let p = rc.process.as_ref().unwrap();
    assert_eq!(p.args, Some(strings(&["/bin/sh", "-c", "echo hi"])));
    assert_eq!(p.cwd, Some(s("/srv")));
    assert!(p.env.as_ref().unwrap().contains(&s("PATH=/usr/bin")));
    assert_eq!(p.user.as_ref().unwrap().uid, 0);
    assert_eq!(annotation(&rc, "k"), Some("v"));
}

#[test]
fn labels_override_image_annotations() {
    let rc = runtime_config_with(&image(Some(exec(None))), None);
    assert_eq!(annotation(&rc, "org.opencontainers.image.os"), Some("label-os"));
    assert_eq!(annotation(&rc, "org.opencontainers.image.architecture"), Some("amd64"));
    assert_eq!(annotation(&rc, "org.opencontainers.image.os.version"), Some("1.0"));
    assert_eq!(annotation(&rc, "org.opencontainers.image.os.features"), Some("a,b,c"));
    assert_eq!(annotation(&rc, "org.opencontainers.image.created"), Some("2024-01-01T00:00:00Z"));
    assert_eq!(annotation(&rc, "org.opencontainers.image.stopSignal"), Some("SIGTERM"));
    assert_eq!(annotation(&rc, "org.opencontainers.image.variant"), None);
    assert_eq!(annotation(&rc, "org.opencontainers.image.author"), None);
    let mut keys: Vec<&String> = rc.annotations.iter().map(|(k, _)| k).collect();
    let n = keys.len();
    keys.sort();
    keys.dedup();
    assert_eq!(keys.len(), n);
    assert_eq!(n, 7);
}

#[test]
fn no_exec_block_means_no_process() {
    let rc = create_runtime_config(&image(None)).unwrap();
    assert!(rc.process.is_none());
    assert_eq!(annotation(&rc, "org.opencontainers.image.os"), Some("linux"));
    assert_eq!(annotation(&rc, "org.opencontainers.image.stopSignal"), None);
}

#[test]
fn no_user_means_no_process_user() {
    let rc = create_runtime_config(&image(Some(exec(None)))).unwrap();
    assert!(rc.process.unwrap().user.is_none());
}

#[test]
fn malformed_user_fails_translation() {
    let r = create_runtime_config(&image(Some(exec(Some("a:b:c")))));
    assert!(matches!(r, Err(UserError::InvalidFormat)));
}

#[test]
fn args_matrix() {
    let e = Some(strings(&["/bin/sh", "-c"]));
    let c = Some(strings(&["echo hi"]));
    assert_eq!(process_args(&None, &None), None);
    assert_eq!(process_args(&None, &c), c);
    assert_eq!(process_args(&e, &None), e);
    assert_eq!(process_args(&e, &c), Some(strings(&["/bin/sh", "-c", "echo hi"])));
}

#[test]
fn features_are_comma_joined() {
    assert_eq!(join_commas(&strings(&[])), "");
    assert_eq!(join_commas(&strings(&["x"])), "x");
    assert_eq!(join_commas(&strings(&["x", "y"])), "x,y");
}
