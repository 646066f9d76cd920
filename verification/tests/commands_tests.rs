//! Tests of the container command builders and the step list.

use lazyoav::config::{Config, Mode};
use lazyoav::pipeline::commands::{
    build_generator_list, compile_command, generator_command, redocly_command, spectral_command,
};

fn test_config() -> Config {
    Config {
        spectral_image: "stoplight/spectral:6".into(),
        spectral_ruleset: "https://example.com/.spectral.yml".into(),
        spectral_fail_severity: "error".into(),
        redocly_image: "redocly/cli:1.25.5".into(),
        generator_image: "openapitools/openapi-generator-cli:v7.17.0".into(),
        docker_timeout: 120,
        mode: Mode::Both,
        server_generators: vec!["spring".into()],
        client_generators: vec!["typescript-axios".into()],
        ..Config::default()
    }
}

fn no_user_args() -> Vec<String> {
    Vec::new()
}

#[test]
fn spectral_command_builds_correct_args() {
    let cfg = test_config();
    let cmd = spectral_command(&cfg, "/tmp/spec.yaml", "/tmp", &no_user_args());
    assert!(cmd.args.contains(&"run".to_string()));
    assert!(cmd.args.contains(&"--rm".to_string()));
    assert!(cmd.args.contains(&cfg.spectral_image));
    assert!(cmd.args.contains(&"lint".to_string()));
    assert!(cmd.args.contains(&"/work/spec.yaml".to_string()));
    assert!(cmd.args.contains(&"--ruleset".to_string()));
    assert!(cmd.args.contains(&cfg.spectral_ruleset));
    assert!(cmd.args.contains(&"stylish".to_string()));
}

#[test]
fn redocly_command_builds_correct_args() {
    let cfg = test_config();
    let cmd = redocly_command(&cfg, "/tmp/spec.yaml", "/tmp", &no_user_args());
    assert!(cmd.args.contains(&cfg.redocly_image));
    assert!(cmd.args.contains(&"lint".to_string()));
    assert!(cmd.args.contains(&"/work/spec.yaml".to_string()));
}

#[test]
fn generator_command_builds_correct_args() {
    let cfg = test_config();
    let cmd = generator_command(&cfg, "/tmp/spec.yaml", "/tmp", "spring", "server", &no_user_args());
    assert!(cmd.args.contains(&cfg.generator_image));
    assert!(cmd.args.contains(&"generate".to_string()));
    assert!(cmd.args.contains(&"-g".to_string()));
    assert!(cmd.args.contains(&"spring".to_string()));
    assert!(cmd.args.contains(&"/work/.generated/spring-server".to_string()));
}

#[test]
fn compile_command_builds_correct_args() {
    let cfg = test_config();
    let cmd = compile_command(&cfg, "/tmp", "spring", "server", &no_user_args());
    assert!(cmd.args.contains(&"batch".to_string()));
    assert!(cmd.args.contains(&"/work/.generated/spring-server".to_string()));
}

#[test]
fn build_generator_list_both_mode() {
    let cfg = test_config();
    let pairs = build_generator_list(&cfg);
    assert_eq!(pairs.len(), 2);
    assert_eq!(pairs[0], ("spring".to_string(), "server".to_string()));
    assert_eq!(pairs[1], ("typescript-axios".to_string(), "client".to_string()));
}

#[test]
fn build_generator_list_server_only() {
    let mut cfg = test_config();
    cfg.mode = Mode::Server;
    let pairs = build_generator_list(&cfg);
    assert_eq!(pairs.len(), 1);
    assert_eq!(pairs[0].1, "server");
}

#[test]
fn build_generator_list_empty_generators() {
    let mut cfg = test_config();
    cfg.server_generators.clear();
    cfg.client_generators.clear();
    let pairs = build_generator_list(&cfg);
    assert!(pairs.is_empty());
}

#[test]
fn compile_command_uses_override_image() {
    let mut cfg = test_config();
    cfg.generator_overrides.push(("spring".into(), "custom/spring:latest".into()));
    let cmd = compile_command(&cfg, "/tmp", "spring", "server", &no_user_args());
    assert!(cmd.args.contains(&"custom/spring:latest".to_string()));
}

#[test]
fn spectral_command_timeout_from_config() {
    let mut cfg = test_config();
    cfg.docker_timeout = 60;
    let cmd = spectral_command(&cfg, "/tmp/spec.yaml", "/tmp", &no_user_args());
    assert_eq!(cmd.timeout_secs, 60);
}

#[test]
fn user_args_are_spliced_after_mount() {
    let cfg = test_config();
    let user = vec!["--user".to_string(), "1000:1000".to_string()];
    let cmd = spectral_command(&cfg, "/tmp/spec.yaml", "/tmp", &user);
    assert_eq!(cmd.args[0], "run");
    assert_eq!(cmd.args[3], "/tmp:/work");
    assert_eq!(cmd.args[4], "--user");
    assert_eq!(cmd.args[5], "1000:1000");
    assert_eq!(cmd.args[6], cfg.spectral_image);
}
