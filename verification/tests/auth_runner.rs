use rsground::auth::{bearer_token, jwt_secret, token_expiration, TOKEN_LIFETIME_SECONDS};
use rsground::runner::{
    bash_plan, bash_script, patch_binary_plan, run_environment, rustc_plan, spawn_environment,
    strip_container_prefix, temp_home_path, working_dir,
};

#[test]
fn bearer_token_is_read_after_the_prefix() {
    assert_eq!(bearer_token("Bearer abc.def"), Some("abc.def".to_string()));
    assert_eq!(bearer_token("Bearer "), Some(String::new()));
    assert_eq!(bearer_token("Bearer Bearer x"), Some("x".to_string()));
    assert_eq!(bearer_token("bearer abc"), None);
    assert_eq!(bearer_token("Bearer"), None);
    assert_eq!(bearer_token("Basic abc"), None);
    assert_eq!(bearer_token("Bearer ñ"), Some("ñ".to_string()));
}

#[test]
fn secret_defaults() {
    assert_eq!(jwt_secret(None), "secret");
    assert_eq!(jwt_secret(Some("k".to_string())), "k");
}

#[test]
fn tokens_last_twelve_hours() {
    assert_eq!(TOKEN_LIFETIME_SECONDS, 12 * 3600);
    assert_eq!(token_expiration(1_700_000_000), 1_700_043_200);
    assert_eq!(token_expiration(-43200), 0);
}

#[test]
fn bash_script_joins_arguments() {
    let args = vec!["-n".to_string(), "Hello World".to_string()];
    assert_eq!(bash_script("echo", &args), "echo -n Hello World");
    assert_eq!(bash_script("ls", &Vec::new()), "ls ");
    let plan = bash_plan("echo", &args);
    assert_eq!(plan.program, "/bin/bash");
    assert_eq!(plan.args, vec!["-c".to_string(), "echo -n Hello World".to_string()]);
}

#[test]
fn compiler_and_patch_plans() {
    let plan = rustc_plan(vec!["main.rs".to_string()]);
    assert_eq!(plan.program, "/bin/rustc");
    assert_eq!(plan.args, vec!["main.rs".to_string()]);
    let plan = patch_binary_plan("/home/main");
    assert_eq!(plan.program, "/bin/patchelf");
    assert_eq!(
        plan.args,
        vec!["--set-interpreter", "/lib/ld-linux-x86-64.so.2", "/home/main"]
    );
}

#[test]
fn command_environments() {
    let env = run_environment();
    let names: Vec<&str> = env.iter().map(|p| p.0.as_str()).collect();
    assert_eq!(names, vec!["HOME", "PATH", "PROG", "LD_LIBRARY_PATH"]);
    assert_eq!(env[2].1, "/bin/cc");
    let env = spawn_environment();
    let names: Vec<&str> = env.iter().map(|p| p.0.as_str()).collect();
    assert_eq!(names, vec!["HOME", "PATH", "LD_LIBRARY_PATH"]);
    assert_eq!(env[2].1, "/lib:/lib64:/libexec");
    assert_eq!(working_dir(), "/home");
}

#[test]
fn container_prefix_is_stripped() {
    assert_eq!(strip_container_prefix(b"hakoniwa: boom".to_vec()), b"boom".to_vec());
    assert_eq!(strip_container_prefix(b"hakoniwa: ".to_vec()), Vec::<u8>::new());
    assert_eq!(strip_container_prefix(b"error: x".to_vec()), b"error: x".to_vec());
    assert_eq!(strip_container_prefix(b"hakoniwa".to_vec()), b"hakoniwa".to_vec());
}

#[test]
fn temp_home_is_named_after_the_uuid() {
    assert_eq!(temp_home_path(0xab), "/tmp/000000000000000000000000000000ab");
}
