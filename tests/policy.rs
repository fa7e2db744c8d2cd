use bin_intercept::{config_query, is_flag_set, rewrite_rustc, CommandBuildContext};

fn toks(v: &[&str]) -> Vec<Vec<u8>> {
    v.iter().map(|s| s.as_bytes().to_vec()).collect()
}

#[test]
fn flag_values() {
    assert!(is_flag_set(&Some(b"1".to_vec())));
    assert!(is_flag_set(&Some(b"true".to_vec())));
    assert!(!is_flag_set(&Some(b"0".to_vec())));
    assert!(!is_flag_set(&Some(b"TRUE".to_vec())));
    assert!(!is_flag_set(&None));
}

#[test]
fn config_queries() {
    assert!(config_query(&toks(&["-vV"])));
    assert!(config_query(&toks(&["--version"])));
    assert!(config_query(&toks(&["-", "--crate-name", "___", "--print=file-names"])));
    assert!(!config_query(&toks(&["--crate-name", "foo", "src/lib.rs"])));
    assert!(!config_query(&toks(&[])));
}

#[test]
fn rustc_forwards_arguments() {
    let args = toks(&["--crate-name", "foo", "src/lib.rs"]);
    let ctx = rewrite_rustc(CommandBuildContext::new(), args.clone(), false).unwrap();
    let (got, envs) = ctx.into_parts();
    assert_eq!(got, args);
    assert!(envs.is_empty());
}

#[test]
fn rustc_denied_compilation() {
    let args = toks(&["--crate-name", "foo", "src/lib.rs"]);
    let r = rewrite_rustc(CommandBuildContext::new(), args.clone(), true);
    match r {
        Err(e) => assert_eq!(e.args, args),
        Ok(_) => panic!("compilation was let through"),
    }
}

#[test]
fn rustc_denied_lets_version_through() {
    let args = toks(&["-vV"]);
    let ctx = rewrite_rustc(CommandBuildContext::new(), args.clone(), true).unwrap();
    assert_eq!(ctx.into_parts().0, args);
}
