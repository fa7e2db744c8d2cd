use bin_intercept::{
    classify, finish_cargo, host_target, output_dir, parse_cargo_args, target_env_renames,
    target_underscores, ArgKind, CargoArgsError, CommandBuildContext, HostTargetError,
};

fn toks(v: &[&str]) -> Vec<Vec<u8>> {
    v.iter().map(|s| s.as_bytes().to_vec()).collect()
}

#[test]
fn classify_words() {
    assert_eq!(classify(&b"-p".to_vec()), ArgKind::Package);
    assert_eq!(classify(&b"--package".to_vec()), ArgKind::Package);
    assert_eq!(classify(&b"--target-dir".to_vec()), ArgKind::TargetDir);
    assert_eq!(classify(&b"--target".to_vec()), ArgKind::Target);
    assert_eq!(classify(&b"--bin".to_vec()), ArgKind::Bin);
    assert_eq!(classify(&b"--release".to_vec()), ArgKind::Switch);
    assert_eq!(classify(&b"--all-targets".to_vec()), ArgKind::Switch);
    assert_eq!(classify(&b"build".to_vec()), ArgKind::Other);
}

#[test]
fn parse_collects_packages_and_drops_target_dir() {
    let args = toks(&[
        "build", "-p", "zeta", "--target-dir", "out", "--release", "--package", "alpha",
        "--features", "x", "--target", "x86_64-unknown-linux-gnu",
    ]);
    let p = parse_cargo_args(&args, b"target".to_vec(), None).unwrap();
    assert_eq!(
        p.new_args,
        toks(&[
            "build", "-p", "zeta", "--release", "--package", "alpha", "--features", "x",
            "--target", "x86_64-unknown-linux-gnu",
        ])
    );
    assert_eq!(p.packages, toks(&["zeta", "alpha"]));
    assert!(p.bins.is_empty());
    assert_eq!(p.target_dir, b"out".to_vec());
    assert_eq!(p.target, Some("x86_64-unknown-linux-gnu".to_string()));
}

#[test]
fn parse_keeps_initial_values() {
    let p = parse_cargo_args(&toks(&["check"]), b"t".to_vec(), Some("aarch64".to_string()))
        .unwrap();
    assert_eq!(p.new_args, toks(&["check"]));
    assert_eq!(p.target_dir, b"t".to_vec());
    assert_eq!(p.target, Some("aarch64".to_string()));
}

#[test]
fn parse_trailing_dash_option_without_value() {
    let p = parse_cargo_args(&toks(&["run", "--color"]), b"target".to_vec(), None).unwrap();
    assert_eq!(p.new_args, toks(&["run", "--color"]));
}

#[test]
fn parse_missing_value() {
    let r = parse_cargo_args(&toks(&["build", "--bin"]), b"target".to_vec(), None);
    match r {
        Err(CargoArgsError::MissingValue { arg }) => assert_eq!(arg, b"--bin".to_vec()),
        other => panic!("unexpected {:?}", other),
    }
}

#[test]
fn parse_invalid_target() {
    let args = vec![b"--target".to_vec(), vec![0xff, 0xfe]];
    let r = parse_cargo_args(&args, b"target".to_vec(), None);
    assert!(matches!(r, Err(CargoArgsError::InvalidTarget { .. })));
}

#[test]
fn output_dir_for_packages_is_sorted() {
    let d = output_dir(b"target".to_vec(), toks(&["zeta", "alpha"]), toks(&["b"]));
    assert_eq!(d, b"target/pkg/alpha-zeta".to_vec());
}

#[test]
fn output_dir_for_bins() {
    let d = output_dir(b"target".to_vec(), Vec::new(), toks(&["srv", "cli"]));
    assert_eq!(d, b"target/bin/cli-srv".to_vec());
}

#[test]
fn output_dir_unchanged() {
    let d = output_dir(b"target".to_vec(), Vec::new(), Vec::new());
    assert_eq!(d, b"target".to_vec());
}

#[test]
fn underscores_in_target() {
    let t = target_underscores(&"x86_64-unknown-linux-gnu".to_string());
    assert_eq!(t, "x86_64_unknown_linux_gnu");
}

#[test]
fn env_renames() {
    let r = target_env_renames(
        &"CC_target,CFLAGS_target,PLAIN".to_string(),
        &"x86_64_unknown_linux_gnu".to_string(),
    );
    assert_eq!(
        r,
        vec![
            ("CC_x86_64_unknown_linux_gnu".to_string(), "CC".to_string()),
            ("CFLAGS_x86_64_unknown_linux_gnu".to_string(), "CFLAGS".to_string()),
            ("PLAIN".to_string(), "PLAIN".to_string()),
        ]
    );
}

#[test]
fn host_from_version_report() {
    let out = b"rustc 1.80.0\nbinary: rustc\nhost: x86_64-unknown-linux-gnu\nrelease: 1.80.0\n"
        .to_vec();
    assert_eq!(host_target(&out).unwrap(), "x86_64-unknown-linux-gnu");
}

#[test]
fn host_missing_from_version_report() {
    let out = b"rustc 1.80.0\nbinary: rustc\n".to_vec();
    assert_eq!(host_target(&out).unwrap_err(), HostTargetError::NoHostLine);
}

#[test]
fn host_malformed_in_version_report() {
    let mut out = b"host: ".to_vec();
    out.push(0xff);
    assert_eq!(host_target(&out).unwrap_err(), HostTargetError::Malformed);
}

#[test]
fn finish_sets_envs_args_and_target_dir() {
    let ctx = finish_cargo(
        CommandBuildContext::new(),
        vec![(b"CC".to_vec(), b"gcc".to_vec())],
        toks(&["build"]),
        b"target/pkg/a".to_vec(),
    );
    let (args, envs) = ctx.into_parts();
    assert_eq!(args, toks(&["build"]));
    assert_eq!(
        envs,
        vec![
            (b"CC".to_vec(), b"gcc".to_vec()),
            (b"CARGO_BUILD_TARGET_DIR".to_vec(), b"target/pkg/a".to_vec()),
        ]
    );
}
