use bin_intercept::{
    CommandBuildContext, FindNextBinError, Intercept, InterceptError, PreparedCommand,
};

fn session(next: &str) -> Intercept {
    let me = b"/opt/wrapper/rustc".to_vec();
    let all = vec![me.clone(), next.as_bytes().to_vec()];
    Intercept::from_listing(&me, all).unwrap()
}

fn append_args(mut ctx: CommandBuildContext) -> Result<CommandBuildContext, String> {
    ctx.args(vec![b"--edition".to_vec(), b"2021".to_vec()]);
    ctx.env(b"RUST_LOG".to_vec(), b"info".to_vec());
    Ok(ctx)
}

#[test]
fn session_goes_to_next_binary() {
    let s = session("/opt/real/rustc");
    assert_eq!(s.next_bin(), &b"/opt/real/rustc".to_vec());
}

#[test]
fn session_reports_no_match() {
    let me = b"/opt/wrapper/rustc".to_vec();
    let r = Intercept::from_listing(&me, vec![b"/usr/bin/rustc".to_vec()]);
    assert!(matches!(
        r,
        Err(InterceptError::FindNextBin(FindNextBinError::NoMatch { .. }))
    ));
}

#[test]
fn session_reports_next_bin_missing() {
    let me = b"/opt/wrapper/rustc".to_vec();
    let r = Intercept::from_listing(&me, vec![me.clone()]);
    assert!(matches!(
        r,
        Err(InterceptError::FindNextBin(FindNextBinError::NextBinMissing { .. }))
    ));
}

#[test]
fn root_path_has_no_base_name() {
    let r = Intercept::new("/".to_string());
    assert!(matches!(r, Err(InterceptError::MissingBaseName)));
}

#[test]
fn empty_path_has_no_base_name() {
    let r = Intercept::new(String::new());
    assert!(matches!(r, Err(InterceptError::MissingBaseName)));
}

#[test]
fn path_with_base_name_is_looked_up() {
    let r = Intercept::new("/nonexistent/dir/bin-intercept-no-such-tool".to_string());
    assert!(!matches!(r, Err(InterceptError::MissingBaseName)));
    assert!(r.is_err());
}

#[test]
fn intercept_prepares_next_binary_with_built_context() {
    let p: PreparedCommand = session("/opt/real/rustc").intercept(append_args).unwrap();
    assert_eq!(p.program(), &b"/opt/real/rustc".to_vec());
    assert_eq!(p.args(), &vec![b"--edition".to_vec(), b"2021".to_vec()]);
    assert_eq!(p.envs(), &vec![(b"RUST_LOG".to_vec(), b"info".to_vec())]);
}

#[test]
fn intercept_returns_callback_error_untouched() {
    let r = session("/opt/real/rustc")
        .intercept(|_ctx: CommandBuildContext| -> Result<CommandBuildContext, String> {
            Err("denied".to_string())
        });
    match r {
        Err(e) => assert_eq!(e, "denied"),
        Ok(_) => panic!("a command was prepared"),
    }
}

#[test]
fn intercept_twice_gives_identical_commands() {
    let a = session("/opt/real/rustc").intercept(append_args).unwrap();
    let b = session("/opt/real/rustc").intercept(append_args).unwrap();
    assert_eq!(a.program(), b.program());
    assert_eq!(a.args(), b.args());
    assert_eq!(a.envs(), b.envs());
}

#[test]
fn env_last_write_wins() {
    let mut ctx = CommandBuildContext::new();
    ctx.env(b"A".to_vec(), b"1".to_vec());
    ctx.env(b"B".to_vec(), b"2".to_vec());
    ctx.env(b"A".to_vec(), b"3".to_vec());
    ctx.arg(b"x".to_vec());
    let (args, envs) = ctx.into_parts();
    assert_eq!(args, vec![b"x".to_vec()]);
    assert_eq!(
        envs,
        vec![(b"A".to_vec(), b"3".to_vec()), (b"B".to_vec(), b"2".to_vec())]
    );
}

#[test]
fn session_never_goes_to_itself() {
    let me = b"/opt/wrapper/rustc".to_vec();
    let r = Intercept::from_listing(&me, vec![me.clone(), me.clone()]);
    assert!(matches!(
        r,
        Err(InterceptError::FindNextBin(FindNextBinError::NextBinMissing { .. }))
    ));
    let r = Intercept::from_listing(&me, vec![me.clone(), me.clone(), b"/real/rustc".to_vec()]);
    assert_eq!(r.unwrap().next_bin(), &b"/real/rustc".to_vec());
}

#[test]
fn callback_passing_context_through_prepares_empty_command() {
    let p = session("/next").intercept(|c| -> Result<_, ()> { Ok(c) }).unwrap();
    assert_eq!(p.program(), &b"/next".to_vec());
    assert!(p.args().is_empty());
    assert!(p.envs().is_empty());
}
