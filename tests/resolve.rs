use bin_intercept::{find_next_bin, FindNextBinError};

fn listing(paths: &[&str]) -> Vec<Vec<u8>> {
    paths.iter().map(|p| p.as_bytes().to_vec()).collect()
}

#[test]
fn next_bin_after_self_in_middle() {
    let me = b"/opt/wrapper/rustc".to_vec();
    let r = find_next_bin(
        &me,
        listing(&["/usr/bin/rustc", "/opt/wrapper/rustc", "/opt/real/rustc"]),
    );
    assert_eq!(r.unwrap(), b"/opt/real/rustc".to_vec());
}

#[test]
fn self_only_entry_is_next_bin_missing() {
    let me = b"/opt/wrapper/rustc".to_vec();
    let r = find_next_bin(&me, listing(&["/opt/wrapper/rustc"]));
    match r {
        Err(FindNextBinError::NextBinMissing { current_exe }) => assert_eq!(current_exe, me),
        other => panic!("unexpected {:?}", other),
    }
}

#[test]
fn self_absent_is_no_match() {
    let me = b"/opt/wrapper/rustc".to_vec();
    let r = find_next_bin(&me, listing(&["/usr/bin/rustc"]));
    match r {
        Err(FindNextBinError::NoMatch { current_exe }) => assert_eq!(current_exe, me),
        other => panic!("unexpected {:?}", other),
    }
}

#[test]
fn empty_listing_is_no_match() {
    let me = b"/opt/wrapper/rustc".to_vec();
    let r = find_next_bin(&me, Vec::new());
    assert!(matches!(r, Err(FindNextBinError::NoMatch { .. })));
}

#[test]
fn self_last_of_many_is_next_bin_missing() {
    let me = b"/c/tool".to_vec();
    let r = find_next_bin(&me, listing(&["/a/tool", "/b/tool", "/c/tool"]));
    assert!(matches!(r, Err(FindNextBinError::NextBinMissing { .. })));
}

#[test]
fn first_entry_after_self_wins() {
    let me = b"/a/tool".to_vec();
    let r = find_next_bin(&me, listing(&["/a/tool", "/b/tool", "/c/tool"]));
    assert_eq!(r.unwrap(), b"/b/tool".to_vec());
}

#[test]
fn earlier_wrapper_copies_are_skipped() {
    let me = b"/w2/tool".to_vec();
    let r = find_next_bin(&me, listing(&["/w1/tool", "/w2/tool", "/real/tool"]));
    assert_eq!(r.unwrap(), b"/real/tool".to_vec());
}

#[test]
fn match_is_exact_path_equality() {
    let me = b"/opt/wrapper/rustc".to_vec();
    let r = find_next_bin(
        &me,
        listing(&["/opt/wrapper//rustc", "/opt/wrapper/rustc/", "/opt/real/rustc"]),
    );
    assert!(matches!(r, Err(FindNextBinError::NoMatch { .. })));
}

#[test]
fn repeated_self_entry_is_next_bin_missing() {
    let me = b"/opt/wrapper/rustc".to_vec();
    let r = find_next_bin(&me, listing(&["/opt/wrapper/rustc", "/opt/wrapper/rustc"]));
    assert!(matches!(r, Err(FindNextBinError::NextBinMissing { .. })));
}

#[test]
fn repeated_self_entry_is_skipped() {
    let me = b"/opt/wrapper/rustc".to_vec();
    let r = find_next_bin(
        &me,
        listing(&["/opt/wrapper/rustc", "/opt/wrapper/rustc", "/opt/real/rustc"]),
    );
    assert_eq!(r.unwrap(), b"/opt/real/rustc".to_vec());
}

#[test]
fn non_utf8_paths_match_by_bytes() {
    let me = vec![b'/', b'w', 0xff, b'/', b't'];
    let other = vec![b'/', b'w', 0xfe, b'/', b't'];
    let real = b"/real/t".to_vec();
    let r = find_next_bin(&me, vec![other, me.clone(), real.clone()]);
    assert_eq!(r.unwrap(), real);
}
