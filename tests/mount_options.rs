use bcachefs_mount::{
    flag_for_token, parse_mount_options, MS_DIRSYNC, MS_LAZYTIME, MS_MANDLOCK, MS_NOATIME,
    MS_NODEV, MS_NODIRATIME, MS_NOEXEC, MS_NOSUID, MS_RDONLY, MS_RELATIME, MS_REMOUNT,
    MS_STRICTATIME, MS_SYNCHRONOUS,
};

#[test]
fn classify_known_and_custom_options() {
    let (data, flags) = parse_mount_options("ro,noatime,custom_opt");
    assert_eq!(flags & MS_RDONLY, MS_RDONLY);
    assert_eq!(flags & MS_NOATIME, MS_NOATIME);
    assert_eq!(flags, 1 | 1024);
    assert_eq!(data, Some("custom_opt".to_string()));
}

#[test]
fn classify_empty_string() {
    let (data, flags) = parse_mount_options("");
    assert_eq!(flags, 0);
    assert_eq!(data, None);
}

#[test]
fn unknown_tokens_kept_in_order() {
    let (data, flags) = parse_mount_options("a,ro,b=1,,nosuid,c");
    assert_eq!(flags, MS_RDONLY | MS_NOSUID);
    let data = data.unwrap();
    assert_eq!(data, "a,b=1,c");
    let back: Vec<&str> = data.split(',').collect();
    assert_eq!(back, vec!["a", "b=1", "c"]);
}

#[test]
fn only_known_tokens_give_no_data() {
    let (data, flags) = parse_mount_options("rw,,sync,dirsync");
    assert_eq!(flags, MS_SYNCHRONOUS | MS_DIRSYNC);
    assert_eq!(data, None);
}

#[test]
fn trailing_comma_is_a_no_op() {
    assert_eq!(parse_mount_options("x,"), (Some("x".to_string()), 0));
    assert_eq!(parse_mount_options(","), (None, 0));
}

#[test]
fn repeated_unknown_tokens_are_all_kept() {
    assert_eq!(parse_mount_options("degraded,degraded"), (Some("degraded,degraded".to_string()), 0));
}

#[test]
fn keyword_table_values() {
    assert_eq!(flag_for_token("dirsync"), Some(MS_DIRSYNC));
    assert_eq!(flag_for_token("lazytime"), Some(1 << 25));
    assert_eq!(MS_LAZYTIME, 1 << 25);
    assert_eq!(flag_for_token("mand"), Some(MS_MANDLOCK));
    assert_eq!(flag_for_token("noatime"), Some(MS_NOATIME));
    assert_eq!(flag_for_token("nodev"), Some(MS_NODEV));
    assert_eq!(flag_for_token("nodiratime"), Some(MS_NODIRATIME));
    assert_eq!(flag_for_token("noexec"), Some(MS_NOEXEC));
    assert_eq!(flag_for_token("nosuid"), Some(MS_NOSUID));
    assert_eq!(flag_for_token("relatime"), Some(MS_RELATIME));
    assert_eq!(flag_for_token("remount"), Some(MS_REMOUNT));
    assert_eq!(flag_for_token("ro"), Some(MS_RDONLY));
    assert_eq!(flag_for_token("rw"), Some(0));
    assert_eq!(flag_for_token("strictatime"), Some(MS_STRICTATIME));
    assert_eq!(flag_for_token("sync"), Some(MS_SYNCHRONOUS));
    assert_eq!(flag_for_token(""), Some(0));
    assert_eq!(flag_for_token("RO"), None);
    assert_eq!(flag_for_token("ro "), None);
}

#[test]
fn kernel_flag_values() {
    assert_eq!(MS_RDONLY, 1);
    assert_eq!(MS_NOSUID, 2);
    assert_eq!(MS_NODEV, 4);
    assert_eq!(MS_NOEXEC, 8);
    assert_eq!(MS_SYNCHRONOUS, 16);
    assert_eq!(MS_REMOUNT, 32);
    assert_eq!(MS_MANDLOCK, 64);
    assert_eq!(MS_DIRSYNC, 128);
    assert_eq!(MS_NOATIME, 1024);
    assert_eq!(MS_NODIRATIME, 2048);
    assert_eq!(MS_RELATIME, 1 << 21);
    assert_eq!(MS_STRICTATIME, 1 << 24);
}
