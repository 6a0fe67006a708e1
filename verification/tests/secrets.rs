use coast_daemon::secrets::{
    base64_encode_bytes, secret_file_writes, secret_write_command, secret_write_command_in, SecretFileMount,
};

#[test]
fn test_base64_encode_empty() {
    assert_eq!(base64_encode_bytes(b""), "");
}

#[test]
fn test_base64_encode_hello() {
    assert_eq!(base64_encode_bytes(b"Hello"), "SGVsbG8=");
}

#[test]
fn test_base64_encode_padding_two_bytes() {
    assert_eq!(base64_encode_bytes(b"ab"), "YWI=");
}

#[test]
fn test_base64_encode_no_padding() {
    assert_eq!(base64_encode_bytes(b"abc"), "YWJj");
}

#[test]
fn test_base64_encode_single_byte() {
    assert_eq!(base64_encode_bytes(b"a"), "YQ==");
}

#[test]
fn test_base64_encode_binary_data() {
    assert_eq!(base64_encode_bytes(&[0x00, 0xFF, 0x80]), "AP+A");
}

#[test]
fn test_base64_encode_longer_string() {
    assert_eq!(base64_encode_bytes(b"Hello, World!"), "SGVsbG8sIFdvcmxkIQ==");
}

#[test]
fn base64_length_is_four_per_started_triple() {
    for n in 0..20usize {
        let data: Vec<u8> = (0..n as u8).collect();
        assert_eq!(base64_encode_bytes(&data).len(), 4 * ((n + 2) / 3));
    }
    assert_eq!(base64_encode_bytes(&[0xfb, 0xff]), "+/8=");
}

#[test]
fn secret_files_matched_by_file_name() {
    let mounts = vec![
        SecretFileMount { host_path: "/h/tmpfs/dev-1/DB_PASS".to_string(), container_path: "/run/secrets/db".to_string() },
        SecretFileMount { host_path: "/h/tmpfs/dev-1/UNKNOWN".to_string(), container_path: "/run/secrets/x".to_string() },
        SecretFileMount { host_path: "/h/tmpfs/dev-1/API_KEY".to_string(), container_path: "/run/secrets/api".to_string() },
    ];
    let names = vec!["API_KEY".to_string(), "DB_PASS".to_string(), "DB_PASS".to_string()];
    assert_eq!(secret_file_writes(&mounts, &names), vec![(0, 1), (2, 0)]);
    assert!(secret_file_writes(&mounts, &[]).is_empty());
}

#[test]
fn secret_write_commands() {
    assert_eq!(
        secret_write_command("/run/secrets/db", b"pw"),
        "mkdir -p '/run/secrets' && echo 'cHc=' | base64 -d > '/run/secrets/db'"
    );
    assert_eq!(secret_write_command("db", b""), "mkdir -p '' && echo '' | base64 -d > 'db'");
    assert_eq!(secret_write_command_in("/db", b"a", "/"), "mkdir -p '/' && echo 'YQ==' | base64 -d > '/db'");
}
