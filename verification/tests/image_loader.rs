use coast_daemon::image_loader::{
    image_cache_bind_mount_string, image_cache_mount, load_all_images_commands, load_command,
    wait_for_inner_daemon_command, IMAGE_CACHE_CONTAINER_PATH,
};

#[test]
fn test_load_command_basic() {
    let cmd = load_command("/image-cache/postgres_16_abc123.tar");
    assert_eq!(cmd.len(), 4);
    assert_eq!(cmd[0], "docker");
    assert_eq!(cmd[1], "load");
    assert_eq!(cmd[2], "-i");
    assert_eq!(cmd[3], "/image-cache/postgres_16_abc123.tar");
}

#[test]
fn test_load_command_different_path() {
    let cmd = load_command("/mnt/cache/node_20_def456.tar");
    assert_eq!(cmd[3], "/mnt/cache/node_20_def456.tar");
}

#[test]
fn test_load_command_with_spaces_in_path() {
    let cmd = load_command("/image cache/my image.tar");
    assert_eq!(cmd[3], "/image cache/my image.tar");
}

#[test]
fn test_load_command_empty_path() {
    let cmd = load_command("");
    assert_eq!(cmd[3], "");
}

#[test]
fn test_image_cache_mount_basic() {
    let (host, container) = image_cache_mount("/home/user/.coast/image-cache");
    assert_eq!(host, "/home/user/.coast/image-cache");
    assert_eq!(container, "/image-cache");
}

#[test]
fn test_image_cache_mount_different_path() {
    let (host, container) = image_cache_mount("/var/coast/cache");
    assert_eq!(host, "/var/coast/cache");
    assert_eq!(container, IMAGE_CACHE_CONTAINER_PATH);
}

#[test]
fn test_image_cache_mount_container_path_is_constant() {
    let (_, container) = image_cache_mount("/any/path");
    assert_eq!(container, "/image-cache");
}

#[test]
fn test_image_cache_mount_with_trailing_slash() {
    let (host, _) = image_cache_mount("/home/user/.coast/image-cache/");
    assert!(host.starts_with("/home/user/.coast/image-cache"));
}

#[test]
fn test_wait_for_inner_daemon_command() {
    let cmd = wait_for_inner_daemon_command();
    assert_eq!(cmd.len(), 2);
    assert_eq!(cmd[0], "docker");
    assert_eq!(cmd[1], "info");
}

#[test]
fn test_wait_for_inner_daemon_command_is_consistent() {
    let cmd1 = wait_for_inner_daemon_command();
    let cmd2 = wait_for_inner_daemon_command();
    assert_eq!(cmd1, cmd2);
}

#[test]
fn test_load_all_images_commands_single() {
    let tarballs = vec!["postgres_16_abc123.tar".to_string()];
    let commands = load_all_images_commands(&tarballs, "/image-cache");

    assert_eq!(commands.len(), 1);
    assert_eq!(commands[0][0], "docker");
    assert_eq!(commands[0][1], "load");
    assert_eq!(commands[0][2], "-i");
    assert_eq!(commands[0][3], "/image-cache/postgres_16_abc123.tar");
}

#[test]
fn test_load_all_images_commands_multiple() {
    let tarballs = vec![
        "postgres_16_abc123.tar".to_string(),
        "node_20_def456.tar".to_string(),
        "redis_7_ghi789.tar".to_string(),
    ];
    let commands = load_all_images_commands(&tarballs, "/image-cache");

    assert_eq!(commands.len(), 3);
    assert_eq!(commands[0][3], "/image-cache/postgres_16_abc123.tar");
    assert_eq!(commands[1][3], "/image-cache/node_20_def456.tar");
    assert_eq!(commands[2][3], "/image-cache/redis_7_ghi789.tar");
}

#[test]
fn test_load_all_images_commands_empty() {
    let tarballs: Vec<String> = vec![];
    let commands = load_all_images_commands(&tarballs, "/image-cache");
    assert!(commands.is_empty());
}

#[test]
fn test_load_all_images_commands_custom_mount_path() {
    let tarballs = vec!["image.tar".to_string()];
    let commands = load_all_images_commands(&tarballs, "/custom/cache");

    assert_eq!(commands[0][3], "/custom/cache/image.tar");
}

#[test]
fn test_load_all_images_commands_preserves_order() {
    let tarballs = vec!["c.tar".to_string(), "a.tar".to_string(), "b.tar".to_string()];
    let commands = load_all_images_commands(&tarballs, "/cache");

    assert_eq!(commands[0][3], "/cache/c.tar");
    assert_eq!(commands[1][3], "/cache/a.tar");
    assert_eq!(commands[2][3], "/cache/b.tar");
}

#[test]
fn test_load_all_images_commands_each_is_valid_load() {
    let tarballs = vec!["img1.tar".to_string(), "img2.tar".to_string()];
    let commands = load_all_images_commands(&tarballs, "/image-cache");

    for cmd in &commands {
        assert_eq!(cmd.len(), 4);
        assert_eq!(cmd[0], "docker");
        assert_eq!(cmd[1], "load");
        assert_eq!(cmd[2], "-i");
        assert!(cmd[3].starts_with("/image-cache/"));
    }
}

#[test]
fn test_image_cache_bind_mount_string_basic() {
    let mount_str = image_cache_bind_mount_string("/home/user/.coast/image-cache");
    assert_eq!(mount_str, "/home/user/.coast/image-cache:/image-cache:ro");
}

#[test]
fn test_image_cache_bind_mount_string_is_read_only() {
    let mount_str = image_cache_bind_mount_string("/any/path");
    assert!(mount_str.ends_with(":ro"));
}

#[test]
fn test_image_cache_bind_mount_string_contains_container_path() {
    let mount_str = image_cache_bind_mount_string("/cache");
    assert!(mount_str.contains(IMAGE_CACHE_CONTAINER_PATH));
}

#[test]
fn test_image_cache_container_path_constant() {
    assert_eq!(IMAGE_CACHE_CONTAINER_PATH, "/image-cache");
}

#[test]
fn batch_load_equals_load_of_each_path() {
    let tarballs = vec!["x.tar".to_string(), "".to_string()];
    let commands = load_all_images_commands(&tarballs, "/m");
    assert_eq!(commands[0], load_command("/m/x.tar"));
    assert_eq!(commands[1], load_command("/m/"));
}

#[test]
fn test_validate_cache_dir_exists() {
    assert!(coast_daemon::image_loader::cache_dir_check("/tmp/cache", true, true).is_ok());
}

#[test]
fn test_validate_cache_dir_not_exists() {
    let result = coast_daemon::image_loader::cache_dir_check("/nonexistent/path/image-cache", false, false);
    assert!(result.is_err());
    let err = result.unwrap_err();
    assert!(err.contains("does not exist"));
    assert!(err.contains("coast build"));
}

#[test]
fn test_validate_cache_dir_is_file() {
    let result = coast_daemon::image_loader::cache_dir_check("/tmp/x/not-a-dir", true, false);
    assert!(result.is_err());
    let err = result.unwrap_err();
    assert!(err.contains("not a directory"));
}

#[test]
fn cache_dir_messages_exact() {
    assert_eq!(
        coast_daemon::image_loader::cache_dir_check("/c", false, true),
        Err("Image cache directory '/c' does not exist. Run `coast build` to create it and cache images.".to_string())
    );
    assert_eq!(
        coast_daemon::image_loader::cache_dir_check("/c", true, false),
        Err("Image cache path '/c' exists but is not a directory.".to_string())
    );
}
