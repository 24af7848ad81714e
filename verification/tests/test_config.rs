use krillkounter::config::{Args, ConfigError, DaemonConfig, DeviceConfig, DeviceNode};
use krillkounter::log_prefix::LogPrefix;

fn device_config(paths: Vec<&str>, stats_path: &str) -> DeviceConfig {
    DeviceConfig {
        device_paths: paths.into_iter().map(String::from).collect(),
        stats_file_path: stats_path.to_string(),
    }
}

#[test]
fn json_config_bad_dev_path() {
    let config = device_config(vec!["/dev/mmcblk0", "/dev/abcdef"], "/tmp/krillkounter0/stats.json");
    let expected = "JSON Config: : Path: /dev/abcdef does not exist !";
    let err = DeviceConfig::new(config, &[DeviceNode::BlockDevice, DeviceNode::Missing]).unwrap_err();
    assert!(
        err.message().contains(expected),
        "Expected error message to contain '{}', but got '{}'",
        expected,
        err.message(),
    );
}

#[test]
fn json_config_dev_not_block_device() {
    let config = device_config(vec!["/dev/tty"], "/tmp/krillkounter1/stats.json");
    let expected = "JSON Config: : Path: /dev/tty is not a block device !";
    let err = DeviceConfig::new(config, &[DeviceNode::NotBlockDevice]).unwrap_err();
    assert!(
        err.message().contains(expected),
        "Expected error message to contain '{}', but got '{}'",
        expected,
        err.message(),
    );
}

#[test]
fn json_config_empty_device_paths() {
    let config = device_config(vec![], "/tmp/krillkounter2/stats.json");
    let expected =
        "JSON Config: : devicePaths array is empty! Choose at least one block device under /dev";
    let err = DeviceConfig::new(config, &[]).unwrap_err();
    assert!(
        err.message().contains(expected),
        "Expected error message to contain '{}', but got '{}'",
        expected,
        err.message(),
    );
}

#[test]
fn device_config_first_failure_wins_and_metadata_errors_pass_through() {
    let config = device_config(vec!["/dev/a", "/dev/b", "/dev/c"], "/x/s.json");
    let err = DeviceConfig::new(
        config,
        &[DeviceNode::BlockDevice, DeviceNode::Unreadable("permission denied".to_string()), DeviceNode::Missing],
    )
    .unwrap_err();
    assert!(matches!(err, ConfigError::Metadata(_)));
    assert_eq!(err.message(), "permission denied");
}

#[test]
fn device_config_accepts_block_devices() {
    let config = device_config(vec!["/dev/sda", "/dev/mmcblk0"], "/x/s.json");
    let ok = DeviceConfig::new(config, &[DeviceNode::BlockDevice, DeviceNode::BlockDevice]).unwrap();
    assert_eq!(ok.device_paths, vec!["/dev/sda".to_string(), "/dev/mmcblk0".to_string()]);
    assert_eq!(ok.stats_file_path, "/x/s.json");
}

#[test]
fn daemon_config_checks_in_order() {
    let args = || Args { config_path: "/etc/kk.json".to_string() };
    let parsed = |path: &str, rate: u64| DaemonConfig {
        config_file_path: String::new(),
        stats_file_path: path.to_string(),
        update_rate: rate,
    };
    let err = DaemonConfig::new(args(), parsed("", 0)).unwrap_err();
    assert_eq!(
        err.message(),
        "JSON Config: : statsFilePath is empty! define a valid path for stats storage."
    );
    let err = DaemonConfig::new(args(), parsed("/x/s.json", 0)).unwrap_err();
    assert_eq!(err.message(), "JSON Config: : updateRate cannot be zero.");
    let ok = DaemonConfig::new(args(), parsed("/x/s.json", 3600)).unwrap();
    assert_eq!(ok.config_file_path, "/etc/kk.json");
    assert_eq!(ok.stats_file_path, "/x/s.json");
    assert_eq!(ok.update_rate, 3600);
    assert_eq!(ok.log("m"), "JSON Config: : m");
}
