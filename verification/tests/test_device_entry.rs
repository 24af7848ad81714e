use krillkounter::block::BlockStats;
use krillkounter::config::DaemonConfig;
use krillkounter::config::DeviceConfig;
use krillkounter::daemon::KrillKounter;
use krillkounter::device::{
    has_dev_prefix, init_device_stats, merge_existing_device_stats,
    merge_existing_device_stats_with, readings_are_defined, update_devices_stats, DeviceEntry,
    DeviceError, DeviceProbe, DeviceReading, LsblkRun, StatsError, SysfsRead, check_stats_path,
};
use krillkounter::device_stats::DeviceStats;
use krillkounter::log_prefix::LogPrefix;

const SECTOR_SIZE: u128 = 512;

fn stats(v: [u64; 17]) -> BlockStats {
    BlockStats {
        read_io: v[0],
        read_merges: v[1],
        read_sectors: v[2],
        read_ticks: v[3],
        write_io: v[4],
        write_merges: v[5],
        write_sectors: v[6],
        write_ticks: v[7],
        in_flight: v[8],
        io_ticks: v[9],
        time_in_queue: v[10],
        discard_io: v[11],
        discard_merges: v[12],
        discard_sectors: v[13],
        discard_ticks: v[14],
        flush_io: v[15],
        flush_ticks: v[16],
    }
}

fn stored_entry(path: &str) -> DeviceEntry {
    DeviceEntry {
        first_sithing_date: "31.07.2025".to_string(),
        previous_path: path.to_string(),
        current_path: path.to_string(),
        stored_stats: stats([10, 20, 30, 40, 50, 60, 70, 80, 90, 100, 110, 120, 130, 140, 150, 0, 0]),
        total_bytes_written: 200,
        disk_seq: 40,
        previous_stats: stats([1, 2, 3, 4, 5, 6, 7, 8, 9, 10, 11, 12, 13, 14, 15, 0, 0]),
        serial_number: ".".to_string(),
        device_name: ".".to_string(),
        stat_path: ".".to_string(),
        is_active: true,
    }
}

fn contents(s: &str) -> SysfsRead {
    SysfsRead::Contents(s.to_string())
}

fn probe(serial: &str, stat: &str) -> DeviceProbe {
    DeviceProbe {
        stat_path_exists: true,
        serial_file: contents(serial),
        lsblk: LsblkRun::SpawnFailed("lsblk not run".to_string()),
        stat_file: contents(stat),
    }
}

fn line(write_sectors: u64) -> String {
    format!("1 2 3 4 5 6 {} 8 9 10 11 12 13 14 15 16 17", write_sectors)
}

#[test]
fn overflow_handling() {
    let mut device = DeviceEntry::new("/dev/mmcblk4");
    device.total_bytes_written = 200;
    let overflow = 4;
    let old_total_bytes = device.total_bytes_written;
    device
        .compute_total_bytes_written(overflow, usize::MAX as u64 - 10)
        .unwrap();
    let correct_value = old_total_bytes + (overflow as u128 + 1 + 10) * SECTOR_SIZE;
    assert!(
        device.total_bytes_written == correct_value,
        "Value after overflow is {} but it should be {}",
        device.total_bytes_written,
        correct_value
    );
}

#[test]
fn total_bytes_plain_and_saturated() {
    let mut device = DeviceEntry::new("/dev/sda");
    device.compute_total_bytes_written(300, 100).unwrap();
    assert_eq!(device.total_bytes_written, 200 * 512);
    device.total_bytes_written = u128::MAX - 100;
    let err = device.compute_total_bytes_written(1, 0).unwrap_err();
    assert_eq!(device.total_bytes_written, u128::MAX - 100);
    assert_eq!(err.message(), "DeviceEntry:sda: : 340 undecillion of bytes written, well done !");
}

#[test]
fn new_entry_takes_the_name_after_dev() {
    assert!(has_dev_prefix("/dev/mmcblk0"));
    assert!(!has_dev_prefix("/tmp/x"));
    assert!(!has_dev_prefix("/dev"));
    let e = DeviceEntry::new("/dev/mmcblk0");
    assert_eq!(e.device_name, "mmcblk0");
    assert_eq!(e.current_path, "/dev/mmcblk0");
    assert_eq!(e.first_sithing_date, "");
    assert!(!e.is_active);
    assert_eq!(DeviceEntry::stat_path_for("mmcblk0"), "/sys/block/mmcblk0/stat");
    assert_eq!(e.serial_path(), "/sys/block/mmcblk0/device/serial");
    assert_eq!(e.disk_seq_path(), "/sys/block/mmcblk0/diskseq");
    assert_eq!(e.dev_node(), "/dev/mmcblk0");
    assert_eq!(e.log("x"), "DeviceEntry:mmcblk0: : x");
}

#[test]
fn serial_number_sources() {
    let e = DeviceEntry::new("/dev/sdb");
    let spawn_failed = LsblkRun::SpawnFailed("no lsblk".to_string());
    assert_eq!(e.get_serial_number(&contents("  ABC123\n"), &spawn_failed).unwrap(), "ABC123");
    let from_lsblk = LsblkRun::Succeeded(" USB42 \n".to_string());
    assert_eq!(e.get_serial_number(&contents("\n"), &from_lsblk).unwrap(), "USB42");
    assert_eq!(
        e.get_serial_number(&SysfsRead::OpenFailed("gone".to_string()), &from_lsblk).unwrap(),
        "USB42"
    );
    let err = e
        .get_serial_number(&SysfsRead::OpenFailed("gone".to_string()), &LsblkRun::Succeeded("\n".to_string()))
        .unwrap_err();
    assert_eq!(err.message(), "DeviceEntry:sdb: : Could not get a serial number for block device");
    let err = e
        .get_serial_number(
            &SysfsRead::OpenFailed("gone".to_string()),
            &LsblkRun::Failed { code: 32, stderr: "oops".to_string() },
        )
        .unwrap_err();
    assert_eq!(
        err.message(),
        "DeviceEntry:sdb: : The lsblk command failed: unable to get serial number! \nExit status is : 32 \nStderr oops "
    );
    let err = e.get_serial_number(&contents(""), &spawn_failed).unwrap_err();
    assert_eq!(err.message(), "no lsblk");
}

#[test]
fn disk_seq_reading() {
    let e = DeviceEntry::new("/dev/sda");
    assert_eq!(e.get_new_disk_seq(&SysfsRead::OpenFailed("x".to_string())).unwrap(), 0);
    assert_eq!(e.get_new_disk_seq(&contents(" 17\n")).unwrap(), 17);
    let err = e.get_new_disk_seq(&contents(" \n")).unwrap_err();
    assert_eq!(err.message(), "DeviceEntry:sda: : Diskseq is empty!");
    let err = e.get_new_disk_seq(&contents("12a")).unwrap_err();
    assert_eq!(err.message(), "invalid digit found in string");
    let err = e.get_new_disk_seq(&contents("99999999999999999999")).unwrap_err();
    assert_eq!(err.message(), "number too large to fit in target type");
    let err = e.get_new_disk_seq(&SysfsRead::ReadFailed("io".to_string())).unwrap_err();
    assert_eq!(err.message(), "io");
}

#[test]
fn init_device_entry_with_fills_the_entry() {
    let mut e = DeviceEntry::new("/dev/sda");
    e.init_device_entry_with(Some("2025-07-31 10:00:00.0 +00:00:00".to_string()), &probe("SN1", &line(100)))
        .unwrap();
    assert!(e.is_active);
    assert_eq!(e.serial_number, "SN1");
    assert_eq!(e.stat_path, "/sys/block/sda/stat");
    assert_eq!(e.first_sithing_date, "2025-07-31 10:00:00.0 +00:00:00");
    assert_eq!(e.previous_stats.write_sectors, 100);

    // A date already set is kept, and the clock is not needed.
    let mut e = DeviceEntry::new("/dev/sda");
    e.first_sithing_date = "31.07.2025".to_string();
    e.init_device_entry_with(None, &probe("SN1", &line(1))).unwrap();
    assert_eq!(e.first_sithing_date, "31.07.2025");

    // Without a clock reading an empty date cannot be filled.
    let mut e = DeviceEntry::new("/dev/sda");
    let err = e.init_device_entry_with(None, &probe("SN1", &line(1))).unwrap_err();
    assert!(matches!(err, DeviceError::LocalOffset));
    assert_eq!(err.message(), "The system's UTC offset could not be determined");

    let mut e = DeviceEntry::new("/dev/sda");
    let mut p = probe("SN1", &line(1));
    p.stat_path_exists = false;
    let err = e.init_device_entry_with(Some("d".to_string()), &p).unwrap_err();
    assert_eq!(err.message(), "DeviceEntry:sda: : Path: sda does not exist");
    assert_eq!(e.stat_path, "/sys/block/sda/stat");
    assert!(!e.is_active);
}

#[test]
fn init_device_entry_reads_the_clock_when_needed() {
    let mut e = DeviceEntry::new("/dev/sda");
    match e.init_device_entry(&probe("SN1", &line(1))) {
        Ok(()) => {
            assert!(!e.first_sithing_date.is_empty());
            assert!(e.is_active);
        }
        Err(err) => assert!(matches!(err, DeviceError::LocalOffset)),
    }
    let mut e = DeviceEntry::new("/dev/sda");
    e.first_sithing_date = "kept".to_string();
    e.init_device_entry(&probe("SN1", &line(1))).unwrap();
    assert_eq!(e.first_sithing_date, "kept");
}

#[test]
fn update_stats_scenarios() {
    let base = {
        let mut e = DeviceEntry::new("/dev/sda");
        e.previous_stats = BlockStats::new(&line(100));
        e.disk_seq = 5;
        e
    };
    let seq5 = contents("5\n");

    // Nothing changed.
    let mut e = base.clone();
    assert!(!e.update_stats(BlockStats::new(&line(100)), &seq5, &contents(&line(100))).unwrap());
    assert_eq!(e.total_bytes_written, 0);
    assert_eq!(e.stored_stats, BlockStats::default());

    // 50 sectors written; the base becomes the re-read counters.
    let mut e = base.clone();
    assert!(e.update_stats(BlockStats::new(&line(150)), &seq5, &contents(&line(151))).unwrap());
    assert_eq!(e.total_bytes_written, 50 * 512);
    assert_eq!(e.stored_stats.write_sectors, 50);
    assert_eq!(e.stored_stats.read_io, 0);
    assert_eq!(e.previous_stats.write_sectors, 151);
    assert_eq!(e.total_bytes_written, e.stored_stats.write_sectors as u128 * 512);

    // The same reading again, once the base caught up, changes nothing.
    let mut again = base.clone();
    again.update_stats(BlockStats::new(&line(150)), &seq5, &contents(&line(150))).unwrap();
    let snapshot = again.clone();
    assert!(!again.update_stats(BlockStats::new(&line(150)), &seq5, &contents(&line(999))).unwrap());
    assert_eq!(again.total_bytes_written, snapshot.total_bytes_written);
    assert_eq!(again.stored_stats, snapshot.stored_stats);

    // Reading the stat file again after a change, and taking that reading,
    // counts nothing more and changes nothing.
    let mut e = base.clone();
    let after = line(180);
    assert!(e.update_stats(BlockStats::new(&line(150)), &seq5, &contents(&after)).unwrap());
    let snapshot = e.clone();
    let s = e.get_new_stats(&contents(&after)).unwrap();
    assert!(!e.update_stats(s, &seq5, &contents(&line(500))).unwrap());
    assert_eq!(e.total_bytes_written, snapshot.total_bytes_written);
    assert_eq!(e.stored_stats, snapshot.stored_stats);
    assert_eq!(e.previous_stats, snapshot.previous_stats);
    assert_eq!(e.disk_seq, snapshot.disk_seq);

    // A new disk sequence number: counted from zero.
    let mut e = base.clone();
    assert!(e.update_stats(BlockStats::new(&line(30)), &contents("6"), &contents(&line(30))).unwrap());
    assert_eq!(e.disk_seq, 6);
    assert_eq!(e.total_bytes_written, 30 * 512);
    assert_eq!(e.stored_stats, BlockStats::new(&line(30)));

    // No diskseq file (old kernels): sequence 0 counts as a change from 5.
    let mut e = base.clone();
    assert!(e.update_stats(BlockStats::new(&line(30)), &SysfsRead::OpenFailed("x".to_string()), &contents(&line(30))).unwrap());
    assert_eq!(e.disk_seq, 0);

    // Errors.
    let mut e = base.clone();
    let err = e.update_stats(BlockStats::new(&line(150)), &contents(""), &contents(&line(150))).unwrap_err();
    assert_eq!(err.message(), "DeviceEntry:sda: : Diskseq is empty!");
    assert_eq!(e.disk_seq, 5);
    let mut e = base.clone();
    let err = e
        .update_stats(BlockStats::new(&line(150)), &seq5, &SysfsRead::ReadFailed("gone".to_string()))
        .unwrap_err();
    assert_eq!(err.message(), "gone");
    assert_eq!(e.total_bytes_written, 50 * 512);
    assert_eq!(e.previous_stats.write_sectors, 100);
    assert!(e.update_is_defined(&BlockStats::new(&line(150)), &seq5));
    assert!(!base.update_is_defined(&BlockStats::new(&line(50)), &seq5));
}

#[test]
fn get_new_stats_parses_or_fails() {
    let e = DeviceEntry::new("/dev/sda");
    assert_eq!(e.get_new_stats(&contents(&line(7))).unwrap().write_sectors, 7);
    assert_eq!(e.get_new_stats(&SysfsRead::OpenFailed("no".to_string())).unwrap_err().message(), "no");
}

#[test]
fn copy_volatile_fields_keeps_totals() {
    let mut stored = stored_entry("/dev/mmcblk4");
    let mut fresh = DeviceEntry::new("/dev/mmcblk0");
    fresh.stat_path = "/sys/block/mmcblk0/stat".to_string();
    fresh.previous_stats = BlockStats::new(&line(3));
    fresh.is_active = true;
    stored.copy_volatile_fields(&fresh);
    assert_eq!(stored.current_path, "/dev/mmcblk0");
    assert_eq!(stored.device_name, "mmcblk0");
    assert_eq!(stored.stat_path, "/sys/block/mmcblk0/stat");
    assert_eq!(stored.previous_stats.write_sectors, 3);
    assert_eq!(stored.first_sithing_date, "31.07.2025");
    assert_eq!(stored.total_bytes_written, 200);
    assert_eq!(stored.previous_path, "/dev/mmcblk4");
}

#[test]
fn previous_device_entry_in_stat_file_does_not_exist() {
    let mut stats = DeviceStats::new();
    stats.insert("0xdeadface".to_string(), stored_entry("/dev/mmcblk0"));
    let path = vec!["/dev/mmcblk0".to_string()];
    if let Err(e) = merge_existing_device_stats_with(
        &path,
        &[probe("SN-CARD", &line(1))],
        &[Some("now".to_string())],
        &mut stats,
    ) {
        assert!(false, "{}", e.message());
    }
    assert!(stats.len() == 2, "The stat file should be of length 2 and is {}", stats.len());
    let added = stats.get("SN-CARD").unwrap();
    assert!(added.is_active);
    assert_eq!(added.first_sithing_date, "now");
}

#[test]
fn previous_device_entry_in_stat_file_does_exist() {
    let serial = "SN-CARD".to_string();
    let mut stats = DeviceStats::new();
    stats.insert(serial.clone(), stored_entry("/dev/mmcblk4"));
    let dev = "/dev/mmcblk0".to_string();
    let path = vec![dev.clone()];
    if let Err(e) = merge_existing_device_stats_with(
        &path,
        &[probe(&serial, &line(1))],
        &[Some("now".to_string())],
        &mut stats,
    ) {
        assert!(false, "{}", e.message());
    }
    let device = stats.get(&serial).unwrap();
    assert!(
        stats.len() == 1 && device.first_sithing_date == "31.07.2025" && device.current_path == dev,
        "The stat file should be of length 1 and is {} path is {} date is {}",
        stats.len(),
        device.current_path,
        device.first_sithing_date
    );
    assert_eq!(device.total_bytes_written, 200);
    assert!(device.is_active);
}

#[test]
fn merge_keeps_first_device_per_serial_and_stops_at_errors() {
    let mut stats = DeviceStats::new();
    let paths = vec!["/dev/sda".to_string(), "/dev/sdb".to_string()];
    merge_existing_device_stats_with(
        &paths,
        &[probe("SAME", &line(1)), probe("SAME", &line(2))],
        &[Some("a".to_string()), Some("b".to_string())],
        &mut stats,
    )
    .unwrap();
    assert_eq!(stats.len(), 1);
    assert_eq!(stats.get("SAME").unwrap().current_path, "/dev/sda");

    let mut stats = DeviceStats::new();
    stats.insert("OLD".to_string(), stored_entry("/dev/x"));
    let mut bad = probe("SN2", &line(1));
    bad.stat_file = SysfsRead::OpenFailed("denied".to_string());
    let err = merge_existing_device_stats_with(
        &paths,
        &[probe("SN1", &line(1)), bad],
        &[Some("a".to_string()), Some("b".to_string())],
        &mut stats,
    )
    .unwrap_err();
    assert_eq!(err.message(), "denied");
    assert_eq!(stats.len(), 1);
    assert!(stats.get("SN1").is_none());

    // With the clock: either it worked or the offset was unknown.
    let mut stats = DeviceStats::new();
    match merge_existing_device_stats(&paths[..1], &[probe("SN1", &line(1))], &mut stats) {
        Ok(()) => assert_eq!(stats.len(), 1),
        Err(e) => {
            assert!(matches!(e, DeviceError::LocalOffset));
            assert_eq!(stats.len(), 0);
        }
    }
}

fn reading(serial: &str, current: Option<BlockStats>, seq: &str, after: &str) -> DeviceReading {
    DeviceReading {
        serial: serial.to_string(),
        current,
        disk_seq_file: contents(seq),
        stat_file: contents(after),
    }
}

#[test]
fn update_devices_stats_takes_named_readings() {
    let mut a = DeviceEntry::new("/dev/sda");
    a.previous_stats = BlockStats::new(&line(10));
    let mut b = DeviceEntry::new("/dev/sdb");
    b.previous_stats = BlockStats::new(&line(20));
    let mut stats = DeviceStats::from_entries(vec![("A".to_string(), a), ("B".to_string(), b)]);
    let readings = vec![
        reading("A", Some(BlockStats::new(&line(12))), "0", &line(12)),
        reading("B", None, "0", &line(99)),
        reading("C", Some(BlockStats::new(&line(1))), "0", &line(1)),
    ];
    assert!(readings_are_defined(&readings, &stats));
    assert!(update_devices_stats(&readings, &mut stats).unwrap());
    assert_eq!(stats.get("A").unwrap().total_bytes_written, 2 * 512);
    assert_eq!(stats.get("B").unwrap().total_bytes_written, 0);
    assert_eq!(stats.len(), 2);
    let again = vec![reading("A", Some(BlockStats::new(&line(12))), "0", &line(12))];
    assert!(!update_devices_stats(&again, &mut stats).unwrap());
    let backwards = vec![reading("A", Some(BlockStats::new(&line(1))), "0", &line(1))];
    assert!(!readings_are_defined(&backwards, &stats));
}

#[test]
fn json_stats_dir_not_existing() {
    let stats = init_device_stats("/tmp/krillkounter3/stats.json");
    assert!(
        stats.is_ok(),
        "Expected no error message, but got '{}'",
        stats.unwrap_err().message(),
    );
    assert_eq!(init_device_stats("/tmp/krillkounter3/stats.json").unwrap(), "/tmp/krillkounter3");
}

#[test]
fn json_stats_file_not_existing_dir_existing() {
    let stats = init_device_stats("/tmp/krillkounter4/stats.json");
    assert!(
        stats.is_ok(),
        "Expected no error message, but got '{}'",
        stats.unwrap_err().message(),
    );
}

#[test]
fn json_stats_unwritable_stat_path() {
    let expected = "JSON Stats: Path: /usr/bin is unwritable !";
    let parent = init_device_stats("/usr/bin/stats.json").unwrap();
    let err = StatsError::Unwritable(parent);
    assert!(
        err.message().contains(expected),
        "Expected error message to contain '{}', but got '{}'",
        expected,
        err.message(),
    );
}

#[test]
fn json_stats_path_checks() {
    let err = init_device_stats("/tmp/stats.txt").unwrap_err();
    assert_eq!(err.message(), "JSON Stats: /tmp/stats.txt is not a JSON format !");
    assert!(init_device_stats("/tmp/json").is_err());
    assert_eq!(init_device_stats("stats.json").unwrap(), "");
    let err = check_stats_path("x.json", Some("json".to_string()), None).unwrap_err();
    assert_eq!(err.message(), "JSON Stats: Do not store the stat json file in rootdir !");
    let err = init_device_stats("/stats.json").unwrap_err();
    assert!(matches!(err, StatsError::InRootDir));
    assert_eq!(err.message(), "JSON Stats: Do not store the stat json file in rootdir !");
    let err = check_stats_path("/stats.json", Some("json".to_string()), Some("/".to_string())).unwrap_err();
    assert!(matches!(err, StatsError::InRootDir));
    assert_eq!(init_device_stats("/a/stats.json").unwrap(), "/a");
}

#[test]
fn krill_kounter_lifecycle() {
    let config = DaemonConfig {
        config_file_path: "/etc/kk.json".to_string(),
        stats_file_path: "/var/kk/stats.json".to_string(),
        update_rate: 60,
    };
    let device_config = DeviceConfig {
        device_paths: vec!["/dev/sda".to_string()],
        stats_file_path: "/var/kk/stats.json".to_string(),
    };
    let mut stats = DeviceStats::new();
    stats.insert("SN1".to_string(), stored_entry("/dev/sdz"));
    match KrillKounter::init(&config, &device_config, stats, &[probe("SN1", &line(10))]) {
        Ok(mut k) => {
            assert_eq!(k.update_rate(), 60);
            assert_eq!(k.stats_file_path(), "/var/kk/stats.json");
            let active = k.active_entries();
            assert_eq!(active.len(), 1);
            assert_eq!(active[0].0, "SN1");
            assert_eq!(active[0].1.stat_path, "/sys/block/sda/stat");
            let readings = vec![reading("SN1", Some(BlockStats::new(&line(14))), "40", &line(14))];
            assert!(k.readings_are_defined(&readings));
            assert!(k.update_stats(&readings).unwrap());
            assert_eq!(k.stats().get("SN1").unwrap().total_bytes_written, 200 + 4 * 512);
            assert_eq!(k.log_prefix(), "KrillKounter: ");
        }
        Err(e) => assert!(matches!(e, DeviceError::LocalOffset)),
    }
}
