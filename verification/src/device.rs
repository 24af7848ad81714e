//! One monitored block device: its persistent totals, the in-memory state used
//! to compute increments, and the rules by which both change.
use vstd::prelude::*;

use crate::block::{parse_into, zero_fields, BlockStats};
use crate::clock::local_date_time;
use crate::device_stats::{keys_distinct, pairs_map, DeviceStats};
use crate::log_prefix::LogPrefix;
use crate::paths::{extension_of, parent_of, path_extension, path_parent};
use crate::text::{
    chars_of, str_eq, parse_u64, parse_u64_result, signed_decimal, signed_decimal_string, trim,
    trimmed, words, IntErrorKind,
};

verus! {

broadcast use vstd::string::group_string_axioms;

/// The size of one sector, in bytes.
pub const SECTOR_SIZE: u128 = 512;

// ---------------------------------------------------------------------------
// What the daemon learns from the system
// ---------------------------------------------------------------------------
/// What came of reading one file under sysfs.
#[derive(Clone, Debug)]
pub enum SysfsRead {
    /// The file could not be opened; the text is the I/O error.
    OpenFailed(String),
    /// The file was opened but could not be read; the text is the I/O error.
    ReadFailed(String),
    /// The whole text of the file.
    Contents(String),
}

/// What came of running `lsblk -r -n -o serial /dev/<name> -a`.
#[derive(Clone, Debug)]
pub enum LsblkRun {
    /// The command could not be started; the text is the I/O error.
    SpawnFailed(String),
    /// The command succeeded but its output is not UTF-8; the text is the
    /// decoding error.
    NotUtf8(String),
    /// The command succeeded; its standard output.
    Succeeded(String),
    /// The command failed with an exit code; its standard error.
    Failed { code: i32, stderr: String },
}

/// Everything that initialising a device entry reads from the system.
#[derive(Clone, Debug)]
pub struct DeviceProbe {
    /// Whether `/sys/block/<name>/stat` exists.
    pub stat_path_exists: bool,
    /// The file `/sys/block/<name>/device/serial`.
    pub serial_file: SysfsRead,
    /// The `lsblk` query for the serial number.
    pub lsblk: LsblkRun,
    /// The file `/sys/block/<name>/stat`.
    pub stat_file: SysfsRead,
}

// ---------------------------------------------------------------------------
// Errors
// ---------------------------------------------------------------------------
/// Why work on a device entry failed.
#[derive(Clone, Debug)]
pub enum DeviceError {
    /// The local UTC offset could not be determined.
    LocalOffset,
    /// `/sys/block/<name>/stat` does not exist.
    StatPathMissing { device_name: String },
    /// Neither sysfs nor `lsblk` gave a serial number.
    NoSerial { device_name: String },
    /// `lsblk` could not be started; the I/O error.
    LsblkSpawn(String),
    /// `lsblk` wrote something that is not UTF-8; the decoding error.
    LsblkNotUtf8(String),
    /// `lsblk` failed.
    LsblkFailed { device_name: String, code: i32, stderr: String },
    /// The stat file could not be read; the I/O error.
    StatRead(String),
    /// The disk sequence file could not be read; the I/O error.
    DiskSeqRead(String),
    /// The disk sequence file is blank.
    DiskSeqEmpty { device_name: String },
    /// The disk sequence file does not hold a `u64`.
    DiskSeqInvalid(IntErrorKind),
    /// The byte total would exceed `u128::MAX`.
    TotalOverflow { device_name: String },
}

/// A `DeviceError` with its texts as character sequences.
pub enum DeviceErrorView {
    LocalOffset,
    StatPathMissing { device_name: Seq<char> },
    NoSerial { device_name: Seq<char> },
    LsblkSpawn(Seq<char>),
    LsblkNotUtf8(Seq<char>),
    LsblkFailed { device_name: Seq<char>, code: i32, stderr: Seq<char> },
    StatRead(Seq<char>),
    DiskSeqRead(Seq<char>),
    DiskSeqEmpty { device_name: Seq<char> },
    DiskSeqInvalid(IntErrorKind),
    TotalOverflow { device_name: Seq<char> },
}

impl View for DeviceError {
    type V = DeviceErrorView;

    open spec fn view(&self) -> DeviceErrorView {
        match self {
            DeviceError::LocalOffset => DeviceErrorView::LocalOffset,
            DeviceError::StatPathMissing { device_name } => DeviceErrorView::StatPathMissing {
                device_name: device_name@,
            },
            DeviceError::NoSerial { device_name } => DeviceErrorView::NoSerial {
                device_name: device_name@,
            },
            DeviceError::LsblkSpawn(m) => DeviceErrorView::LsblkSpawn(m@),
            DeviceError::LsblkNotUtf8(m) => DeviceErrorView::LsblkNotUtf8(m@),
            DeviceError::LsblkFailed { device_name, code, stderr } =>
                DeviceErrorView::LsblkFailed {
                device_name: device_name@,
                code: *code,
                stderr: stderr@,
            },
            DeviceError::StatRead(m) => DeviceErrorView::StatRead(m@),
            DeviceError::DiskSeqRead(m) => DeviceErrorView::DiskSeqRead(m@),
            DeviceError::DiskSeqEmpty { device_name } => DeviceErrorView::DiskSeqEmpty {
                device_name: device_name@,
            },
            DeviceError::DiskSeqInvalid(k) => DeviceErrorView::DiskSeqInvalid(*k),
            DeviceError::TotalOverflow { device_name } => DeviceErrorView::TotalOverflow {
                device_name: device_name@,
            },
        }
    }
}

/// A result with its error taken by its view.
pub open spec fn result_view<T>(r: Result<T, DeviceError>) -> Result<T, DeviceErrorView> {
    match r {
        Ok(v) => Ok(v),
        Err(e) => Err(e@),
    }
}

/// A message of a device entry: `"DeviceEntry:<name>: : <msg>"`.
pub open spec fn entry_message(device_name: Seq<char>, msg: Seq<char>) -> Seq<char> {
    "DeviceEntry:"@ + device_name + ": "@ + ": "@ + msg
}

/// The text of `core::num::ParseIntError` for each kind.
pub open spec fn int_error_text(k: IntErrorKind) -> Seq<char> {
    match k {
        IntErrorKind::Empty => "cannot parse integer from empty string"@,
        IntErrorKind::InvalidDigit => "invalid digit found in string"@,
        IntErrorKind::PosOverflow => "number too large to fit in target type"@,
    }
}

/// The text of each error.
pub open spec fn error_text(e: DeviceErrorView) -> Seq<char> {
    match e {
        DeviceErrorView::LocalOffset => "The system's UTC offset could not be determined"@,
        DeviceErrorView::StatPathMissing { device_name } => entry_message(
            device_name,
            "Path: "@ + device_name + " does not exist"@,
        ),
        DeviceErrorView::NoSerial { device_name } => entry_message(
            device_name,
            "Could not get a serial number for block device"@,
        ),
        DeviceErrorView::LsblkSpawn(m) => m,
        DeviceErrorView::LsblkNotUtf8(m) => m,
        DeviceErrorView::LsblkFailed { device_name, code, stderr } => entry_message(
            device_name,
            "The lsblk command failed: unable to get serial number! \nExit status is : "@
                + signed_decimal(code as int) + " \nStderr "@ + stderr + " "@,
        ),
        DeviceErrorView::StatRead(m) => m,
        DeviceErrorView::DiskSeqRead(m) => m,
        DeviceErrorView::DiskSeqEmpty { device_name } => entry_message(
            device_name,
            "Diskseq is empty!"@,
        ),
        DeviceErrorView::DiskSeqInvalid(k) => int_error_text(k),
        DeviceErrorView::TotalOverflow { device_name } => entry_message(
            device_name,
            "340 undecillion of bytes written, well done !"@,
        ),
    }
}

/// `"DeviceEntry:<name>: : <msg>"`.
fn entry_log(device_name: &str, msg: &str) -> (r: String)
    ensures
        r@ == entry_message(device_name@, msg@),
{
    let mut s = String::from_str("DeviceEntry:");
    s.append(device_name);
    s.append(": ");
    s.append(": ");
    s.append(msg);
    s
}

fn int_error_message(k: IntErrorKind) -> (r: String)
    ensures
        r@ == int_error_text(k),
{
    match k {
        IntErrorKind::Empty => String::from_str("cannot parse integer from empty string"),
        IntErrorKind::InvalidDigit => String::from_str("invalid digit found in string"),
        IntErrorKind::PosOverflow => String::from_str("number too large to fit in target type"),
    }
}

impl DeviceError {
    /// The text of the error.
    pub fn message(&self) -> (r: String)
        ensures
            r@ == error_text(self@),
    {
        match self {
            DeviceError::LocalOffset => String::from_str(
                "The system's UTC offset could not be determined",
            ),
            DeviceError::StatPathMissing { device_name } => {
                let mut msg = String::from_str("Path: ");
                msg.append(device_name.as_str());
                msg.append(" does not exist");
                entry_log(device_name.as_str(), msg.as_str())
            },
            DeviceError::NoSerial { device_name } => entry_log(
                device_name.as_str(),
                "Could not get a serial number for block device",
            ),
            DeviceError::LsblkSpawn(m) => m.clone(),
            DeviceError::LsblkNotUtf8(m) => m.clone(),
            DeviceError::LsblkFailed { device_name, code, stderr } => {
                let mut msg = String::from_str(
                    "The lsblk command failed: unable to get serial number! \nExit status is : ",
                );
                let code_text = signed_decimal_string(*code);
                msg.append(code_text.as_str());
                msg.append(" \nStderr ");
                msg.append(stderr.as_str());
                msg.append(" ");
                entry_log(device_name.as_str(), msg.as_str())
            },
            DeviceError::StatRead(m) => m.clone(),
            DeviceError::DiskSeqRead(m) => m.clone(),
            DeviceError::DiskSeqEmpty { device_name } => entry_log(
                device_name.as_str(),
                "Diskseq is empty!",
            ),
            DeviceError::DiskSeqInvalid(k) => int_error_message(*k),
            DeviceError::TotalOverflow { device_name } => entry_log(
                device_name.as_str(),
                "340 undecillion of bytes written, well done !",
            ),
        }
    }
}

// ---------------------------------------------------------------------------
// The entry
// ---------------------------------------------------------------------------
/// One monitored device. The totals (`first_sithing_date`, `stored_stats`,
/// `total_bytes_written`, `disk_seq`) persist across runs; the rest lives only
/// in memory.
pub struct DeviceEntry {
    /// When the device was first seen.
    pub first_sithing_date: String,
    /// The device node under which the device was stored last time.
    pub previous_path: String,
    /// The device node of the device now.
    pub current_path: String,
    /// The counters accumulated over the device's life.
    pub stored_stats: BlockStats,
    /// Bytes written over the device's life.
    pub total_bytes_written: u128,
    /// The kernel's disk sequence number when last read (0 where the kernel has none).
    pub disk_seq: u64,
    /// The counters as last read; increments are measured from them.
    pub previous_stats: BlockStats,
    /// Whether the device is present and being read.
    pub is_active: bool,
    /// The device's serial number.
    pub serial_number: String,
    /// The device's name under `/dev` and `/sys/block`.
    pub device_name: String,
    /// The path of the device's stat file.
    pub stat_path: String,
}

/// A `DeviceEntry` with its texts as character sequences.
pub struct DeviceEntryView {
    pub first_sithing_date: Seq<char>,
    pub previous_path: Seq<char>,
    pub current_path: Seq<char>,
    pub stored_stats: BlockStats,
    pub total_bytes_written: u128,
    pub disk_seq: u64,
    pub previous_stats: BlockStats,
    pub is_active: bool,
    pub serial_number: Seq<char>,
    pub device_name: Seq<char>,
    pub stat_path: Seq<char>,
}

impl View for DeviceEntry {
    type V = DeviceEntryView;

    open spec fn view(&self) -> DeviceEntryView {
        DeviceEntryView {
            first_sithing_date: self.first_sithing_date@,
            previous_path: self.previous_path@,
            current_path: self.current_path@,
            stored_stats: self.stored_stats,
            total_bytes_written: self.total_bytes_written,
            disk_seq: self.disk_seq,
            previous_stats: self.previous_stats,
            is_active: self.is_active,
            serial_number: self.serial_number@,
            device_name: self.device_name@,
            stat_path: self.stat_path@,
        }
    }
}

/// An entry with every text empty, every number zero and not active.
pub open spec fn default_entry() -> DeviceEntryView {
    DeviceEntryView {
        first_sithing_date: Seq::empty(),
        previous_path: Seq::empty(),
        current_path: Seq::empty(),
        stored_stats: BlockStats::zero_stats(),
        total_bytes_written: 0,
        disk_seq: 0,
        previous_stats: BlockStats::zero_stats(),
        is_active: false,
        serial_number: Seq::empty(),
        device_name: Seq::empty(),
        stat_path: Seq::empty(),
    }
}

/// A path that starts with `/dev/`.
pub open spec fn dev_prefixed(path: Seq<char>) -> bool {
    path.len() >= 5 && path.take(5) == "/dev/"@
}

/// The entry made for the device node `path`: its name is what follows `/dev/`.
pub open spec fn new_entry(path: Seq<char>) -> DeviceEntryView {
    DeviceEntryView { current_path: path, device_name: path.skip(5), ..default_entry() }
}

/// `/sys/block/<name>/stat`.
pub open spec fn stat_path_of(device_name: Seq<char>) -> Seq<char> {
    "/sys/block/"@ + device_name + "/stat"@
}

/// `/sys/block/<name>/device/serial`.
pub open spec fn serial_path_of(device_name: Seq<char>) -> Seq<char> {
    "/sys/block/"@ + device_name + "/device/serial"@
}

/// `/sys/block/<name>/diskseq`.
pub open spec fn disk_seq_path_of(device_name: Seq<char>) -> Seq<char> {
    "/sys/block/"@ + device_name + "/diskseq"@
}

/// `/dev/<name>`.
pub open spec fn dev_node_of(device_name: Seq<char>) -> Seq<char> {
    "/dev/"@ + device_name
}

/// Whether `path` starts with `/dev/` (so that it can name an entry).
pub fn has_dev_prefix(path: &str) -> (r: bool)
    ensures
        r == dev_prefixed(path@),
{
    proof {
        reveal_strlit("/dev/");
    }
    let cs = chars_of(path);
    if cs.len() < 5 {
        return false;
    }
    let r = cs[0] == '/' && cs[1] == 'd' && cs[2] == 'e' && cs[3] == 'v' && cs[4] == '/';
    proof {
        let p = "/dev/"@;
        assert(p.len() == 5 && p[0] == '/' && p[1] == 'd' && p[2] == 'e' && p[3] == 'v' && p[4]
            == '/');
        if r {
            assert(cs@.take(5) =~= p);
        } else if cs@.take(5) == p {
            assert(cs@.take(5)[0] == cs@[0] && cs@.take(5)[1] == cs@[1] && cs@.take(5)[2]
                == cs@[2] && cs@.take(5)[3] == cs@[3] && cs@.take(5)[4] == cs@[4]);
        }
    }
    r
}

fn concat3(a: &str, b: &str, c: &str) -> (r: String)
    ensures
        r@ == a@ + b@ + c@,
{
    let mut s = String::from_str(a);
    s.append(b);
    s.append(c);
    s
}

impl DeviceEntry {
    /// The entry for the device node `device_path`, which must start with
    /// `/dev/`: its name is the rest of the path; everything else is empty,
    /// zero or false until it is initialised.
    pub fn new(device_path: &str) -> (r: Self)
        requires
            dev_prefixed(device_path@),
        ensures
            r@ == new_entry(device_path@),
    {
        proof {
            reveal_strlit("/dev/");
        }
        let n = device_path.unicode_len();
        let device_name = String::from_str(device_path.substring_char(5, n));
        let mut r = DeviceEntry::default();
        r.device_name = device_name;
        r.current_path = String::from_str(device_path);
        assert(r@.device_name =~= device_path@.skip(5));
        r
    }

    /// The path of this device's stat file, `/sys/block/<name>/stat`.
    pub fn stat_path_for(device_name: &str) -> (r: String)
        ensures
            r@ == stat_path_of(device_name@),
    {
        concat3("/sys/block/", device_name, "/stat")
    }

    /// The path of this device's serial-number file, `/sys/block/<name>/device/serial`.
    pub fn serial_path(&self) -> (r: String)
        ensures
            r@ == serial_path_of(self.device_name@),
    {
        concat3("/sys/block/", self.device_name.as_str(), "/device/serial")
    }

    /// The path of this device's disk-sequence file, `/sys/block/<name>/diskseq`.
    pub fn disk_seq_path(&self) -> (r: String)
        ensures
            r@ == disk_seq_path_of(self.device_name@),
    {
        concat3("/sys/block/", self.device_name.as_str(), "/diskseq")
    }

    /// The device node, `/dev/<name>`, that `lsblk` is asked about.
    pub fn dev_node(&self) -> (r: String)
        ensures
            r@ == dev_node_of(self.device_name@),
    {
        let mut s = String::from_str("/dev/");
        s.append(self.device_name.as_str());
        s
    }

    /// The counters read from the text of this device's stat file; an error
    /// where the file could not be read.
    pub fn get_new_stats(&self, stat_file: &SysfsRead) -> (r: Result<BlockStats, DeviceError>)
        ensures
            result_view(r) == new_stats_outcome(*stat_file),
    {
        match stat_file {
            SysfsRead::Contents(c) => Ok(BlockStats::new(c.as_str())),
            SysfsRead::OpenFailed(m) => Err(DeviceError::StatRead(m.clone())),
            SysfsRead::ReadFailed(m) => Err(DeviceError::StatRead(m.clone())),
        }
    }

    /// The disk sequence number from its sysfs file: 0 where the file does not
    /// open (kernels before 5.12 have none), an error where it cannot be read,
    /// is blank, or does not hold a number.
    pub fn get_new_disk_seq(&self, disk_seq_file: &SysfsRead) -> (r: Result<u64, DeviceError>)
        ensures
            result_view(r) == disk_seq_outcome(self.device_name@, *disk_seq_file),
    {
        match disk_seq_file {
            SysfsRead::OpenFailed(_) => Ok(0),
            SysfsRead::ReadFailed(m) => Err(DeviceError::DiskSeqRead(m.clone())),
            SysfsRead::Contents(c) => {
                let t = trim(c.as_str());
                if t.unicode_len() == 0 {
                    Err(DeviceError::DiskSeqEmpty { device_name: self.device_name.clone() })
                } else {
                    let cs = chars_of(t.as_str());
                    match parse_u64(cs.as_slice()) {
                        Ok(v) => Ok(v),
                        Err(k) => Err(DeviceError::DiskSeqInvalid(k)),
                    }
                }
            },
        }
    }

    /// The serial number: the trimmed contents of the sysfs serial file when
    /// that reads and is not blank; otherwise what `lsblk` printed, trimmed.
    /// An error where `lsblk` fails, or where the serial number is blank.
    pub fn get_serial_number(&self, serial_file: &SysfsRead, lsblk: &LsblkRun) -> (r: Result<
        String,
        DeviceError,
    >)
        ensures
            match (r, serial_outcome(self.device_name@, *serial_file, *lsblk)) {
                (Ok(s), Ok(t)) => s@ == t,
                (Err(e), Err(f)) => e@ == f,
                _ => false,
            },
            // A serial file that reads and is not blank gives the serial: all
            // of its trimmed contents.
            serial_file matches SysfsRead::Contents(c) ==> (trimmed(c@).len() > 0 ==> (r matches Ok(
                s,
            ) && s@ == trimmed(c@))),
            // Otherwise a succeeding lsblk that prints a non-blank line gives it.
            (!(serial_file is Contents) || trimmed(serial_file->Contents_0@).len() == 0) ==> (
            lsblk matches LsblkRun::Succeeded(out) ==> (trimmed(out@).len() > 0 ==> (r matches Ok(s)
                && s@ == trimmed(out@)))),
    {
        proof {
            lemma_serial_prefers_sysfs(self.device_name@, *serial_file, *lsblk);
        }
        let from_block: Option<String> = match serial_file {
            SysfsRead::Contents(c) => Some(trim(c.as_str())),
            _ => None,
        };
        let serial = match from_block {
            Some(s) if s.unicode_len() > 0 => s,
            _ => match lsblk {
                LsblkRun::SpawnFailed(m) => {
                    return Err(DeviceError::LsblkSpawn(m.clone()));
                },
                LsblkRun::NotUtf8(m) => {
                    return Err(DeviceError::LsblkNotUtf8(m.clone()));
                },
                LsblkRun::Succeeded(out) => trim(out.as_str()),
                LsblkRun::Failed { code, stderr } => {
                    return Err(
                        DeviceError::LsblkFailed {
                            device_name: self.device_name.clone(),
                            code: *code,
                            stderr: stderr.clone(),
                        },
                    );
                },
            },
        };
        if serial.unicode_len() == 0 {
            return Err(DeviceError::NoSerial { device_name: self.device_name.clone() });
        }
        Ok(serial)
    }

    /// Takes over from `entry` the fields that are not stored: whether it is
    /// active, its current path, name, last-read counters and stat path.
    pub fn copy_volatile_fields(&mut self, entry: &DeviceEntry)
        ensures
            final(self)@ == with_volatile_fields(old(self)@, entry@),
    {
        self.is_active = entry.is_active;
        self.current_path = entry.current_path.clone();
        self.device_name = entry.device_name.clone();
        self.previous_stats = entry.previous_stats;
        self.stat_path = entry.stat_path.clone();
    }

    /// Adds the bytes written between two readings of the write-sector
    /// counter to `total_bytes_written`. A reading below the previous one
    /// means that the kernel's `unsigned long` counter wrapped around (the
    /// width of `unsigned long` is that of `usize` on Linux). An error, with
    /// the entry unchanged, where the total would exceed `u128::MAX`.
    pub fn compute_total_bytes_written(
        &mut self,
        current_write_sectors: u64,
        previous_write_sectors: u64,
    ) -> (r: Result<(), DeviceError>)
        requires
            current_write_sectors < previous_write_sectors ==> previous_write_sectors
                <= ulong_max() + 1,
        ensures
            match added_total(
                old(self).total_bytes_written,
                current_write_sectors,
                previous_write_sectors,
            ) {
                Some(t) => r is Ok && final(self)@ == DeviceEntryView {
                    total_bytes_written: t,
                    ..old(self)@
                },
                None => result_view(r) == Err::<(), DeviceErrorView>(
                    DeviceErrorView::TotalOverflow { device_name: old(self).device_name@ },
                ) && final(self)@ == old(self)@,
            },
    {
        let previous: u128 = previous_write_sectors as u128;
        let current: u128 = current_write_sectors as u128;
        let byte_difference: u128 = if current_write_sectors < previous_write_sectors {
            let mut diff: u128 = ((usize::MAX as u128) + 1 - previous) * SECTOR_SIZE;
            diff = diff + current * SECTOR_SIZE;
            diff
        } else {
            (current - previous) * SECTOR_SIZE
        };
        match self.total_bytes_written.checked_add(byte_difference) {
            Some(total) => {
                self.total_bytes_written = total;
                Ok(())
            },
            None => Err(DeviceError::TotalOverflow { device_name: self.device_name.clone() }),
        }
    }
}

impl DeviceEntry {
    /// Initialises the entry from what was read of the system, and from the
    /// local time (read only when `first_sithing_date` is empty, to fill it).
    /// Whatever the clock gave, the outcome is that of
    /// `init_device_entry_with` for some clock reading that, when present, is
    /// not empty.
    pub fn init_device_entry(&mut self, probe: &DeviceProbe) -> (r: Result<(), DeviceError>)
        ensures
            exists|clock: Option<Seq<char>>|
                #![trigger initialized(old(self)@, clock, *probe)]
                (clock matches Some(c) ==> c.len() > 0) && (final(self)@, result_view(r))
                    == initialized(old(self)@, clock, *probe),
            old(self).first_sithing_date@.len() > 0 ==> (final(self)@, result_view(r))
                == initialized(old(self)@, None, *probe),
    {
        proof {
            reveal(initialized);
        }
        let clock = if self.first_sithing_date.unicode_len() == 0 {
            local_date_time()
        } else {
            None
        };
        let r = self.init_device_entry_with(clock, probe);
        assert(initialized(old(self)@, text_option(clock), *probe) == (self@, result_view(r)));
        r
    }

    /// Initialises the entry, given the local time `clock` (`None` where the
    /// local UTC offset is unknown): fills `first_sithing_date` when empty,
    /// sets the stat path, checks that it exists, finds the serial number,
    /// reads the counters the next increment is measured from, and marks the
    /// entry active. At the first failure it stops with an error, the steps
    /// before it done.
    pub fn init_device_entry_with(&mut self, clock: Option<String>, probe: &DeviceProbe) -> (r:
        Result<(), DeviceError>)
        ensures
            (final(self)@, result_view(r)) == initialized(old(self)@, text_option(clock), *probe),
            // An empty first-seen date is filled from the clock reading; only
            // its absence makes the clock an error.
            old(self).first_sithing_date@.len() == 0 ==> (clock matches Some(c) ==> final(self).first_sithing_date@ == c@ && !(r matches Err(DeviceError::LocalOffset))),
            old(self).first_sithing_date@.len() == 0 && clock is None ==> r matches Err(
                DeviceError::LocalOffset,
            ),
            old(self).first_sithing_date@.len() > 0 ==> final(self).first_sithing_date
                == old(self).first_sithing_date,
    {
        proof {
            reveal(initialized);
        }
        if self.first_sithing_date.unicode_len() == 0 {
            match clock {
                Some(now) => {
                    self.first_sithing_date = now;
                },
                None => {
                    return Err(DeviceError::LocalOffset);
                },
            }
        }
        self.stat_path = DeviceEntry::stat_path_for(self.device_name.as_str());
        if !probe.stat_path_exists {
            return Err(DeviceError::StatPathMissing { device_name: self.device_name.clone() });
        }
        match self.get_serial_number(&probe.serial_file, &probe.lsblk) {
            Ok(serial) => {
                self.serial_number = serial;
            },
            Err(e) => {
                return Err(e);
            },
        }
        match &probe.stat_file {
            SysfsRead::Contents(c) => {
                self.previous_stats.get_current_stats(c.as_str());
                proof {
                    BlockStats::lemma_with_view(self.previous_stats);
                }
            },
            SysfsRead::OpenFailed(m) => {
                return Err(DeviceError::StatRead(m.clone()));
            },
            SysfsRead::ReadFailed(m) => {
                return Err(DeviceError::StatRead(m.clone()));
            },
        }
        self.is_active = true;
        Ok(())
    }

    /// Takes a new reading of the counters into the entry. The disk
    /// sequence number is read first: where it changed, the device was
    /// swapped and the increment is measured from zero. Where the counters
    /// equal those the increment is measured from, nothing changes and the
    /// result is `Ok(false)`. Otherwise the bytes written are added to
    /// `total_bytes_written`, the counter increment to `stored_stats`, and the
    /// counters are read again from the stat file as the new base; the
    /// result is `Ok(true)`. At the first failure it stops with an error, the
    /// steps before it done.
    pub fn update_stats(
        &mut self,
        current_stats: BlockStats,
        disk_seq_file: &SysfsRead,
        stat_file: &SysfsRead,
    ) -> (r: Result<bool, DeviceError>)
        requires
            update_defined(old(self)@, current_stats, *disk_seq_file),
        ensures
            (final(self)@, result_view(r)) == updated(
                old(self)@,
                current_stats,
                *disk_seq_file,
                *stat_file,
            ),
            // No change is reported exactly when the reading equals its base:
            // the last counters read, or zero after a swap.
            r == Ok::<bool, DeviceError>(false) <==> (disk_seq_outcome(
                old(self).device_name@,
                *disk_seq_file,
            ) matches Ok(seq) && current_stats == (if seq == old(self).disk_seq {
                old(self).previous_stats
            } else {
                BlockStats::zero_stats()
            })),
            // A reported change adds `current - base` to every stored counter,
            // the bytes written to the total, and re-reads the base.
            r == Ok::<bool, DeviceError>(true) ==> (disk_seq_outcome(
                old(self).device_name@,
                *disk_seq_file,
            ) matches Ok(seq) && {
                let base = if seq == old(self).disk_seq {
                    old(self).previous_stats
                } else {
                    BlockStats::zero_stats()
                };
                &&& forall|k: int|
                    0 <= k < 17 ==> #[trigger] final(self).stored_stats.field(k) == old(self).stored_stats.field(k) + current_stats.field(k) - base.field(k)
                &&& final(self).total_bytes_written == old(self).total_bytes_written
                    + written_bytes(current_stats.write_sectors, base.write_sectors)
                &&& final(self).disk_seq == seq
                &&& *stat_file matches SysfsRead::Contents(c) && final(self).previous_stats@
                    == parse_into(base@, words(c@))
            }),
    {
        let r = self.take_reading(current_stats, disk_seq_file, stat_file);
        proof {
            lemma_update_reports_exactly_changes(
                old(self)@,
                current_stats,
                *disk_seq_file,
                *stat_file,
            );
            if r == Ok::<bool, DeviceError>(true) {
                assert(result_view(r) == Ok::<bool, DeviceErrorView>(true));
                let seq = disk_seq_outcome(old(self).device_name@, *disk_seq_file)->Ok_0;
                let base = if seq == old(self).disk_seq {
                    old(self).previous_stats
                } else {
                    BlockStats::zero_stats()
                };
                assert(self.stored_stats == self@.stored_stats);
                assert(forall|k: int|
                    0 <= k < 17 ==> #[trigger] self.stored_stats.field(k) == old(self).stored_stats.field(k) + current_stats.field(k) - base.field(k));
                assert(self.total_bytes_written == old(self).total_bytes_written + written_bytes(
                    current_stats.write_sectors,
                    base.write_sectors,
                ));
                assert(self.disk_seq == seq);
                assert(*stat_file matches SysfsRead::Contents(c) && self.previous_stats@
                    == parse_into(base@, words(c@)));
            }
        }
        r
    }

    fn take_reading(
        &mut self,
        current_stats: BlockStats,
        disk_seq_file: &SysfsRead,
        stat_file: &SysfsRead,
    ) -> (r: Result<bool, DeviceError>)
        requires
            update_defined(old(self)@, current_stats, *disk_seq_file),
        ensures
            (final(self)@, result_view(r)) == updated(
                old(self)@,
                current_stats,
                *disk_seq_file,
                *stat_file,
            ),
    {
        proof {
            reveal(updated);
            reveal(update_defined);
        }
        let prev_disk_seq = self.disk_seq;
        let seq = match self.get_new_disk_seq(disk_seq_file) {
            Ok(v) => v,
            Err(e) => {
                return Err(e);
            },
        };
        self.disk_seq = seq;
        if prev_disk_seq != seq {
            self.previous_stats = BlockStats::default();
            proof {
                BlockStats::lemma_with_view(self.previous_stats);
                BlockStats::lemma_with_view(BlockStats::zero_stats());
            }
        }
        if self.previous_stats == current_stats {
            return Ok(false);
        }
        let prev = self.previous_stats;
        match self.compute_total_bytes_written(current_stats.write_sectors, prev.write_sectors) {
            Ok(()) => {},
            Err(e) => {
                return Err(e);
            },
        }
        self.stored_stats.accumulate_stats(current_stats, prev);
        match stat_file {
            SysfsRead::Contents(c) => {
                self.previous_stats.get_current_stats(c.as_str());
                proof {
                    BlockStats::lemma_with_view(self.previous_stats);
                }
            },
            SysfsRead::OpenFailed(m) => {
                return Err(DeviceError::StatRead(m.clone()));
            },
            SysfsRead::ReadFailed(m) => {
                return Err(DeviceError::StatRead(m.clone()));
            },
        }
        Ok(true)
    }
}

/// An optional text as characters.
pub open spec fn text_option(o: Option<String>) -> Option<Seq<char>> {
    match o {
        Some(s) => Some(s@),
        None => None,
    }
}

/// The entry after initialisation, given the local time `clock`, and the
/// outcome.
#[verifier::opaque]
pub open spec fn initialized(
    e: DeviceEntryView,
    clock: Option<Seq<char>>,
    probe: DeviceProbe,
) -> (DeviceEntryView, Result<(), DeviceErrorView>) {
    if e.first_sithing_date.len() == 0 && clock is None {
        (e, Err(DeviceErrorView::LocalOffset))
    } else {
        let date = if e.first_sithing_date.len() == 0 {
            match clock {
                Some(c) => c,
                None => e.first_sithing_date,
            }
        } else {
            e.first_sithing_date
        };
        let e1 = DeviceEntryView {
            first_sithing_date: date,
            stat_path: stat_path_of(e.device_name),
            ..e
        };
        if !probe.stat_path_exists {
            (e1, Err(DeviceErrorView::StatPathMissing { device_name: e.device_name }))
        } else {
            match serial_outcome(e.device_name, probe.serial_file, probe.lsblk) {
                Err(err) => (e1, Err(err)),
                Ok(serial) => {
                    let e2 = DeviceEntryView { serial_number: serial, ..e1 };
                    match probe.stat_file {
                        SysfsRead::Contents(c) => (
                            DeviceEntryView {
                                previous_stats: BlockStats::with_view(
                                    parse_into(e.previous_stats@, words(c@)),
                                ),
                                is_active: true,
                                ..e2
                            },
                            Ok(()),
                        ),
                        SysfsRead::OpenFailed(m) => (e2, Err(DeviceErrorView::StatRead(m@))),
                        SysfsRead::ReadFailed(m) => (e2, Err(DeviceErrorView::StatRead(m@))),
                    }
                },
            }
        }
    }
}

/// The counters an increment is measured from once the disk sequence number
/// `seq` is known: zero where it changed.
pub open spec fn baseline(e: DeviceEntryView, seq: u64) -> BlockStats {
    if seq != e.disk_seq {
        BlockStats::zero_stats()
    } else {
        e.previous_stats
    }
}

/// The inputs on which taking a reading is defined: where the counters
/// change and the byte total does not overflow, no counter may be below its
/// base and the stored counters must have room for the increment.
#[verifier::opaque]
pub open spec fn update_defined(
    e: DeviceEntryView,
    current: BlockStats,
    disk_seq_file: SysfsRead,
) -> bool {
    match disk_seq_outcome(e.device_name, disk_seq_file) {
        Err(_) => true,
        Ok(seq) => {
            let prev = baseline(e, seq);
            prev == current || ((current.write_sectors < prev.write_sectors
                ==> prev.write_sectors <= ulong_max() + 1) && (added_total(
                e.total_bytes_written,
                current.write_sectors,
                prev.write_sectors,
            ) is None || (current.covers(prev) && e.stored_stats.sum_fits(
                current.minus(prev),
            ))))
        },
    }
}

/// The entry after taking the reading `current`, and the outcome.
#[verifier::opaque]
pub open spec fn updated(
    e: DeviceEntryView,
    current: BlockStats,
    disk_seq_file: SysfsRead,
    stat_file: SysfsRead,
) -> (DeviceEntryView, Result<bool, DeviceErrorView>) {
    match disk_seq_outcome(e.device_name, disk_seq_file) {
        Err(err) => (e, Err(err)),
        Ok(seq) => {
            let prev = baseline(e, seq);
            let e1 = DeviceEntryView { disk_seq: seq, previous_stats: prev, ..e };
            if prev == current {
                (e1, Ok(false))
            } else {
                match added_total(e.total_bytes_written, current.write_sectors, prev.write_sectors) {
                    None => (
                        e1,
                        Err(DeviceErrorView::TotalOverflow { device_name: e.device_name }),
                    ),
                    Some(total) => {
                        let e2 = DeviceEntryView {
                            total_bytes_written: total,
                            stored_stats: e.stored_stats.plus(current.minus(prev)),
                            ..e1
                        };
                        match stat_file {
                            SysfsRead::Contents(c) => (
                                DeviceEntryView {
                                    previous_stats: BlockStats::with_view(
                                        parse_into(prev@, words(c@)),
                                    ),
                                    ..e2
                                },
                                Ok(true),
                            ),
                            SysfsRead::OpenFailed(m) => (
                                e2,
                                Err(DeviceErrorView::StatRead(m@)),
                            ),
                            SysfsRead::ReadFailed(m) => (
                                e2,
                                Err(DeviceErrorView::StatRead(m@)),
                            ),
                        }
                    },
                }
            }
        },
    }
}

/// `unsigned long`'s largest value on Linux, where it is as wide as `usize`.
pub open spec fn ulong_max() -> int {
    usize::MAX as int
}

/// The bytes written between two readings of the write-sector counter, the
/// counter wrapping after `ulong_max()`.
pub open spec fn written_bytes(current: u64, previous: u64) -> int {
    if current < previous {
        (ulong_max() + 1 - previous + current) * 512
    } else {
        (current - previous) * 512
    }
}

/// The byte total after adding the bytes between two readings, or `None`
/// where it would exceed `u128::MAX`.
pub open spec fn added_total(total: u128, current: u64, previous: u64) -> Option<u128> {
    if total + written_bytes(current, previous) <= u128::MAX {
        Some((total + written_bytes(current, previous)) as u128)
    } else {
        None
    }
}

/// `entry` with the fields that are not stored taken from `from`.
pub open spec fn with_volatile_fields(
    entry: DeviceEntryView,
    from: DeviceEntryView,
) -> DeviceEntryView {
    DeviceEntryView {
        is_active: from.is_active,
        current_path: from.current_path,
        device_name: from.device_name,
        previous_stats: from.previous_stats,
        stat_path: from.stat_path,
        ..entry
    }
}

/// The counters from a stat-file read, or the read's error.
pub open spec fn new_stats_outcome(stat_file: SysfsRead) -> Result<BlockStats, DeviceErrorView> {
    match stat_file {
        SysfsRead::Contents(c) => Ok(
            BlockStats::with_view(parse_into(zero_fields(), words(c@))),
        ),
        SysfsRead::OpenFailed(m) => Err(DeviceErrorView::StatRead(m@)),
        SysfsRead::ReadFailed(m) => Err(DeviceErrorView::StatRead(m@)),
    }
}

/// The disk sequence number from its file.
pub open spec fn disk_seq_outcome(device_name: Seq<char>, disk_seq_file: SysfsRead) -> Result<
    u64,
    DeviceErrorView,
> {
    match disk_seq_file {
        SysfsRead::OpenFailed(_) => Ok(0),
        SysfsRead::ReadFailed(m) => Err(DeviceErrorView::DiskSeqRead(m@)),
        SysfsRead::Contents(c) => if trimmed(c@).len() == 0 {
            Err(DeviceErrorView::DiskSeqEmpty { device_name })
        } else {
            match parse_u64_result(trimmed(c@)) {
                Ok(v) => Ok(v),
                Err(k) => Err(DeviceErrorView::DiskSeqInvalid(k)),
            }
        },
    }
}

/// The serial number from the sysfs file, falling back on `lsblk`.
pub open spec fn serial_outcome(
    device_name: Seq<char>,
    serial_file: SysfsRead,
    lsblk: LsblkRun,
) -> Result<Seq<char>, DeviceErrorView> {
    let from_block: Option<Seq<char>> = match serial_file {
        SysfsRead::Contents(c) => Some(trimmed(c@)),
        _ => None,
    };
    let found: Result<Seq<char>, DeviceErrorView> = match from_block {
        Some(s) if s.len() > 0 => Ok(s),
        _ => match lsblk {
            LsblkRun::SpawnFailed(m) => Err(DeviceErrorView::LsblkSpawn(m@)),
            LsblkRun::NotUtf8(m) => Err(DeviceErrorView::LsblkNotUtf8(m@)),
            LsblkRun::Succeeded(out) => Ok(trimmed(out@)),
            LsblkRun::Failed { code, stderr } => Err(
                DeviceErrorView::LsblkFailed { device_name, code, stderr: stderr@ },
            ),
        },
    };
    match found {
        Ok(s) => if s.len() == 0 {
            Err(DeviceErrorView::NoSerial { device_name })
        } else {
            Ok(s)
        },
        Err(e) => Err(e),
    }
}

impl Default for DeviceEntry {
    fn default() -> (r: Self)
        ensures
            r@ == default_entry(),
    {
        DeviceEntry {
            first_sithing_date: String::new(),
            previous_path: String::new(),
            current_path: String::new(),
            stored_stats: BlockStats::zero(),
            total_bytes_written: 0,
            disk_seq: 0,
            previous_stats: BlockStats::zero(),
            is_active: false,
            serial_number: String::new(),
            device_name: String::new(),
            stat_path: String::new(),
        }
    }
}

impl Clone for DeviceEntry {
    fn clone(&self) -> (r: Self)
        ensures
            r == *self,
    {
        DeviceEntry {
            first_sithing_date: self.first_sithing_date.clone(),
            previous_path: self.previous_path.clone(),
            current_path: self.current_path.clone(),
            stored_stats: self.stored_stats,
            total_bytes_written: self.total_bytes_written,
            disk_seq: self.disk_seq,
            previous_stats: self.previous_stats,
            is_active: self.is_active,
            serial_number: self.serial_number.clone(),
            device_name: self.device_name.clone(),
            stat_path: self.stat_path.clone(),
        }
    }
}

impl LogPrefix for DeviceEntry {
    open spec fn prefix_spec(&self) -> Seq<char> {
        "DeviceEntry:"@ + self.device_name@ + ": "@
    }

    fn log_prefix(&self) -> (r: String) {
        concat3("DeviceEntry:", self.device_name.as_str(), ": ")
    }
}

impl DeviceEntry {
    /// Whether taking the reading `current` is defined (see `update_defined`).
    pub fn update_is_defined(&self, current: &BlockStats, disk_seq_file: &SysfsRead) -> (r: bool)
        ensures
            r == update_defined(self@, *current, *disk_seq_file),
    {
        proof {
            reveal(update_defined);
        }
        match self.get_new_disk_seq(disk_seq_file) {
            Err(_) => true,
            Ok(seq) => {
                let prev = if seq != self.disk_seq {
                    BlockStats::default()
                } else {
                    self.previous_stats
                };
                proof {
                    BlockStats::lemma_with_view(prev);
                    BlockStats::lemma_with_view(BlockStats::zero_stats());
                }
                if prev == *current {
                    return true;
                }
                if current.write_sectors < prev.write_sectors && (prev.write_sectors as u128) > (
                usize::MAX as u128) + 1 {
                    return false;
                }
                let mut trial = self.clone();
                if trial.compute_total_bytes_written(
                    current.write_sectors,
                    prev.write_sectors,
                ).is_err() {
                    return true;
                }
                current.dominates(&prev) && self.stored_stats.can_add(&(*current - prev))
            },
        }
    }
}

// ---------------------------------------------------------------------------
// Merging the configured devices into the stored entries
// ---------------------------------------------------------------------------
/// Clock readings as characters.
pub open spec fn clock_views(clocks: Seq<Option<String>>) -> Seq<Option<Seq<char>>> {
    clocks.map_values(|c: Option<String>| text_option(c))
}

/// The entries made for the first `n` configured device paths, keyed by
/// serial number (the first device with a serial wins), or the first error.
pub open spec fn gathered(
    paths: Seq<String>,
    probes: Seq<DeviceProbe>,
    clocks: Seq<Option<Seq<char>>>,
    n: int,
) -> Result<Map<Seq<char>, DeviceEntryView>, DeviceErrorView>
    decreases n,
{
    if n <= 0 {
        Ok(Map::empty())
    } else {
        match gathered(paths, probes, clocks, n - 1) {
            Err(e) => Err(e),
            Ok(m) => {
                let (e, r) = initialized(new_entry(paths[n - 1]@), clocks[n - 1], probes[n - 1]);
                match r {
                    Err(err) => Err(err),
                    Ok(()) => Ok(
                        if m.dom().contains(e.serial_number) {
                            m
                        } else {
                            m.insert(e.serial_number, e)
                        },
                    ),
                }
            },
        }
    }
}

/// The stored entries after merging in the entries `found`: an entry stored
/// under a serial that was found takes over the found entry's fields that are
/// not stored, keeping its own totals; a found entry under a new serial is
/// added; other stored entries are unchanged.
pub open spec fn merged(
    stats: Map<Seq<char>, DeviceEntryView>,
    found: Map<Seq<char>, DeviceEntryView>,
) -> Map<Seq<char>, DeviceEntryView> {
    stats.union_prefer_right(
        Map::new(
            |k: Seq<char>| found.dom().contains(k),
            |k: Seq<char>|
                if stats.dom().contains(k) {
                    with_volatile_fields(stats[k], found[k])
                } else {
                    found[k]
                },
        ),
    )
}

/// The stored entries and the outcome after merging the configured devices.
pub open spec fn merge_outcome(
    stats: Map<Seq<char>, DeviceEntryView>,
    paths: Seq<String>,
    probes: Seq<DeviceProbe>,
    clocks: Seq<Option<Seq<char>>>,
) -> (Map<Seq<char>, DeviceEntryView>, Result<(), DeviceErrorView>) {
    match gathered(paths, probes, clocks, paths.len() as int) {
        Err(e) => (stats, Err(e)),
        Ok(found) => (merged(stats, found), Ok(())),
    }
}

proof fn lemma_gathered_error_sticks(
    paths: Seq<String>,
    probes: Seq<DeviceProbe>,
    clocks: Seq<Option<Seq<char>>>,
    i: int,
    j: int,
)
    requires
        0 <= i <= j,
        gathered(paths, probes, clocks, i) is Err,
    ensures
        gathered(paths, probes, clocks, j) == gathered(paths, probes, clocks, i),
    decreases j - i,
{
    if i < j {
        lemma_gathered_error_sticks(paths, probes, clocks, i, j - 1);
    }
}

proof fn lemma_merged_insert(
    stats: Map<Seq<char>, DeviceEntryView>,
    found: Map<Seq<char>, DeviceEntryView>,
    k: Seq<char>,
    v: DeviceEntryView,
)
    requires
        !found.dom().contains(k),
    ensures
        merged(stats, found.insert(k, v)) == merged(stats, found).insert(
            k,
            if stats.dom().contains(k) {
                with_volatile_fields(stats[k], v)
            } else {
                v
            },
        ),
{
    assert(merged(stats, found.insert(k, v)) =~= merged(stats, found).insert(
        k,
        if stats.dom().contains(k) {
            with_volatile_fields(stats[k], v)
        } else {
            v
        },
    ));
}

/// Merges the configured devices into the stored entries. Every path must
/// start with `/dev/`; `probes[i]` is what was read of the system for
/// `device_paths[i]`, and `clocks[i]` is the local time for its entry. Each
/// device gets an initialised entry; where two share a serial number the
/// first is kept. Then, for each serial found, a stored entry takes over the
/// found entry's fields that are not stored, or the found entry is added. At
/// the first error the stored entries are left unchanged.
pub fn merge_existing_device_stats_with(
    device_paths: &[String],
    probes: &[DeviceProbe],
    clocks: &[Option<String>],
    stats: &mut DeviceStats,
) -> (r: Result<(), DeviceError>)
    requires
        probes.len() == device_paths.len(),
        clocks.len() == device_paths.len(),
        forall|i: int| 0 <= i < device_paths.len() ==> dev_prefixed(#[trigger] device_paths[i]@),
    ensures
        (final(stats)@, result_view(r)) == merge_outcome(
            old(stats)@,
            device_paths@,
            probes@,
            clock_views(clocks@),
        ),
{
    let ghost clocks_v = clock_views(clocks@);
    let n = device_paths.len();
    let mut device_entries = DeviceStats::new();
    let mut i: usize = 0;
    while i < n
        invariant
            i <= n == device_paths.len() == probes.len() == clocks.len(),
            clocks_v == clock_views(clocks@),
            stats@ == old(stats)@,
            forall|q: int| 0 <= q < device_paths.len() ==> dev_prefixed(#[trigger] device_paths[q]@),
            gathered(device_paths@, probes@, clocks_v, i as int) == Ok::<
                Map<Seq<char>, DeviceEntryView>,
                DeviceErrorView,
            >(device_entries@),
        decreases n - i,
    {
        let mut entry = DeviceEntry::new(device_paths[i].as_str());
        let res = entry.init_device_entry_with(clocks[i].clone(), &probes[i]);
        assert(clocks_v[i as int] == text_option(clocks@[i as int]));
        match res {
            Err(e) => {
                proof {
                    lemma_gathered_error_sticks(
                        device_paths@,
                        probes@,
                        clocks_v,
                        i + 1,
                        n as int,
                    );
                }
                return Err(e);
            },
            Ok(()) => {},
        }
        if !device_entries.contains_key(entry.serial_number.as_str()) {
            let serial = entry.serial_number.clone();
            device_entries.insert(serial, entry);
        }
        i = i + 1;
    }
    let ghost found = device_entries@;
    let ghost start = stats@;
    let m = device_entries.len();
    let mut j: usize = 0;
    assert(device_entries.pairs().take(0) =~= Seq::empty());
    assert(merged(start, Map::empty()) =~= start);
    while j < m
        invariant
            j <= m == device_entries.pairs().len(),
            keys_distinct(device_entries.pairs()),
            found == device_entries@,
            stats@ == merged(start, pairs_map(device_entries.pairs().take(j as int))),
        decreases m - j,
    {
        let serial = device_entries.key_at(j);
        let entry = device_entries.entry_at(j);
        let ghost pre = device_entries.pairs().take(j as int);
        proof {
            assert(device_entries.pairs().take(j + 1).drop_last() =~= pre);
            crate::device_stats::lemma_pairs_map_dom(pre, serial@);
            if pairs_map(pre).dom().contains(serial@) {
                let t = choose|t: int| 0 <= t < pre.len() && #[trigger] pre[t].0 == serial@;
                assert(device_entries.pairs()[t].0 == device_entries.pairs()[j as int].0);
            }
            lemma_merged_insert(start, pairs_map(pre), serial@, entry@);
        }
        match stats.get(serial.as_str()) {
            Some(existing) => {
                let mut e = existing.clone();
                e.copy_volatile_fields(entry);
                stats.insert(serial.clone(), e);
            },
            None => {
                stats.insert(serial.clone(), entry.clone());
            },
        }
        j = j + 1;
    }
    proof {
        assert(device_entries.pairs().take(m as int) =~= device_entries.pairs());
    }
    Ok(())
}

/// Merges the configured devices into the stored entries, as
/// `merge_existing_device_stats_with` does with the local time read once
/// for each device. Whatever the clock gave, the outcome is that of some
/// clock readings that, where present, are not empty.
pub fn merge_existing_device_stats(
    device_paths: &[String],
    probes: &[DeviceProbe],
    stats: &mut DeviceStats,
) -> (r: Result<(), DeviceError>)
    requires
        probes.len() == device_paths.len(),
        forall|i: int| 0 <= i < device_paths.len() ==> dev_prefixed(#[trigger] device_paths[i]@),
    ensures
        exists|clocks: Seq<Option<Seq<char>>>|
            #![trigger merge_outcome(old(stats)@, device_paths@, probes@, clocks)]
            clocks.len() == device_paths.len() && (forall|i: int|
                0 <= i < clocks.len() ==> (#[trigger] clocks[i] matches Some(c) ==> c.len() > 0))
                && (final(stats)@, result_view(r)) == merge_outcome(
                old(stats)@,
                device_paths@,
                probes@,
                clocks,
            ),
{
    let n = device_paths.len();
    let mut clocks: Vec<Option<String>> = Vec::new();
    let mut i: usize = 0;
    while i < n
        invariant
            i <= n,
            clocks@.len() == i,
            forall|q: int| 0 <= q < i ==> (#[trigger] clocks@[q] matches Some(c) ==> c@.len() > 0),
        decreases n - i,
    {
        clocks.push(local_date_time());
        i = i + 1;
    }
    let r = merge_existing_device_stats_with(device_paths, probes, clocks.as_slice(), stats);
    proof {
        let cv = clock_views(clocks@);
        assert forall|q: int| 0 <= q < cv.len() implies (#[trigger] cv[q] matches Some(c) ==> c.len()
            > 0) by {
            assert(cv[q] == text_option(clocks@[q]));
        }
        assert(merge_outcome(old(stats)@, device_paths@, probes@, cv) == (stats@, result_view(r)));
    }
    r
}

// ---------------------------------------------------------------------------
// Taking new readings into the entries
// ---------------------------------------------------------------------------
/// What was read of the system for one active device.
#[derive(Clone, Debug)]
pub struct DeviceReading {
    /// The serial number of the device's entry.
    pub serial: String,
    /// The counters read from the stat file, if that read succeeded.
    pub current: Option<BlockStats>,
    /// The file `/sys/block/<name>/diskseq`.
    pub disk_seq_file: SysfsRead,
    /// The stat file, read again to take the new base counters.
    pub stat_file: SysfsRead,
}

/// The entries after taking one reading, and the outcome: a reading without
/// counters, or for a serial with no entry, changes nothing.
pub open spec fn reading_applied(m: Map<Seq<char>, DeviceEntryView>, rd: DeviceReading) -> (
    Map<Seq<char>, DeviceEntryView>,
    Result<bool, DeviceErrorView>,
) {
    match rd.current {
        Some(cur) => if m.dom().contains(rd.serial@) {
            let (e, r) = updated(m[rd.serial@], cur, rd.disk_seq_file, rd.stat_file);
            (m.insert(rd.serial@, e), r)
        } else {
            (m, Ok(false))
        },
        None => (m, Ok(false)),
    }
}

/// Whether reading `i` of `rs`, taken after the ones before it, reported a
/// change.
pub open spec fn reading_changed(
    m: Map<Seq<char>, DeviceEntryView>,
    rs: Seq<DeviceReading>,
    i: int,
) -> bool {
    reading_applied(readings_applied(m, rs.take(i)).0, rs[i]).1 == Ok::<bool, DeviceErrorView>(
        true,
    )
}

/// Whether taking one reading is defined.
pub open spec fn reading_defined(m: Map<Seq<char>, DeviceEntryView>, rd: DeviceReading) -> bool {
    match rd.current {
        Some(cur) => m.dom().contains(rd.serial@) ==> update_defined(
            m[rd.serial@],
            cur,
            rd.disk_seq_file,
        ),
        None => true,
    }
}

/// The entries after taking the readings in order, and the outcome: whether
/// any entry changed, or the first error (the readings before it taken).
pub open spec fn readings_applied(
    m: Map<Seq<char>, DeviceEntryView>,
    rs: Seq<DeviceReading>,
) -> (Map<Seq<char>, DeviceEntryView>, Result<bool, DeviceErrorView>)
    decreases rs.len(),
{
    if rs.len() == 0 {
        (m, Ok(false))
    } else {
        let (m1, r1) = readings_applied(m, rs.drop_last());
        match r1 {
            Err(e) => (m1, Err(e)),
            Ok(b) => {
                let (m2, r2) = reading_applied(m1, rs.last());
                (
                    m2,
                    match r2 {
                        Ok(b2) => Ok(b || b2),
                        Err(e) => Err(e),
                    },
                )
            },
        }
    }
}

/// Whether taking the readings in order is defined: each reading that is
/// reached is defined on the entries as they then are.
pub open spec fn readings_defined(m: Map<Seq<char>, DeviceEntryView>, rs: Seq<DeviceReading>) -> bool
    decreases rs.len(),
{
    rs.len() == 0 || (readings_defined(m, rs.drop_last()) && (readings_applied(
        m,
        rs.drop_last(),
    ).1 is Ok ==> reading_defined(readings_applied(m, rs.drop_last()).0, rs.last())))
}

proof fn lemma_readings_defined_prefix(
    m: Map<Seq<char>, DeviceEntryView>,
    rs: Seq<DeviceReading>,
    i: int,
)
    requires
        0 <= i <= rs.len(),
        readings_defined(m, rs),
    ensures
        readings_defined(m, rs.take(i)),
    decreases rs.len() - i,
{
    if i < rs.len() {
        assert(rs.take(rs.len() as int) =~= rs);
        lemma_readings_defined_prefix(m, rs.drop_last(), i);
        assert(rs.drop_last().take(i) =~= rs.take(i));
    } else {
        assert(rs.take(i) =~= rs);
    }
}

proof fn lemma_readings_error_sticks(
    m: Map<Seq<char>, DeviceEntryView>,
    rs: Seq<DeviceReading>,
    i: int,
)
    requires
        0 <= i <= rs.len(),
        readings_applied(m, rs.take(i)).1 is Err,
    ensures
        readings_applied(m, rs) == readings_applied(m, rs.take(i)),
    decreases rs.len() - i,
{
    if i < rs.len() {
        assert(rs.drop_last().take(i) =~= rs.take(i));
        lemma_readings_error_sticks(m, rs.drop_last(), i);
    } else {
        assert(rs.take(i) =~= rs);
    }
}

/// Takes new readings into the entries, in order: a reading without counters
/// (its stat file could not be read) is skipped, as is one for a serial with
/// no entry; each other one updates its entry as `DeviceEntry::update_stats`
/// does. The result says whether any entry changed; at the first error it
/// stops, the readings before it taken.
pub fn update_devices_stats(readings: &[DeviceReading], stats: &mut DeviceStats) -> (r: Result<
    bool,
    DeviceError,
>)
    requires
        readings_defined(old(stats)@, readings@),
    ensures
        (final(stats)@, result_view(r)) == readings_applied(old(stats)@, readings@),
        // The result says whether any reading taken reported a change.
        r matches Ok(b) ==> (b <==> exists|i: int|
            0 <= i < readings.len() && #[trigger] reading_changed(old(stats)@, readings@, i)),
{
    proof {
        lemma_readings_report_any_change(old(stats)@, readings@);
    }
    let ghost start = stats@;
    let n = readings.len();
    let mut stats_have_changed = false;
    let mut i: usize = 0;
    proof {
        lemma_readings_defined_prefix(start, readings@, 0);
        assert(readings@.take(0) =~= Seq::<DeviceReading>::empty());
    }
    while i < n
        invariant
            i <= n == readings@.len(),
            start == old(stats)@,
            readings_defined(start, readings@),
            (stats@, Ok::<bool, DeviceErrorView>(stats_have_changed)) == readings_applied(
                start,
                readings@.take(i as int),
            ),
        decreases n - i,
    {
        let rd = &readings[i];
        proof {
            assert(readings@.take(i + 1).drop_last() =~= readings@.take(i as int));
            assert(readings@.take(i + 1).last() == *rd);
            lemma_readings_defined_prefix(start, readings@, i + 1);
        }
        match &rd.current {
            Some(cur) => match stats.find(rd.serial.as_str()) {
                Some(idx) => {
                    let mut e = stats.entry_at(idx).clone();
                    let res = e.update_stats(*cur, &rd.disk_seq_file, &rd.stat_file);
                    stats.insert(rd.serial.clone(), e);
                    match res {
                        Ok(b) => {
                            stats_have_changed = stats_have_changed || b;
                        },
                        Err(err) => {
                            proof {
                                assert(readings_applied(start, readings@.take(i + 1)) == (stats@, Err::<bool, DeviceErrorView>(err@)));
                                lemma_readings_error_sticks(start, readings@, i + 1);
                            }
                            return Err(err);
                        },
                    }
                },
                None => {},
            },
            None => {},
        }
        i = i + 1;
    }
    proof {
        assert(readings@.take(n as int) =~= readings@);
    }
    Ok(stats_have_changed)
}

/// Whether taking `readings` into `stats` is defined (see `readings_defined`):
/// the readings are taken, in order, into a copy of the entries.
pub fn readings_are_defined(readings: &[DeviceReading], stats: &DeviceStats) -> (r: bool)
    ensures
        r == readings_defined(stats@, readings@),
{
    let ghost start = stats@;
    let mut trial = stats.duplicate();
    let n = readings.len();
    let mut i: usize = 0;
    assert(readings@.take(0) =~= Seq::<DeviceReading>::empty());
    while i < n
        invariant
            i <= n == readings@.len(),
            start == stats@,
            readings_defined(start, readings@.take(i as int)),
            readings_applied(start, readings@.take(i as int)).1 is Ok,
            trial@ == readings_applied(start, readings@.take(i as int)).0,
        decreases n - i,
    {
        let rd = &readings[i];
        proof {
            assert(readings@.take(i + 1).drop_last() =~= readings@.take(i as int));
            assert(readings@.take(i + 1).last() == *rd);
        }
        match &rd.current {
            Some(cur) => match trial.find(rd.serial.as_str()) {
                Some(idx) => {
                    let mut e = trial.entry_at(idx).clone();
                    if !e.update_is_defined(cur, &rd.disk_seq_file) {
                        proof {
                            lemma_readings_defined_prefix_back(start, readings@, i + 1);
                        }
                        return false;
                    }
                    let res = e.update_stats(*cur, &rd.disk_seq_file, &rd.stat_file);
                    trial.insert(rd.serial.clone(), e);
                    if res.is_err() {
                        proof {
                            lemma_readings_defined_after_error(start, readings@, i + 1);
                        }
                        return true;
                    }
                },
                None => {},
            },
            None => {},
        }
        i = i + 1;
    }
    proof {
        assert(readings@.take(n as int) =~= readings@);
    }
    true
}

proof fn lemma_readings_defined_prefix_back(
    m: Map<Seq<char>, DeviceEntryView>,
    rs: Seq<DeviceReading>,
    i: int,
)
    requires
        0 <= i <= rs.len(),
        !readings_defined(m, rs.take(i)),
    ensures
        !readings_defined(m, rs),
{
    if readings_defined(m, rs) {
        lemma_readings_defined_prefix(m, rs, i);
    }
}

proof fn lemma_readings_defined_after_error(
    m: Map<Seq<char>, DeviceEntryView>,
    rs: Seq<DeviceReading>,
    i: int,
)
    requires
        0 <= i <= rs.len(),
        readings_defined(m, rs.take(i)),
        readings_applied(m, rs.take(i)).1 is Err,
    ensures
        readings_defined(m, rs),
    decreases rs.len() - i,
{
    if i < rs.len() {
        assert(rs.drop_last().take(i) =~= rs.take(i));
        lemma_readings_defined_after_error(m, rs.drop_last(), i);
        lemma_readings_error_sticks(m, rs.drop_last(), i);
    } else {
        assert(rs.take(i) =~= rs);
    }
}

// ---------------------------------------------------------------------------
// The statistics file
// ---------------------------------------------------------------------------
/// Why the statistics file cannot be used.
#[derive(Clone, Debug)]
pub enum StatsError {
    /// The path does not end in `.json`.
    NotJson(String),
    /// The path has no parent directory.
    InRootDir,
    /// The parent directory, or the file, cannot be written.
    Unwritable(String),
}

/// A `StatsError` with its texts as character sequences.
pub enum StatsErrorView {
    NotJson(Seq<char>),
    InRootDir,
    Unwritable(Seq<char>),
}

impl View for StatsError {
    type V = StatsErrorView;

    open spec fn view(&self) -> StatsErrorView {
        match self {
            StatsError::NotJson(p) => StatsErrorView::NotJson(p@),
            StatsError::InRootDir => StatsErrorView::InRootDir,
            StatsError::Unwritable(d) => StatsErrorView::Unwritable(d@),
        }
    }
}

/// The text of each error.
pub open spec fn stats_error_text(e: StatsErrorView) -> Seq<char> {
    match e {
        StatsErrorView::NotJson(p) => "JSON Stats: "@ + p + " "@ + "is not a JSON format !"@,
        StatsErrorView::InRootDir => "JSON Stats: Do not store the stat json file in rootdir !"@,
        StatsErrorView::Unwritable(d) => "JSON Stats: Path: "@ + d + " "@ + "is unwritable !"@,
    }
}

impl StatsError {
    /// The text of the error.
    pub fn message(&self) -> (r: String)
        ensures
            r@ == stats_error_text(self@),
    {
        match self {
            StatsError::NotJson(p) => {
                let mut s = String::from_str("JSON Stats: ");
                s.append(p.as_str());
                s.append(" ");
                s.append("is not a JSON format !");
                s
            },
            StatsError::InRootDir => String::from_str(
                "JSON Stats: Do not store the stat json file in rootdir !",
            ),
            StatsError::Unwritable(d) => {
                let mut s = String::from_str("JSON Stats: Path: ");
                s.append(d.as_str());
                s.append(" ");
                s.append("is unwritable !");
                s
            },
        }
    }
}

/// Where the statistics file may go: its parent directory, given the
/// extension and the parent of the path; refused where the extension is not
/// `json`, then where the file would sit in the root directory (its parent is
/// `/`, or it has none).
pub open spec fn stats_location(
    path: Seq<char>,
    extension: Option<Seq<char>>,
    parent: Option<Seq<char>>,
) -> Result<Seq<char>, StatsErrorView> {
    if extension != Some("json"@) {
        Err(StatsErrorView::NotJson(path))
    } else {
        match parent {
            Some(d) => if d == "/"@ {
                Err(StatsErrorView::InRootDir)
            } else {
                Ok(d)
            },
            None => Err(StatsErrorView::InRootDir),
        }
    }
}

/// The parent directory where the statistics file `path` may go, given the
/// path's `extension` and `parent`: refused where the extension is not
/// `json`, then where the file would sit in the root directory.
pub fn check_stats_path(path: &str, extension: Option<String>, parent: Option<String>) -> (r:
    Result<String, StatsError>)
    ensures
        match (r, stats_location(path@, extension.deep_view(), parent.deep_view())) {
            (Ok(d), Ok(e)) => d@ == e,
            (Err(x), Err(y)) => x@ == y,
            _ => false,
        },
{
    let is_json = match &extension {
        Some(e) => str_eq(e.as_str(), "json"),
        None => false,
    };
    if !is_json {
        return Err(StatsError::NotJson(String::from_str(path)));
    }
    match parent {
        Some(d) => if str_eq(d.as_str(), "/") {
            Err(StatsError::InRootDir)
        } else {
            Ok(d)
        },
        None => Err(StatsError::InRootDir),
    }
}

/// Checks the path of the statistics file, which must not be empty, and
/// gives its parent directory (which the caller creates where missing):
/// refused where the path does not end in `.json`, or where the file would
/// sit in the root directory.
pub fn init_device_stats(path: &str) -> (r: Result<String, StatsError>)
    requires
        path@.len() > 0,
    ensures
        match (r, stats_location(path@, path_extension(path@), path_parent(path@))) {
            (Ok(d), Ok(e)) => d@ == e,
            (Err(x), Err(y)) => x@ == y,
            _ => false,
        },
{
    let extension = extension_of(path);
    let parent = parent_of(path);
    check_stats_path(path, extension, parent)
}

// ---------------------------------------------------------------------------
// Laws
// ---------------------------------------------------------------------------
/// The write-sector counter wraps around: the bytes between two readings are
/// the sectors between them modulo the counter's range (`ulong_max() + 1`),
/// times the sector size.
pub proof fn lemma_written_bytes_modular(current: u64, previous: u64)
    requires
        current <= ulong_max(),
        previous <= ulong_max(),
    ensures
        written_bytes(current, previous) == ((current - previous) % (ulong_max() + 1)) * 512,
{
    let m = ulong_max() + 1;
    if current < previous {
        let b = current - previous;
        vstd::arithmetic::div_mod::lemma_mod_add_multiples_vanish(b, m);
        vstd::arithmetic::div_mod::lemma_small_mod((m + b) as nat, m as nat);
    } else {
        vstd::arithmetic::div_mod::lemma_small_mod((current - previous) as nat, m as nat);
    }
}

/// A reading taken twice counts once: when a reading was taken without
/// error and the counters read afterwards are the ones taken, taking the
/// same reading again changes nothing and reports no change.
pub proof fn lemma_update_idempotent(
    e: DeviceEntryView,
    current: BlockStats,
    disk_seq_file: SysfsRead,
    stat_file: SysfsRead,
    stat_file_again: SysfsRead,
)
    requires
        updated(e, current, disk_seq_file, stat_file).1 is Ok,
        updated(e, current, disk_seq_file, stat_file).0.previous_stats == current,
    ensures
        updated(updated(e, current, disk_seq_file, stat_file).0, current, disk_seq_file, stat_file_again)
            == (updated(e, current, disk_seq_file, stat_file).0, Ok::<bool, DeviceErrorView>(false)),
{
    reveal(updated);
    let e1 = updated(e, current, disk_seq_file, stat_file).0;
    assert(e1.device_name == e.device_name);
    assert(disk_seq_outcome(e1.device_name, disk_seq_file) == disk_seq_outcome(e.device_name, disk_seq_file));
}

/// A reading is reported as no change exactly when it equals its base: the
/// counters last read, or zero where the disk sequence number changed. A
/// reported change adds `current - base` to every one of the seventeen
/// stored counters, the bytes written to the total, and takes the counters
/// re-read from the stat file as the new base.
pub proof fn lemma_update_reports_exactly_changes(
    e: DeviceEntryView,
    current: BlockStats,
    disk_seq_file: SysfsRead,
    stat_file: SysfsRead,
)
    requires
        update_defined(e, current, disk_seq_file),
    ensures
        updated(e, current, disk_seq_file, stat_file).1 == Ok::<bool, DeviceErrorView>(false) <==> (
        disk_seq_outcome(e.device_name, disk_seq_file) matches Ok(seq) && current == (if seq
            == e.disk_seq {
            e.previous_stats
        } else {
            BlockStats::zero_stats()
        })),
        updated(e, current, disk_seq_file, stat_file).1 == Ok::<bool, DeviceErrorView>(true) ==> (
        disk_seq_outcome(e.device_name, disk_seq_file) matches Ok(seq) && {
            let base = if seq == e.disk_seq {
                e.previous_stats
            } else {
                BlockStats::zero_stats()
            };
            let after = updated(e, current, disk_seq_file, stat_file).0;
            &&& forall|k: int|
                0 <= k < 17 ==> #[trigger] after.stored_stats.field(k) == e.stored_stats.field(k)
                    + current.field(k) - base.field(k)
            &&& after.total_bytes_written == e.total_bytes_written + written_bytes(
                current.write_sectors,
                base.write_sectors,
            )
            &&& after.disk_seq == seq
            &&& stat_file matches SysfsRead::Contents(c) && after.previous_stats@ == parse_into(
                base@,
                words(c@),
            )
        }),
{
    reveal(updated);
    reveal(update_defined);
    if updated(e, current, disk_seq_file, stat_file).1 == Ok::<bool, DeviceErrorView>(true) {
        let seq = disk_seq_outcome(e.device_name, disk_seq_file)->Ok_0;
        let base = baseline(e, seq);
        let after = updated(e, current, disk_seq_file, stat_file).0;
        assert forall|k: int| 0 <= k < 17 implies #[trigger] after.stored_stats.field(k)
            == e.stored_stats.field(k) + current.field(k) - base.field(k) by {
            assert(current.minus(base).field(k) == current.field(k) - base.field(k));
            assert(e.stored_stats.plus(current.minus(base)).field(k) == e.stored_stats.field(k)
                + current.minus(base).field(k));
        }
        if stat_file is Contents {
            let c = stat_file->Contents_0;
            BlockStats::lemma_view_of_with_view(parse_into(base@, words(c@)));
        }
    }
}

/// Taking readings reports whether any of them changed its entry: where
/// the result is `Ok(b)`, `b` holds exactly when some reading taken reported
/// a change.
pub proof fn lemma_readings_report_any_change(
    m: Map<Seq<char>, DeviceEntryView>,
    rs: Seq<DeviceReading>,
)
    ensures
        readings_applied(m, rs).1 matches Ok(b) ==> (b <==> exists|i: int|
            0 <= i < rs.len() && #[trigger] reading_changed(m, rs, i)),
    decreases rs.len(),
{
    if rs.len() > 0 {
        let t = rs.drop_last();
        let n = rs.len() - 1;
        lemma_readings_report_any_change(m, t);
        assert forall|i: int| 0 <= i < n implies #[trigger] reading_changed(m, rs, i)
            == reading_changed(m, t, i) by {
            assert(rs.take(i) =~= t.take(i));
            assert(rs[i] == t[i]);
        }
        assert(rs.take(n) =~= t);
        assert(rs[n] == rs.last());
        let m1 = readings_applied(m, t).0;
        let r1 = readings_applied(m, t).1;
        if r1 is Ok {
            let r2 = reading_applied(m1, rs.last()).1;
            assert(reading_changed(m, rs, n) == (r2 == Ok::<bool, DeviceErrorView>(true)));
            if r2 is Ok {
                let b1 = r1->Ok_0;
                let b2 = r2->Ok_0;
                assert(readings_applied(m, rs).1 == Ok::<bool, DeviceErrorView>(b1 || b2));
                if b1 || b2 {
                    if b2 {
                        assert(reading_changed(m, rs, n));
                    } else {
                        let i = choose|i: int| 0 <= i < t.len() && #[trigger] reading_changed(m, t, i);
                        assert(reading_changed(m, rs, i));
                    }
                } else {
                    assert forall|i: int| 0 <= i < rs.len() implies !#[trigger] reading_changed(m, rs, i) by {
                        if i < n {
                            assert(!reading_changed(m, t, i));
                        }
                    }
                }
            }
        }
    }
}

/// A reported change is never lost: once readings report a change, taking
/// one more reading reports a change or fails, never `Ok(false)`.
pub proof fn lemma_change_survives_more_readings(
    m: Map<Seq<char>, DeviceEntryView>,
    rs: Seq<DeviceReading>,
    rd: DeviceReading,
)
    requires
        readings_applied(m, rs).1 == Ok::<bool, DeviceErrorView>(true),
    ensures
        readings_applied(m, rs.push(rd)).1 != Ok::<bool, DeviceErrorView>(false),
{
    assert(rs.push(rd).drop_last() =~= rs);
}

/// The serial number is the whole trimmed contents of the sysfs serial file
/// where that reads and is not blank; otherwise, where `lsblk` succeeds with
/// a non-blank output, it is that output trimmed.
pub proof fn lemma_serial_prefers_sysfs(device_name: Seq<char>, serial_file: SysfsRead, lsblk: LsblkRun)
    ensures
        serial_file matches SysfsRead::Contents(c) ==> (trimmed(c@).len() > 0 ==> serial_outcome(
            device_name,
            serial_file,
            lsblk,
        ) == Ok::<Seq<char>, DeviceErrorView>(trimmed(c@))),
        (!(serial_file is Contents) || trimmed(serial_file->Contents_0@).len() == 0) ==> (
        lsblk matches LsblkRun::Succeeded(out) ==> (trimmed(out@).len() > 0 ==> serial_outcome(
            device_name,
            serial_file,
            lsblk,
        ) == Ok::<Seq<char>, DeviceErrorView>(trimmed(out@)))),
{
}

/// An entry without a first-seen date takes it from the clock: given a clock
/// reading, the date becomes that reading and the clock is no error; without
/// one, initialising fails on the clock. A date already set is kept.
pub proof fn lemma_init_takes_clock(e: DeviceEntryView, clock: Option<Seq<char>>, probe: DeviceProbe)
    ensures
        e.first_sithing_date.len() == 0 ==> (clock matches Some(c) ==> initialized(
            e,
            clock,
            probe,
        ).0.first_sithing_date == c && initialized(e, clock, probe).1 != Err::<
            (),
            DeviceErrorView,
        >(DeviceErrorView::LocalOffset)),
        e.first_sithing_date.len() == 0 && clock is None ==> initialized(e, clock, probe).1
            == Err::<(), DeviceErrorView>(DeviceErrorView::LocalOffset),
        e.first_sithing_date.len() > 0 ==> initialized(e, clock, probe).0.first_sithing_date
            == e.first_sithing_date,
{
    reveal(initialized);
}

/// What a probe must give for a device to initialise: its stat file exists,
/// a serial number is found, and the stat file reads.
pub open spec fn probe_succeeds(device_name: Seq<char>, probe: DeviceProbe) -> bool {
    &&& probe.stat_path_exists
    &&& serial_outcome(device_name, probe.serial_file, probe.lsblk) is Ok
    &&& probe.stat_file is Contents
}

proof fn lemma_gathered_ok(
    paths: Seq<String>,
    probes: Seq<DeviceProbe>,
    clocks: Seq<Option<Seq<char>>>,
    n: int,
)
    requires
        0 <= n <= paths.len(),
        paths.len() == probes.len() == clocks.len(),
        forall|i: int| 0 <= i < paths.len() ==> #[trigger] clocks[i] is Some,
        forall|i: int|
            0 <= i < paths.len() ==> probe_succeeds(paths[i]@.skip(5), #[trigger] probes[i]),
    ensures
        gathered(paths, probes, clocks, n) is Ok,
    decreases n,
{
    reveal(initialized);
    if n > 0 {
        lemma_gathered_ok(paths, probes, clocks, n - 1);
        assert(clocks[n - 1] is Some);
        assert(probe_succeeds(paths[n - 1]@.skip(5), probes[n - 1]));
    }
}

/// Merging succeeds whenever the clock gave a reading for every device and
/// every device's probe succeeds; each device then has an active entry.
pub proof fn lemma_merge_succeeds_with_clock(
    stats: Map<Seq<char>, DeviceEntryView>,
    paths: Seq<String>,
    probes: Seq<DeviceProbe>,
    clocks: Seq<Option<Seq<char>>>,
)
    requires
        paths.len() == probes.len() == clocks.len(),
        forall|i: int| 0 <= i < paths.len() ==> #[trigger] clocks[i] is Some,
        forall|i: int|
            0 <= i < paths.len() ==> probe_succeeds(paths[i]@.skip(5), #[trigger] probes[i]),
    ensures
        merge_outcome(stats, paths, probes, clocks).1 is Ok,
{
    lemma_gathered_ok(paths, probes, clocks, paths.len() as int);
}

/// Re-reading counts once: where a reading was taken and reported a change,
/// the new base counters coming from a stat file of at least seventeen
/// values, then reading that same file again (`get_new_stats`, as the next
/// reading does) and taking it, with the disk sequence number unchanged,
/// reports no change and leaves the entry as it is. The daemon's own write of
/// the statistics file is thus not counted twice.
pub proof fn lemma_reread_counts_once(
    e: DeviceEntryView,
    current: BlockStats,
    disk_seq_file: SysfsRead,
    contents: String,
    stat_file_again: SysfsRead,
)
    requires
        updated(e, current, disk_seq_file, SysfsRead::Contents(contents)).1 == Ok::<
            bool,
            DeviceErrorView,
        >(true),
        words(contents@).len() >= 17,
    ensures
        new_stats_outcome(SysfsRead::Contents(contents)) matches Ok(s) && updated(
            updated(e, current, disk_seq_file, SysfsRead::Contents(contents)).0,
            s,
            disk_seq_file,
            stat_file_again,
        ) == (
            updated(e, current, disk_seq_file, SysfsRead::Contents(contents)).0,
            Ok::<bool, DeviceErrorView>(false),
        ),
{
    reveal(updated);
    let e1 = updated(e, current, disk_seq_file, SysfsRead::Contents(contents)).0;
    let seq = disk_seq_outcome(e.device_name, disk_seq_file)->Ok_0;
    let prev = baseline(e, seq);
    let w = words(contents@);
    assert(parse_into(prev@, w) =~= parse_into(zero_fields(), w));
    assert(e1.previous_stats == BlockStats::with_view(parse_into(zero_fields(), w)));
    assert(e1.device_name == e.device_name);
    assert(e1.disk_seq == seq);
}

/// No change reported, nothing counted: where taking a reading reports no
/// change, the stored counters and the byte total are as before, and the
/// counters the next increment is measured from are the reading itself.
pub proof fn lemma_no_change_keeps_totals(
    e: DeviceEntryView,
    current: BlockStats,
    disk_seq_file: SysfsRead,
    stat_file: SysfsRead,
)
    requires
        updated(e, current, disk_seq_file, stat_file).1 == Ok::<bool, DeviceErrorView>(false),
    ensures
        updated(e, current, disk_seq_file, stat_file).0.stored_stats == e.stored_stats,
        updated(e, current, disk_seq_file, stat_file).0.total_bytes_written == e.total_bytes_written,
        updated(e, current, disk_seq_file, stat_file).0.previous_stats == current,
{
    reveal(updated);
}

/// The byte total follows the written sectors: where a reading is taken and
/// reports a change, the byte total grows by exactly the sector size times the
/// growth of the stored write-sector counter.
pub proof fn lemma_total_tracks_write_sectors(
    e: DeviceEntryView,
    current: BlockStats,
    disk_seq_file: SysfsRead,
    stat_file: SysfsRead,
)
    requires
        update_defined(e, current, disk_seq_file),
        updated(e, current, disk_seq_file, stat_file).1 == Ok::<bool, DeviceErrorView>(true),
    ensures
        updated(e, current, disk_seq_file, stat_file).0.total_bytes_written - e.total_bytes_written
            == (updated(e, current, disk_seq_file, stat_file).0.stored_stats.write_sectors
            - e.stored_stats.write_sectors) * 512,
{
    reveal(updated);
    reveal(update_defined);
    let seq = disk_seq_outcome(e.device_name, disk_seq_file)->Ok_0;
    let prev = baseline(e, seq);
    let d = current.minus(prev);
    assert(d.field(6) == current.field(6) - prev.field(6));
    assert(e.stored_stats.plus(d).field(6) == e.stored_stats.field(6) + d.field(6));
}

/// A swapped device is counted from zero: where the disk sequence number
/// changed and the reading is taken, the whole reading is added to the
/// stored counters and all its written sectors to the byte total.
pub proof fn lemma_update_after_swap(
    e: DeviceEntryView,
    current: BlockStats,
    disk_seq_file: SysfsRead,
    stat_file: SysfsRead,
)
    requires
        disk_seq_outcome(e.device_name, disk_seq_file) matches Ok(seq) && seq != e.disk_seq,
        updated(e, current, disk_seq_file, stat_file).1 == Ok::<bool, DeviceErrorView>(true),
    ensures
        updated(e, current, disk_seq_file, stat_file).0.stored_stats == e.stored_stats.plus(current),
        updated(e, current, disk_seq_file, stat_file).0.total_bytes_written == e.total_bytes_written
            + current.write_sectors * 512,
{
    reveal(updated);
    let z = BlockStats::zero_stats();
    assert forall|k: int| 0 <= k < 17 implies #[trigger] current.minus(z).field(k) == current.field(k) by {
        assert(z.field(k) == 0);
    }
    BlockStats::lemma_fields(current.minus(z));
    BlockStats::lemma_fields(current);
    assert(current.minus(z) == current);
}

/// Taking a reading never loses what was counted: whatever the outcome, the
/// byte total and every stored counter only grow, and the first-seen date,
/// serial number, name and paths stay.
pub proof fn lemma_update_keeps_totals(
    e: DeviceEntryView,
    current: BlockStats,
    disk_seq_file: SysfsRead,
    stat_file: SysfsRead,
)
    requires
        update_defined(e, current, disk_seq_file),
    ensures
        updated(e, current, disk_seq_file, stat_file).0.total_bytes_written >= e.total_bytes_written,
        updated(e, current, disk_seq_file, stat_file).0.stored_stats.covers(e.stored_stats),
        updated(e, current, disk_seq_file, stat_file).0.first_sithing_date == e.first_sithing_date,
        updated(e, current, disk_seq_file, stat_file).0.serial_number == e.serial_number,
        updated(e, current, disk_seq_file, stat_file).0.device_name == e.device_name,
        updated(e, current, disk_seq_file, stat_file).0.current_path == e.current_path,
        updated(e, current, disk_seq_file, stat_file).0.previous_path == e.previous_path,
        updated(e, current, disk_seq_file, stat_file).0.stat_path == e.stat_path,
        updated(e, current, disk_seq_file, stat_file).0.is_active == e.is_active,
{
    reveal(updated);
    reveal(update_defined);
    let e1 = updated(e, current, disk_seq_file, stat_file).0;
    if e1.stored_stats != e.stored_stats {
        let seq = disk_seq_outcome(e.device_name, disk_seq_file)->Ok_0;
        let prev = baseline(e, seq);
        let d = current.minus(prev);
        assert forall|k: int| 0 <= k < 17 implies e.stored_stats.field(k) <= #[trigger] e1.stored_stats.field(
            k,
        ) by {
            assert(e1.stored_stats.field(k) == e.stored_stats.field(k) + d.field(k));
        }
    }
}

/// Merging never drops a stored entry and keeps what is stored of it: after
/// a merge, successful or not, an entry that was stored is still there with
/// the same first-seen date, counters, byte total, disk sequence number,
/// serial number and previous path.
pub proof fn lemma_merge_keeps_stored(
    stats: Map<Seq<char>, DeviceEntryView>,
    paths: Seq<String>,
    probes: Seq<DeviceProbe>,
    clocks: Seq<Option<Seq<char>>>,
    k: Seq<char>,
)
    requires
        stats.dom().contains(k),
    ensures
        merge_outcome(stats, paths, probes, clocks).0.dom().contains(k),
        merge_outcome(stats, paths, probes, clocks).0[k].first_sithing_date
            == stats[k].first_sithing_date,
        merge_outcome(stats, paths, probes, clocks).0[k].stored_stats == stats[k].stored_stats,
        merge_outcome(stats, paths, probes, clocks).0[k].total_bytes_written
            == stats[k].total_bytes_written,
        merge_outcome(stats, paths, probes, clocks).0[k].disk_seq == stats[k].disk_seq,
        merge_outcome(stats, paths, probes, clocks).0[k].serial_number == stats[k].serial_number,
        merge_outcome(stats, paths, probes, clocks).0[k].previous_path == stats[k].previous_path,
{
}

proof fn lemma_gathered_active(
    paths: Seq<String>,
    probes: Seq<DeviceProbe>,
    clocks: Seq<Option<Seq<char>>>,
    n: int,
    i: int,
)
    requires
        0 <= i < n,
        gathered(paths, probes, clocks, n) is Ok,
    ensures
        initialized(new_entry(paths[i]@), clocks[i], probes[i]).1 is Ok,
        gathered(paths, probes, clocks, n)->Ok_0.dom().contains(
            initialized(new_entry(paths[i]@), clocks[i], probes[i]).0.serial_number,
        ),
        forall|k: Seq<char>|
            #[trigger] gathered(paths, probes, clocks, n)->Ok_0.dom().contains(k)
                ==> gathered(paths, probes, clocks, n)->Ok_0[k].is_active,
    decreases n,
{
    reveal(initialized);
    let prev = gathered(paths, probes, clocks, n - 1);
    if n - 1 > 0 {
        if prev is Err {
            assert(gathered(paths, probes, clocks, n) is Err);
        }
        if i < n - 1 {
            lemma_gathered_active(paths, probes, clocks, n - 1, i);
        } else {
            lemma_gathered_active(paths, probes, clocks, n - 1, 0);
        }
    }
}

/// After a successful merge every configured device has an entry under its
/// serial number, and every entry made for a configured device is active.
pub proof fn lemma_merge_covers_devices(
    stats: Map<Seq<char>, DeviceEntryView>,
    paths: Seq<String>,
    probes: Seq<DeviceProbe>,
    clocks: Seq<Option<Seq<char>>>,
    i: int,
)
    requires
        merge_outcome(stats, paths, probes, clocks).1 is Ok,
        0 <= i < paths.len(),
    ensures
        initialized(new_entry(paths[i]@), clocks[i], probes[i]).1 is Ok,
        merge_outcome(stats, paths, probes, clocks).0.dom().contains(
            initialized(new_entry(paths[i]@), clocks[i], probes[i]).0.serial_number,
        ),
        merge_outcome(stats, paths, probes, clocks).0[initialized(
            new_entry(paths[i]@),
            clocks[i],
            probes[i],
        ).0.serial_number].is_active,
{
    lemma_gathered_active(paths, probes, clocks, paths.len() as int, i);
}

/// A successfully initialised entry is active, reads its device's stat
/// file, has a serial number and a first-seen date, and keeps a first-seen
/// date that was already set.
pub proof fn lemma_initialized_entry(
    e: DeviceEntryView,
    clock: Option<Seq<char>>,
    probe: DeviceProbe,
)
    requires
        initialized(e, clock, probe).1 is Ok,
        clock matches Some(c) ==> c.len() > 0,
    ensures
        initialized(e, clock, probe).0.is_active,
        initialized(e, clock, probe).0.stat_path == stat_path_of(e.device_name),
        initialized(e, clock, probe).0.serial_number.len() > 0,
        initialized(e, clock, probe).0.first_sithing_date.len() > 0,
        e.first_sithing_date.len() > 0 ==> initialized(e, clock, probe).0.first_sithing_date
            == e.first_sithing_date,
        initialized(e, clock, probe).0.stored_stats == e.stored_stats,
        initialized(e, clock, probe).0.total_bytes_written == e.total_bytes_written,
{
    reveal(initialized);
}

/// Taking readings changes only the entries they name: no entry is added or
/// removed, and an entry whose serial no reading carries stays as it was.
pub proof fn lemma_readings_touch_only_named(
    m: Map<Seq<char>, DeviceEntryView>,
    rs: Seq<DeviceReading>,
    k: Seq<char>,
)
    ensures
        readings_applied(m, rs).0.dom() == m.dom(),
        m.dom().contains(k) && (forall|i: int| 0 <= i < rs.len() ==> #[trigger] rs[i].serial@ != k)
            ==> readings_applied(m, rs).0[k] == m[k],
    decreases rs.len(),
{
    if rs.len() > 0 {
        let t = rs.drop_last();
        lemma_readings_touch_only_named(m, t, k);
        let m1 = readings_applied(m, t).0;
        if readings_applied(m, t).1 is Ok {
            let rd = rs.last();
            if rd.current is Some && m1.dom().contains(rd.serial@) {
                assert(m1.insert(rd.serial@, updated(m1[rd.serial@], rd.current->Some_0, rd.disk_seq_file, rd.stat_file).0).dom() =~= m1.dom());
            }
        }
        if m.dom().contains(k) && (forall|i: int| 0 <= i < rs.len() ==> #[trigger] rs[i].serial@ != k) {
            assert forall|i: int| 0 <= i < t.len() implies #[trigger] t[i].serial@ != k by {
                assert(t[i] == rs[i]);
            }
            assert(rs[rs.len() - 1].serial@ != k);
        }
    }
}

} // verus!
