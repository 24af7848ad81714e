//! The daemon's configuration and the rules it must meet.
use vstd::prelude::*;

use crate::log_prefix::LogPrefix;

verus! {

broadcast use vstd::string::group_string_axioms;

/// The command line: the path of the JSON configuration file.
#[derive(Debug)]
pub struct Args {
    pub config_path: String,
}

/// The daemon's settings.
#[derive(Debug)]
pub struct DaemonConfig {
    /// The path of the JSON configuration file.
    pub config_file_path: String,
    /// Where the accumulated statistics are stored.
    pub stats_file_path: String,
    /// Seconds between two readings.
    pub update_rate: u64,
}

/// The devices to monitor.
#[derive(Debug)]
pub struct DeviceConfig {
    /// The device nodes, such as `/dev/sda`.
    pub device_paths: Vec<String>,
    /// Where the accumulated statistics are stored.
    pub stats_file_path: String,
}

/// What a configured device path turned out to be.
#[derive(Clone, Debug)]
pub enum DeviceNode {
    /// Nothing exists at the path.
    Missing,
    /// Something exists there but its metadata could not be read; the I/O error.
    Unreadable(String),
    /// Something other than a block device.
    NotBlockDevice,
    /// A block device.
    BlockDevice,
}

/// Why a configuration is refused.
#[derive(Clone, Debug)]
pub enum ConfigError {
    /// `statsFilePath` is empty.
    EmptyStatsFilePath,
    /// `updateRate` is zero.
    ZeroUpdateRate,
    /// `devicePaths` is empty.
    EmptyDevicePaths,
    /// A device path does not exist.
    DeviceMissing(String),
    /// The metadata of a device path could not be read; the I/O error.
    Metadata(String),
    /// A device path is not a block device.
    NotBlockDevice(String),
}

/// A `ConfigError` with its texts as character sequences.
pub enum ConfigErrorView {
    EmptyStatsFilePath,
    ZeroUpdateRate,
    EmptyDevicePaths,
    DeviceMissing(Seq<char>),
    Metadata(Seq<char>),
    NotBlockDevice(Seq<char>),
}

impl View for ConfigError {
    type V = ConfigErrorView;

    open spec fn view(&self) -> ConfigErrorView {
        match self {
            ConfigError::EmptyStatsFilePath => ConfigErrorView::EmptyStatsFilePath,
            ConfigError::ZeroUpdateRate => ConfigErrorView::ZeroUpdateRate,
            ConfigError::EmptyDevicePaths => ConfigErrorView::EmptyDevicePaths,
            ConfigError::DeviceMissing(p) => ConfigErrorView::DeviceMissing(p@),
            ConfigError::Metadata(m) => ConfigErrorView::Metadata(m@),
            ConfigError::NotBlockDevice(p) => ConfigErrorView::NotBlockDevice(p@),
        }
    }
}

/// `"JSON Config: : <msg>"`.
pub open spec fn config_message(msg: Seq<char>) -> Seq<char> {
    "JSON Config: "@ + ": "@ + msg
}

/// The text of each error.
pub open spec fn config_error_text(e: ConfigErrorView) -> Seq<char> {
    match e {
        ConfigErrorView::EmptyStatsFilePath => config_message(
            "statsFilePath is empty! define a valid path for stats storage."@,
        ),
        ConfigErrorView::ZeroUpdateRate => config_message("updateRate cannot be zero."@),
        ConfigErrorView::EmptyDevicePaths => config_message(
            "devicePaths array is empty! Choose at least one block device under /dev"@,
        ),
        ConfigErrorView::DeviceMissing(p) => config_message(
            "Path: "@ + p + " "@ + "does not exist !"@,
        ),
        ConfigErrorView::Metadata(m) => m,
        ConfigErrorView::NotBlockDevice(p) => config_message(
            "Path: "@ + p + " "@ + "is not a block device !"@,
        ),
    }
}

fn config_log(msg: &str) -> (r: String)
    ensures
        r@ == config_message(msg@),
{
    let mut s = String::from_str("JSON Config: ");
    s.append(": ");
    s.append(msg);
    s
}

fn path_message(path: &str, what: &str) -> (r: String)
    ensures
        r@ == config_message("Path: "@ + path@ + " "@ + what@),
{
    let mut msg = String::from_str("Path: ");
    msg.append(path);
    msg.append(" ");
    msg.append(what);
    config_log(msg.as_str())
}

impl ConfigError {
    /// The text of the error.
    pub fn message(&self) -> (r: String)
        ensures
            r@ == config_error_text(self@),
    {
        match self {
            ConfigError::EmptyStatsFilePath => config_log(
                "statsFilePath is empty! define a valid path for stats storage.",
            ),
            ConfigError::ZeroUpdateRate => config_log("updateRate cannot be zero."),
            ConfigError::EmptyDevicePaths => config_log(
                "devicePaths array is empty! Choose at least one block device under /dev",
            ),
            ConfigError::DeviceMissing(p) => path_message(p.as_str(), "does not exist !"),
            ConfigError::Metadata(m) => m.clone(),
            ConfigError::NotBlockDevice(p) => path_message(p.as_str(), "is not a block device !"),
        }
    }
}

impl Default for DaemonConfig {
    fn default() -> (r: Self)
        ensures
            r.config_file_path@.len() == 0,
            r.stats_file_path@.len() == 0,
            r.update_rate == 0,
    {
        DaemonConfig {
            config_file_path: String::new(),
            stats_file_path: String::new(),
            update_rate: 0,
        }
    }
}

impl DaemonConfig {
    /// The settings read from the configuration file `parsed`, with the path
    /// of that file from the command line. Refused where the statistics path
    /// is empty or the update rate is zero, in that order.
    pub fn new(args: Args, parsed: DaemonConfig) -> (r: Result<Self, ConfigError>)
        ensures
            match r {
                Ok(c) => parsed.stats_file_path@.len() > 0 && parsed.update_rate > 0
                    && c.config_file_path@ == args.config_path@ && c.stats_file_path@
                    == parsed.stats_file_path@ && c.update_rate == parsed.update_rate,
                Err(e) => if parsed.stats_file_path@.len() == 0 {
                    e@ == ConfigErrorView::EmptyStatsFilePath
                } else {
                    parsed.update_rate == 0 && e@ == ConfigErrorView::ZeroUpdateRate
                },
            },
    {
        if parsed.stats_file_path.unicode_len() == 0 {
            return Err(ConfigError::EmptyStatsFilePath);
        }
        if parsed.update_rate == 0 {
            return Err(ConfigError::ZeroUpdateRate);
        }
        Ok(
            DaemonConfig {
                config_file_path: args.config_path,
                stats_file_path: parsed.stats_file_path,
                update_rate: parsed.update_rate,
            },
        )
    }
}

/// The error for a device path that is not a block device.
pub open spec fn node_error(path: Seq<char>, node: DeviceNode) -> ConfigErrorView {
    match node {
        DeviceNode::Missing => ConfigErrorView::DeviceMissing(path),
        DeviceNode::Unreadable(m) => ConfigErrorView::Metadata(m@),
        _ => ConfigErrorView::NotBlockDevice(path),
    }
}

impl DeviceConfig {
    /// The device configuration read from the configuration file, where
    /// `nodes[i]` is what `config.device_paths[i]` turned out to be. Refused
    /// where there are no device paths, or at the first path that is not a
    /// block device.
    pub fn new(config: DeviceConfig, nodes: &[DeviceNode]) -> (r: Result<Self, ConfigError>)
        requires
            nodes.len() == config.device_paths.len(),
        ensures
            match r {
                Ok(c) => c.device_paths@ == config.device_paths@ && c.stats_file_path
                    == config.stats_file_path && config.device_paths.len() > 0 && forall|i: int|
                    0 <= i < nodes.len() ==> #[trigger] nodes[i] is BlockDevice,
                Err(e) => if config.device_paths.len() == 0 {
                    e@ == ConfigErrorView::EmptyDevicePaths
                } else {
                    exists|i: int|
                        #![trigger nodes[i]]
                        0 <= i < nodes.len() && !(nodes[i] is BlockDevice) && (forall|j: int|
                            0 <= j < i ==> #[trigger] nodes[j] is BlockDevice) && e@ == node_error(
                            config.device_paths[i]@,
                            nodes[i],
                        )
                },
            },
    {
        let n = config.device_paths.len();
        if n == 0 {
            return Err(ConfigError::EmptyDevicePaths);
        }
        let mut i: usize = 0;
        while i < n
            invariant
                i <= n == nodes.len() == config.device_paths.len(),
                forall|j: int| 0 <= j < i ==> #[trigger] nodes[j] is BlockDevice,
            decreases n - i,
        {
            match &nodes[i] {
                DeviceNode::Missing => {
                    return Err(ConfigError::DeviceMissing(config.device_paths[i].clone()));
                },
                DeviceNode::Unreadable(m) => {
                    return Err(ConfigError::Metadata(m.clone()));
                },
                DeviceNode::NotBlockDevice => {
                    return Err(ConfigError::NotBlockDevice(config.device_paths[i].clone()));
                },
                DeviceNode::BlockDevice => {},
            }
            i = i + 1;
        }
        Ok(config)
    }
}

impl LogPrefix for DaemonConfig {
    open spec fn prefix_spec(&self) -> Seq<char> {
        "JSON Config: "@
    }

    fn log_prefix(&self) -> (r: String) {
        String::from_str("JSON Config: ")
    }
}

impl LogPrefix for DeviceConfig {
    open spec fn prefix_spec(&self) -> Seq<char> {
        "JSON Config: "@
    }

    fn log_prefix(&self) -> (r: String) {
        String::from_str("JSON Config: ")
    }
}

} // verus!
