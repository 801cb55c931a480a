//! What a scan works on and what it yields: the observed state of the
//! monitoring tree, the readings, and the failures that end a scan.

use vstd::prelude::*;

verus! {

/// One entry of a directory listing.
#[derive(Clone, Debug, PartialEq, Eq)]
pub struct DirEntry {
    /// The entry's file name; `None` where the name is not text.
    pub name: Option<String>,
    /// Whether the entry is a regular file.
    pub is_file: bool,
}

/// The mathematical value of a `DirEntry`.
pub ghost struct EntryModel {
    pub name: Option<Seq<char>>,
    pub is_file: bool,
}

impl DeepView for DirEntry {
    type V = EntryModel;

    open spec fn deep_view(&self) -> EntryModel {
        EntryModel { name: self.name.deep_view(), is_file: self.is_file }
    }
}

/// What was observed of one file.
#[derive(Clone, Debug, PartialEq, Eq)]
pub enum FileProbe {
    /// The file does not exist.
    Absent,
    /// The file exists and could not be read.
    Unreadable,
    /// The file was read; this is what it holds.
    Content(String),
}

/// The mathematical value of a `FileProbe`.
pub ghost enum ProbeModel {
    Absent,
    Unreadable,
    Content(Seq<char>),
}

impl DeepView for FileProbe {
    type V = ProbeModel;

    open spec fn deep_view(&self) -> ProbeModel {
        match self {
            FileProbe::Absent => ProbeModel::Absent,
            FileProbe::Unreadable => ProbeModel::Unreadable,
            FileProbe::Content(text) => ProbeModel::Content(text@),
        }
    }
}

/// What was observed of the file `file_name` of a device directory.
#[derive(Clone, Debug, PartialEq, Eq)]
pub struct NamedProbe {
    pub file_name: String,
    pub probe: FileProbe,
}

/// The mathematical value of a `NamedProbe`.
pub ghost struct NamedProbeModel {
    pub file_name: Seq<char>,
    pub probe: ProbeModel,
}

impl DeepView for NamedProbe {
    type V = NamedProbeModel;

    open spec fn deep_view(&self) -> NamedProbeModel {
        NamedProbeModel { file_name: self.file_name@, probe: self.probe.deep_view() }
    }
}

/// The observed state of one directory under the monitoring root.
#[derive(Clone, Debug, PartialEq, Eq)]
pub struct DeviceSnapshot {
    /// The directory's entries in the order they were listed; `None` where
    /// the directory could not be listed.
    pub listing: Option<Vec<DirEntry>>,
    /// The file `name`, which identifies the driver.
    pub name: FileProbe,
    /// The canonical path that the entry `device` resolves to, whole or by
    /// its last component alone: what follows its last `/` names the device.
    /// `None` where the entry could not be resolved or that name is not text.
    pub device: Option<String>,
    /// The sensor files that were probed. A file that is not among them
    /// counts as absent; of two probes of one file the first counts.
    pub files: Vec<NamedProbe>,
}

/// The mathematical value of a `DeviceSnapshot`.
pub ghost struct DeviceModel {
    pub listing: Option<Seq<EntryModel>>,
    pub name: ProbeModel,
    pub device: Option<Seq<char>>,
    pub files: Seq<NamedProbeModel>,
}

impl DeepView for DeviceSnapshot {
    type V = DeviceModel;

    open spec fn deep_view(&self) -> DeviceModel {
        DeviceModel {
            listing: self.listing.deep_view(),
            name: self.name.deep_view(),
            device: self.device.deep_view(),
            files: self.files.deep_view(),
        }
    }
}

/// The temperature that one sensor showed when it was scanned.
#[derive(Clone, Debug, PartialEq, Eq)]
pub struct SensorReading {
    /// The name of the device's monitoring driver.
    pub name: String,
    /// The physical device that the driver is attached to.
    pub device: String,
    /// The sensor's label.
    pub label: String,
    /// The temperature in thousandths of a degree Celsius.
    pub millidegrees: i64,
}

/// The mathematical value of a `SensorReading`.
pub ghost struct ReadingModel {
    pub name: Seq<char>,
    pub device: Seq<char>,
    pub label: Seq<char>,
    pub millidegrees: int,
}

impl DeepView for SensorReading {
    type V = ReadingModel;

    open spec fn deep_view(&self) -> ReadingModel {
        ReadingModel {
            name: self.name@,
            device: self.device@,
            label: self.label@,
            millidegrees: self.millidegrees as int,
        }
    }
}

/// The monitoring tree is not laid out as expected.
#[derive(Clone, Copy, Debug, PartialEq, Eq, Structural)]
pub enum StructuralError {
    /// The monitoring root could not be listed.
    RootUnreadable,
    /// A directory under the root could not be listed.
    DirectoryUnreadable,
    /// A device's `name` file exists and could not be read.
    NameUnreadable,
    /// A device's `device` entry does not resolve to a named device.
    DeviceUnresolved,
    /// An entry of a device directory has a name that is not text.
    EntryNameUnreadable,
}

/// A sensor's files hold what they should not.
#[derive(Clone, Copy, Debug, PartialEq, Eq, Structural)]
pub enum MalformedDataError {
    /// A sensor's input file does not hold a whole number of millidegrees:
    /// an optional sign and decimal digits. A whole number beyond what 64
    /// bits hold with a sign counts as invalid too.
    InvalidValue,
    /// A sensor's label could not be read although its input was.
    LabelUnreadable,
}

/// A failure that ends the scan and leaves no readings.
#[derive(Clone, Copy, Debug, PartialEq, Eq, Structural)]
pub enum ScanError {
    Structure(StructuralError),
    MalformedData(MalformedDataError),
}

/// A sensor that is left out of the scan, which goes on without it.
#[derive(Clone, Copy, Debug, PartialEq, Eq, Structural)]
pub enum TransientAbsence {
    /// The sensor's input file does not exist.
    InputAbsent,
    /// The sensor's label file does not exist.
    LabelAbsent,
    /// The sensor's input file exists and could not be read.
    InputUnreadable,
}

} // verus!
