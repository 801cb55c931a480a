//! The scan: which directories are devices, which of their files are
//! sensors, and what each sensor reads.

use crate::model::{
    DeviceModel, DeviceSnapshot, DirEntry, EntryModel, FileProbe, MalformedDataError, NamedProbe,
    NamedProbeModel, ProbeModel, ReadingModel, ScanError, SensorReading, StructuralError,
    TransientAbsence,
};
use crate::pattern::SensorPattern;
use crate::text::{final_segment, has_prefix, last_segment, starts_with, trim, trimmed};
use crate::value::{millidegrees_value, parse_millidegrees};
use vstd::prelude::*;
use vstd::string::*;

verus! {

/// The entry is a regular file whose name begins with `temp`.
pub open spec fn is_sensor_file(entry: EntryModel) -> bool {
    entry.is_file && entry.name is Some && has_prefix(entry.name->0, "temp"@)
}

/// The listing holds a regular file whose name begins with `temp`.
pub open spec fn has_sensor_file(listing: Seq<EntryModel>) -> bool {
    exists|i: int| 0 <= i < listing.len() && is_sensor_file(#[trigger] listing[i])
}

/// The name of the file that holds the value of sensor `index`.
pub open spec fn input_file(index: Seq<char>) -> Seq<char> {
    "temp"@ + index + "_input"@
}

/// The name of the file that holds the label of sensor `index`.
pub open spec fn label_file(index: Seq<char>) -> Seq<char> {
    "temp"@ + index + "_label"@
}

/// What was observed of the file `file_name`: the first probe of it, and
/// `Absent` where it was not probed.
pub open spec fn probe_of(files: Seq<NamedProbeModel>, file_name: Seq<char>) -> ProbeModel
    decreases files.len(),
{
    if files.len() == 0 {
        ProbeModel::Absent
    } else if files.first().file_name == file_name {
        files.first().probe
    } else {
        probe_of(files.drop_first(), file_name)
    }
}

/// Who a device is: its driver and the physical device behind it.
#[derive(Clone, Debug, PartialEq, Eq)]
pub struct DeviceIdentity {
    pub name: String,
    pub device: String,
}

/// The mathematical value of a `DeviceIdentity`.
pub ghost struct IdentityModel {
    pub name: Seq<char>,
    pub device: Seq<char>,
}

impl DeepView for DeviceIdentity {
    type V = IdentityModel;

    open spec fn deep_view(&self) -> IdentityModel {
        IdentityModel { name: self.name@, device: self.device@ }
    }
}

/// The identity that a device's `name` file and `device` entry give: the
/// trimmed name, and the last segment of the path that `device` resolves to.
/// The name has to be readable, and the path has to end in a segment.
pub open spec fn identity_of(name: ProbeModel, device: Option<Seq<char>>) -> Result<
    IdentityModel,
    StructuralError,
> {
    match name {
        ProbeModel::Content(text) => match device {
            Some(path) => if final_segment(path).len() > 0 {
                Ok(IdentityModel { name: trimmed(text), device: final_segment(path) })
            } else {
                Err(StructuralError::DeviceUnresolved)
            },
            None => Err(StructuralError::DeviceUnresolved),
        },
        _ => Err(StructuralError::NameUnreadable),
    }
}

/// The mathematical value of what `resolve_identity` returns.
pub open spec fn identity_result(r: Result<DeviceIdentity, StructuralError>) -> Result<
    IdentityModel,
    StructuralError,
> {
    match r {
        Ok(identity) => Ok(identity.deep_view()),
        Err(error) => Err(error),
    }
}

/// What becomes of one sensor.
#[derive(Clone, Debug, PartialEq, Eq)]
pub enum SensorOutcome {
    /// The sensor was read.
    Reading(SensorReading),
    /// The sensor is left out, and the scan goes on.
    Skipped(TransientAbsence),
    /// The sensor's files are malformed, which ends the scan.
    Failed(MalformedDataError),
}

/// The mathematical value of a `SensorOutcome`.
pub ghost enum OutcomeModel {
    Reading(ReadingModel),
    Skipped(TransientAbsence),
    Failed(MalformedDataError),
}

impl DeepView for SensorOutcome {
    type V = OutcomeModel;

    open spec fn deep_view(&self) -> OutcomeModel {
        match self {
            SensorOutcome::Reading(reading) => OutcomeModel::Reading(reading.deep_view()),
            SensorOutcome::Skipped(why) => OutcomeModel::Skipped(*why),
            SensorOutcome::Failed(error) => OutcomeModel::Failed(*error),
        }
    }
}

/// What becomes of a sensor of the device `identity`, given what was
/// observed of its input file and of its label file. A file that is absent,
/// and an input that cannot be read, leave the sensor out. Once the input has
/// been read, a label that cannot be read and an input that is no whole number
/// of millidegrees are failures, the label's first.
pub open spec fn sensor_outcome(
    identity: IdentityModel,
    input: ProbeModel,
    label: ProbeModel,
) -> OutcomeModel {
    match (input, label) {
        (ProbeModel::Absent, _) => OutcomeModel::Skipped(TransientAbsence::InputAbsent),
        (_, ProbeModel::Absent) => OutcomeModel::Skipped(TransientAbsence::LabelAbsent),
        (ProbeModel::Unreadable, _) => OutcomeModel::Skipped(TransientAbsence::InputUnreadable),
        (ProbeModel::Content(_), ProbeModel::Unreadable) => OutcomeModel::Failed(
            MalformedDataError::LabelUnreadable,
        ),
        (ProbeModel::Content(raw), ProbeModel::Content(text)) => match millidegrees_value(
            trimmed(raw),
        ) {
            Some(value) => OutcomeModel::Reading(
                ReadingModel {
                    name: identity.name,
                    device: identity.device,
                    label: trimmed(text),
                    millidegrees: value as int,
                },
            ),
            None => OutcomeModel::Failed(MalformedDataError::InvalidValue),
        },
    }
}

/// Whether `entry` is a regular file whose name begins with `temp`.
pub fn entry_is_sensor_file(entry: &DirEntry) -> (r: bool)
    ensures
        r == is_sensor_file(entry.deep_view()),
{
    match &entry.name {
        Some(name) => entry.is_file && starts_with(name.as_str(), "temp"),
        None => false,
    }
}

/// Whether `listing` holds a regular file whose name begins with `temp`.
pub fn listing_has_sensor_file(listing: &Vec<DirEntry>) -> (r: bool)
    ensures
        r == has_sensor_file(listing.deep_view()),
{
    let mut i: usize = 0;
    while i < listing.len()
        invariant
            i <= listing.len(),
            forall|k: int| 0 <= k < i ==> !is_sensor_file(#[trigger] listing.deep_view()[k]),
        decreases listing.len() - i,
    {
        if entry_is_sensor_file(&listing[i]) {
            proof {
                assert(is_sensor_file(listing.deep_view()[i as int]));
            }
            return true;
        }
        i += 1;
    }
    false
}

/// The name of the file that holds the value of sensor `index`.
pub fn input_file_name(index: &str) -> (r: String)
    ensures
        r@ == input_file(index@),
{
    let mut name = String::from_str("temp");
    name.append(index);
    name.append("_input");
    name
}

/// The name of the file that holds the label of sensor `index`.
pub fn label_file_name(index: &str) -> (r: String)
    ensures
        r@ == label_file(index@),
{
    let mut name = String::from_str("temp");
    name.append(index);
    name.append("_label");
    name
}

/// Looks up what was observed of the file `file_name`.
pub fn find_probe<'a>(files: &'a Vec<NamedProbe>, file_name: &String) -> (r: Option<&'a FileProbe>)
    ensures
        probe_of(files.deep_view(), file_name@) == (match r {
            Some(probe) => probe.deep_view(),
            None => ProbeModel::Absent,
        }),
        r is None ==> forall|k: int|
            0 <= k < files.len() ==> (#[trigger] files[k]).file_name@ != file_name@,
{
    let mut i: usize = 0;
    proof {
        assert(files.deep_view().skip(0) =~= files.deep_view());
    }
    while i < files.len()
        invariant
            i <= files.len(),
            probe_of(files.deep_view(), file_name@) == probe_of(
                files.deep_view().skip(i as int),
                file_name@,
            ),
            forall|k: int| 0 <= k < i ==> (#[trigger] files[k]).file_name@ != file_name@,
        decreases files.len() - i,
    {
        proof {
            assert(files.deep_view().skip(i as int).first() == files[i as int].deep_view());
            assert(files.deep_view().skip(i as int).drop_first() =~= files.deep_view().skip(
                i + 1,
            ));
        }
        if files[i].file_name == *file_name {
            return Some(&files[i].probe);
        }
        i += 1;
    }
    None
}

/// Resolves who a device is from its `name` file and the path that its
/// `device` entry resolves to.
pub fn resolve_identity(name: &FileProbe, device: &Option<String>) -> (r: Result<
    DeviceIdentity,
    StructuralError,
>)
    ensures
        identity_result(r) == identity_of(name.deep_view(), device.deep_view()),
{
    match name {
        FileProbe::Content(text) => match device {
            Some(path) => {
                let segment = last_segment(path.as_str());
                if segment.as_str().unicode_len() > 0 {
                    Ok(DeviceIdentity { name: trim(text.as_str()), device: segment })
                } else {
                    Err(StructuralError::DeviceUnresolved)
                }
            },
            None => Err(StructuralError::DeviceUnresolved),
        },
        _ => Err(StructuralError::NameUnreadable),
    }
}

/// The mathematical value of a scan's result.
pub open spec fn readings_result(r: Result<Vec<SensorReading>, ScanError>) -> Result<
    Seq<ReadingModel>,
    ScanError,
> {
    match r {
        Ok(readings) => Ok(readings.deep_view()),
        Err(error) => Err(error),
    }
}

/// The readings `before`, followed by `more`; the first failure where there
/// is one.
pub open spec fn followed_by(
    before: Result<Seq<ReadingModel>, ScanError>,
    more: Result<Seq<ReadingModel>, ScanError>,
) -> Result<Seq<ReadingModel>, ScanError> {
    match before {
        Err(error) => Err(error),
        Ok(first) => match more {
            Err(error) => Err(error),
            Ok(second) => Ok(first + second),
        },
    }
}

/// What a file name adds to the readings, given the sensor index that it
/// holds: nothing where it holds none, else what becomes of that sensor
/// according to its two files.
pub open spec fn index_readings(
    identity: IdentityModel,
    index: Option<Seq<char>>,
    files: Seq<NamedProbeModel>,
) -> Result<Seq<ReadingModel>, ScanError> {
    match index {
        None => Ok(Seq::empty()),
        Some(index) => match sensor_outcome(
            identity,
            probe_of(files, input_file(index)),
            probe_of(files, label_file(index)),
        ) {
            OutcomeModel::Reading(reading) => Ok(seq![reading]),
            OutcomeModel::Skipped(_) => Ok(Seq::empty()),
            OutcomeModel::Failed(error) => Err(ScanError::MalformedData(error)),
        },
    }
}

/// What one entry of a device's listing adds to the readings: what the
/// sensor index in its name adds. An entry whose name is not text is a
/// failure.
pub open spec fn entry_readings(
    identity: IdentityModel,
    entry: EntryModel,
    files: Seq<NamedProbeModel>,
) -> Result<Seq<ReadingModel>, ScanError> {
    match entry.name {
        None => Err(ScanError::Structure(StructuralError::EntryNameUnreadable)),
        Some(name) => index_readings(identity, SensorPattern::index_of(name), files),
    }
}

/// The mathematical value of what `read_sensor` returns: at most one
/// reading, or the failure.
pub open spec fn sensor_result(r: Result<Option<SensorReading>, ScanError>) -> Result<
    Seq<ReadingModel>,
    ScanError,
> {
    match r {
        Ok(Some(reading)) => Ok(seq![reading.deep_view()]),
        Ok(None) => Ok(Seq::empty()),
        Err(error) => Err(error),
    }
}

/// The readings of a device's sensors in the order of `listing`; the first
/// failure in that order where there is one.
pub open spec fn listing_readings(
    identity: IdentityModel,
    listing: Seq<EntryModel>,
    files: Seq<NamedProbeModel>,
) -> Result<Seq<ReadingModel>, ScanError>
    decreases listing.len(),
{
    if listing.len() == 0 {
        Ok(Seq::empty())
    } else {
        followed_by(
            listing_readings(identity, listing.drop_last(), files),
            entry_readings(identity, listing.last(), files),
        )
    }
}

/// A directory is scanned as a device where it holds a sensor file and a
/// file `name`.
pub open spec fn is_device(listing: Seq<EntryModel>, name: ProbeModel) -> bool {
    has_sensor_file(listing) && !(name is Absent)
}

/// The readings of one directory under the root. A directory that is no
/// device has none. One that cannot be listed, and a device whose identity
/// cannot be resolved, are failures.
pub open spec fn device_readings(device: DeviceModel) -> Result<Seq<ReadingModel>, ScanError> {
    match device.listing {
        None => Err(ScanError::Structure(StructuralError::DirectoryUnreadable)),
        Some(listing) => if !is_device(listing, device.name) {
            Ok(Seq::empty())
        } else {
            match identity_of(device.name, device.device) {
                Err(error) => Err(ScanError::Structure(error)),
                Ok(identity) => listing_readings(identity, listing, device.files),
            }
        },
    }
}

/// The readings of the directories `devices`, in their order; the first
/// failure in that order where there is one.
pub open spec fn devices_readings(devices: Seq<DeviceModel>) -> Result<
    Seq<ReadingModel>,
    ScanError,
>
    decreases devices.len(),
{
    if devices.len() == 0 {
        Ok(Seq::empty())
    } else {
        followed_by(devices_readings(devices.drop_last()), device_readings(devices.last()))
    }
}

/// The readings of the whole tree. `None` stands for a root that could not be
/// listed, which is a failure.
pub open spec fn scan_readings(root: Option<Seq<DeviceModel>>) -> Result<
    Seq<ReadingModel>,
    ScanError,
> {
    match root {
        None => Err(ScanError::Structure(StructuralError::RootUnreadable)),
        Some(devices) => devices_readings(devices),
    }
}

/// A failure among the first `k` entries is the failure of the listing.
pub proof fn lemma_listing_failure_stays(
    identity: IdentityModel,
    listing: Seq<EntryModel>,
    files: Seq<NamedProbeModel>,
    k: int,
)
    requires
        0 <= k <= listing.len(),
        listing_readings(identity, listing.take(k), files) is Err,
    ensures
        listing_readings(identity, listing, files) == listing_readings(
            identity,
            listing.take(k),
            files,
        ),
    decreases listing.len(),
{
    if k == listing.len() {
        assert(listing.take(k) =~= listing);
    } else {
        assert(listing.drop_last().take(k) =~= listing.take(k));
        lemma_listing_failure_stays(identity, listing.drop_last(), files, k);
    }
}

/// A failure among the first `k` directories is the failure of the scan.
pub proof fn lemma_devices_failure_stays(devices: Seq<DeviceModel>, k: int)
    requires
        0 <= k <= devices.len(),
        devices_readings(devices.take(k)) is Err,
    ensures
        devices_readings(devices) == devices_readings(devices.take(k)),
    decreases devices.len(),
{
    if k == devices.len() {
        assert(devices.take(k) =~= devices);
    } else {
        assert(devices.drop_last().take(k) =~= devices.take(k));
        lemma_devices_failure_stays(devices.drop_last(), k);
    }
}

/// Decides what becomes of one sensor of the device `identity` from what was
/// observed of its input file and of its label file.
pub fn classify_sensor(identity: &DeviceIdentity, input: &FileProbe, label: &FileProbe) -> (r:
    SensorOutcome)
    ensures
        r.deep_view() == sensor_outcome(
            identity.deep_view(),
            input.deep_view(),
            label.deep_view(),
        ),
{
    match input {
        FileProbe::Absent => SensorOutcome::Skipped(TransientAbsence::InputAbsent),
        FileProbe::Unreadable => match label {
            FileProbe::Absent => SensorOutcome::Skipped(TransientAbsence::LabelAbsent),
            _ => SensorOutcome::Skipped(TransientAbsence::InputUnreadable),
        },
        FileProbe::Content(raw) => match label {
            FileProbe::Absent => SensorOutcome::Skipped(TransientAbsence::LabelAbsent),
            FileProbe::Unreadable => SensorOutcome::Failed(MalformedDataError::LabelUnreadable),
            FileProbe::Content(text) => {
                let value = trim(raw.as_str());
                match parse_millidegrees(value.as_str()) {
                    Some(millidegrees) => SensorOutcome::Reading(
                        SensorReading {
                            name: identity.name.clone(),
                            device: identity.device.clone(),
                            label: trim(text.as_str()),
                            millidegrees,
                        },
                    ),
                    None => SensorOutcome::Failed(MalformedDataError::InvalidValue),
                }
            },
        },
    }
}

/// What was observed of the file `file_name`, with `Absent` for a file that
/// was not probed.
fn probe_or_absent<'a>(
    files: &'a Vec<NamedProbe>,
    file_name: &String,
    absent: &'a FileProbe,
) -> (r: &'a FileProbe)
    requires
        absent.deep_view() == ProbeModel::Absent,
    ensures
        r.deep_view() == probe_of(files.deep_view(), file_name@),
{
    match find_probe(files, file_name) {
        Some(probe) => probe,
        None => absent,
    }
}

/// Reads the sensor that a file name holds the index of: looks up its input
/// file and its label file in `files` and decides what becomes of it. `None`
/// for `index` stands for a name that holds no index, which adds nothing.
pub fn read_sensor(
    identity: &DeviceIdentity,
    index: &Option<String>,
    files: &Vec<NamedProbe>,
) -> (r: Result<Option<SensorReading>, ScanError>)
    ensures
        sensor_result(r) == index_readings(
            identity.deep_view(),
            index.deep_view(),
            files.deep_view(),
        ),
{
    match index {
        None => Ok(None),
        Some(index) => {
            let absent = FileProbe::Absent;
            let input_name = input_file_name(index.as_str());
            let label_name = label_file_name(index.as_str());
            let input = probe_or_absent(files, &input_name, &absent);
            let label = probe_or_absent(files, &label_name, &absent);
            match classify_sensor(identity, input, label) {
                SensorOutcome::Reading(reading) => Ok(Some(reading)),
                SensorOutcome::Skipped(_) => Ok(None),
                SensorOutcome::Failed(error) => Err(ScanError::MalformedData(error)),
            }
        },
    }
}

/// The readings of the device `identity`: for each entry of `listing` that
/// names a sensor input, in order, what `files` shows of that sensor.
pub fn extract_readings(
    pattern: &SensorPattern,
    identity: &DeviceIdentity,
    listing: &Vec<DirEntry>,
    files: &Vec<NamedProbe>,
) -> (r: Result<Vec<SensorReading>, ScanError>)
    ensures
        readings_result(r) == listing_readings(
            identity.deep_view(),
            listing.deep_view(),
            files.deep_view(),
        ),
{
    let mut readings: Vec<SensorReading> = Vec::new();
    let mut i: usize = 0;
    proof {
        assert(listing.deep_view().take(0) =~= Seq::<EntryModel>::empty());
        assert(readings.deep_view() =~= Seq::<ReadingModel>::empty());
    }
    while i < listing.len()
        invariant
            i <= listing.len(),
            listing_readings(
                identity.deep_view(),
                listing.deep_view().take(i as int),
                files.deep_view(),
            ) == Ok::<Seq<ReadingModel>, ScanError>(readings.deep_view()),
        decreases listing.len() - i,
    {
        let ghost upto = listing.deep_view().take(i + 1);
        proof {
            assert(upto.drop_last() =~= listing.deep_view().take(i as int));
            assert(upto.last() == listing[i as int].deep_view());
        }
        let ghost before = readings.deep_view();
        match &listing[i].name {
            None => {
                proof {
                    lemma_listing_failure_stays(
                        identity.deep_view(),
                        listing.deep_view(),
                        files.deep_view(),
                        i + 1,
                    );
                }
                return Err(ScanError::Structure(StructuralError::EntryNameUnreadable));
            },
            Some(name) => {
                let index = pattern.sensor_index(name.as_str());
                match read_sensor(identity, &index, files) {
                    Ok(Some(reading)) => {
                        readings.push(reading);
                        proof {
                            assert(readings.deep_view() =~= before + seq![reading.deep_view()]);
                        }
                    },
                    Ok(None) => {
                        proof {
                            assert(before + Seq::<ReadingModel>::empty() =~= before);
                        }
                    },
                    Err(error) => {
                        proof {
                            lemma_listing_failure_stays(
                                identity.deep_view(),
                                listing.deep_view(),
                                files.deep_view(),
                                i + 1,
                            );
                        }
                        return Err(error);
                    },
                }
            },
        }
        i += 1;
    }
    proof {
        assert(listing.deep_view().take(i as int) =~= listing.deep_view());
    }
    Ok(readings)
}

/// Whether a directory is scanned as a device: it holds a sensor file and a
/// file `name`.
pub fn directory_is_device(listing: &Vec<DirEntry>, name: &FileProbe) -> (r: bool)
    ensures
        r == is_device(listing.deep_view(), name.deep_view()),
{
    match name {
        FileProbe::Absent => false,
        _ => listing_has_sensor_file(listing),
    }
}

/// The readings of one directory under the root.
pub fn scan_device(pattern: &SensorPattern, device: &DeviceSnapshot) -> (r: Result<
    Vec<SensorReading>,
    ScanError,
>)
    ensures
        readings_result(r) == device_readings(device.deep_view()),
{
    match &device.listing {
        None => Err(ScanError::Structure(StructuralError::DirectoryUnreadable)),
        Some(listing) => {
            if !directory_is_device(listing, &device.name) {
                let none: Vec<SensorReading> = Vec::new();
                proof {
                    assert(none.deep_view() =~= Seq::<ReadingModel>::empty());
                }
                return Ok(none);
            }
            match resolve_identity(&device.name, &device.device) {
                Err(error) => Err(ScanError::Structure(error)),
                Ok(identity) => extract_readings(pattern, &identity, listing, &device.files),
            }
        },
    }
}

/// Scans the whole tree: the readings of every device in the order of the
/// root's listing, or the first failure. `None` stands for a root that could
/// not be listed.
pub fn scan(pattern: &SensorPattern, root: &Option<Vec<DeviceSnapshot>>) -> (r: Result<
    Vec<SensorReading>,
    ScanError,
>)
    ensures
        readings_result(r) == scan_readings(root.deep_view()),
{
    match root {
        None => Err(ScanError::Structure(StructuralError::RootUnreadable)),
        Some(devices) => {
            let mut readings: Vec<SensorReading> = Vec::new();
            let mut i: usize = 0;
            proof {
                assert(devices.deep_view().take(0) =~= Seq::<DeviceModel>::empty());
                assert(readings.deep_view() =~= Seq::<ReadingModel>::empty());
            }
            while i < devices.len()
                invariant
                    i <= devices.len(),
                    root.deep_view() == Some(devices.deep_view()),
                    devices_readings(devices.deep_view().take(i as int)) == Ok::<
                        Seq<ReadingModel>,
                        ScanError,
                    >(readings.deep_view()),
                decreases devices.len() - i,
            {
                let ghost upto = devices.deep_view().take(i + 1);
                let ghost before = readings.deep_view();
                proof {
                    assert(upto.drop_last() =~= devices.deep_view().take(i as int));
                    assert(upto.last() == devices[i as int].deep_view());
                }
                match scan_device(pattern, &devices[i]) {
                    Err(error) => {
                        proof {
                            lemma_devices_failure_stays(devices.deep_view(), i + 1);
                        }
                        return Err(error);
                    },
                    Ok(mut more) => {
                        let ghost added = more.deep_view();
                        readings.append(&mut more);
                        proof {
                            assert(readings.deep_view() =~= before + added);
                        }
                    },
                }
                i += 1;
            }
            proof {
                assert(devices.deep_view().take(i as int) =~= devices.deep_view());
            }
            Ok(readings)
        },
    }
}

/// The sensor files that one entry of a listing calls for: the input file
/// and the label file of the index that its name holds.
pub open spec fn entry_sensor_files(entry: EntryModel) -> Seq<Seq<char>> {
    match entry.name {
        None => Seq::empty(),
        Some(name) => match SensorPattern::index_of(name) {
            None => Seq::empty(),
            Some(index) => seq![input_file(index), label_file(index)],
        },
    }
}

/// The sensor files that a listing calls for, in its order.
pub open spec fn listing_sensor_files(listing: Seq<EntryModel>) -> Seq<Seq<char>>
    decreases listing.len(),
{
    if listing.len() == 0 {
        Seq::empty()
    } else {
        listing_sensor_files(listing.drop_last()) + entry_sensor_files(listing.last())
    }
}

/// The names of the files that a scan of a device with this listing looks
/// up: they are the files to probe for its snapshot.
pub fn sensor_file_names(pattern: &SensorPattern, listing: &Vec<DirEntry>) -> (r: Vec<String>)
    ensures
        r.deep_view() == listing_sensor_files(listing.deep_view()),
{
    let mut names: Vec<String> = Vec::new();
    let mut i: usize = 0;
    proof {
        assert(listing.deep_view().take(0) =~= Seq::<EntryModel>::empty());
        assert(names.deep_view() =~= Seq::<Seq<char>>::empty());
    }
    while i < listing.len()
        invariant
            i <= listing.len(),
            names.deep_view() == listing_sensor_files(listing.deep_view().take(i as int)),
        decreases listing.len() - i,
    {
        let ghost upto = listing.deep_view().take(i + 1);
        let ghost before = names.deep_view();
        proof {
            assert(upto.drop_last() =~= listing.deep_view().take(i as int));
            assert(upto.last() == listing[i as int].deep_view());
        }
        match &listing[i].name {
            None => {
                proof {
                    assert(before + Seq::<Seq<char>>::empty() =~= before);
                }
            },
            Some(name) => match pattern.sensor_index(name.as_str()) {
                None => {
                    proof {
                        assert(before + Seq::<Seq<char>>::empty() =~= before);
                    }
                },
                Some(index) => {
                    let input_name = input_file_name(index.as_str());
                    let label_name = label_file_name(index.as_str());
                    names.push(input_name);
                    names.push(label_name);
                    proof {
                        assert(names.deep_view() =~= before + seq![
                            input_file(index@),
                            label_file(index@),
                        ]);
                    }
                },
            },
        }
        i += 1;
    }
    proof {
        assert(listing.deep_view().take(i as int) =~= listing.deep_view());
    }
    names
}

} // verus!
