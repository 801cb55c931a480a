//! The text form of the readings, and the response that carries it.

use crate::model::{
    DeviceSnapshot, MalformedDataError, ReadingModel, ScanError, SensorReading, StructuralError,
};
use crate::pattern::SensorPattern;
use crate::scan::{readings_result, scan, scan_readings};
use crate::value::{celsius_text, render_celsius};
use vstd::prelude::*;
use vstd::string::*;

verus! {

/// The status of a response that carries the metrics.
pub const STATUS_OK: u16 = 200;

/// The status of a response that reports a failed scan.
pub const STATUS_INTERNAL_SERVER_ERROR: u16 = 500;

/// The line for one reading: the metric's name, the device and the label in
/// braces, the temperature in degrees, and a line feed. Nothing is escaped.
pub open spec fn metric_line(reading: ReadingModel) -> Seq<char> {
    "temp_"@ + reading.name + "{device=\""@ + reading.device + "\",label=\""@ + reading.label
        + "\"} "@ + celsius_text(reading.millidegrees) + "\n"@
}

/// The lines of `readings`, one after the other in their order.
pub open spec fn metrics_text(readings: Seq<ReadingModel>) -> Seq<char>
    decreases readings.len(),
{
    if readings.len() == 0 {
        Seq::empty()
    } else {
        metrics_text(readings.drop_last()) + metric_line(readings.last())
    }
}

/// What a response says of a structural failure.
pub open spec fn structural_text(error: StructuralError) -> Seq<char> {
    match error {
        StructuralError::RootUnreadable => "the monitoring root cannot be listed"@,
        StructuralError::DirectoryUnreadable => "a monitoring directory cannot be listed"@,
        StructuralError::NameUnreadable => "the name of a device cannot be read"@,
        StructuralError::DeviceUnresolved => "the device entry of a device cannot be resolved"@,
        StructuralError::EntryNameUnreadable => "the name of a directory entry is not text"@,
    }
}

/// What a response says of malformed data.
pub open spec fn malformed_text(error: MalformedDataError) -> Seq<char> {
    match error {
        MalformedDataError::InvalidValue => "a sensor input is not a whole number of millidegrees"@,
        MalformedDataError::LabelUnreadable => "a sensor label cannot be read"@,
    }
}

/// What a response says of a failed scan.
pub open spec fn error_text(error: ScanError) -> Seq<char> {
    match error {
        ScanError::Structure(inner) => structural_text(inner),
        ScanError::MalformedData(inner) => malformed_text(inner),
    }
}

/// What is sent back for one request.
#[derive(Clone, Debug, PartialEq, Eq)]
pub struct Response {
    pub status: u16,
    pub body: String,
}

/// The mathematical value of a `Response`.
pub ghost struct ResponseModel {
    pub status: int,
    pub body: Seq<char>,
}

impl DeepView for Response {
    type V = ResponseModel;

    open spec fn deep_view(&self) -> ResponseModel {
        ResponseModel { status: self.status as int, body: self.body@ }
    }
}

/// The response to a scan that ended in `result`: the metrics where it
/// succeeded, the description of the failure where it did not.
pub open spec fn response_of(result: Result<Seq<ReadingModel>, ScanError>) -> ResponseModel {
    match result {
        Ok(readings) => ResponseModel { status: 200, body: metrics_text(readings) },
        Err(error) => ResponseModel { status: 500, body: error_text(error) },
    }
}

/// Writes the line for one reading.
pub fn render_line(reading: &SensorReading) -> (r: String)
    ensures
        r@ == metric_line(reading.deep_view()),
{
    let mut line = String::from_str("temp_");
    line.append(reading.name.as_str());
    line.append("{device=\"");
    line.append(reading.device.as_str());
    line.append("\",label=\"");
    line.append(reading.label.as_str());
    line.append("\"} ");
    let value = render_celsius(reading.millidegrees);
    line.append(value.as_str());
    line.append("\n");
    line
}

/// Writes the metrics: one line for each reading, in the order given.
pub fn render(readings: &Vec<SensorReading>) -> (r: String)
    ensures
        r@ == metrics_text(readings.deep_view()),
{
    let mut body = String::new();
    let mut i: usize = 0;
    proof {
        assert(readings.deep_view().take(0) =~= Seq::<ReadingModel>::empty());
    }
    while i < readings.len()
        invariant
            i <= readings.len(),
            body@ == metrics_text(readings.deep_view().take(i as int)),
        decreases readings.len() - i,
    {
        proof {
            let upto = readings.deep_view().take(i + 1);
            assert(upto.drop_last() =~= readings.deep_view().take(i as int));
            assert(upto.last() == readings[i as int].deep_view());
        }
        let line = render_line(&readings[i]);
        body.append(line.as_str());
        i += 1;
    }
    proof {
        assert(readings.deep_view().take(i as int) =~= readings.deep_view());
    }
    body
}

/// Describes a failed scan in words.
pub fn describe(error: ScanError) -> (r: String)
    ensures
        r@ == error_text(error),
{
    let text = match error {
        ScanError::Structure(StructuralError::RootUnreadable) => {
            "the monitoring root cannot be listed"
        },
        ScanError::Structure(StructuralError::DirectoryUnreadable) => {
            "a monitoring directory cannot be listed"
        },
        ScanError::Structure(StructuralError::NameUnreadable) => {
            "the name of a device cannot be read"
        },
        ScanError::Structure(StructuralError::DeviceUnresolved) => {
            "the device entry of a device cannot be resolved"
        },
        ScanError::Structure(StructuralError::EntryNameUnreadable) => {
            "the name of a directory entry is not text"
        },
        ScanError::MalformedData(MalformedDataError::InvalidValue) => {
            "a sensor input is not a whole number of millidegrees"
        },
        ScanError::MalformedData(MalformedDataError::LabelUnreadable) => {
            "a sensor label cannot be read"
        },
    };
    String::from_str(text)
}

/// Turns the end of a scan into a response: status 200 with the metrics, or
/// status 500 with the description of the failure.
pub fn respond(result: &Result<Vec<SensorReading>, ScanError>) -> (r: Response)
    ensures
        r.deep_view() == response_of(readings_result(*result)),
{
    match result {
        Ok(readings) => Response { status: STATUS_OK, body: render(readings) },
        Err(error) => Response { status: STATUS_INTERNAL_SERVER_ERROR, body: describe(*error) },
    }
}

/// Answers one request from a snapshot of the tree: scans it and renders
/// what the scan gave.
pub fn metrics_response(pattern: &SensorPattern, root: &Option<Vec<DeviceSnapshot>>) -> (r:
    Response)
    ensures
        r.deep_view() == response_of(scan_readings(root.deep_view())),
{
    let result = scan(pattern, root);
    respond(&result)
}

} // verus!
