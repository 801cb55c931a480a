//! What holds of every scan.

use crate::model::{
    DeviceModel, EntryModel, NamedProbeModel, ProbeModel, ReadingModel, ScanError,
    StructuralError,
};
use crate::pattern::SensorPattern;
use crate::render::{error_text, metric_line, metrics_text, response_of, ResponseModel};
use crate::scan::{
    device_readings, devices_readings, entry_readings, followed_by, has_sensor_file, identity_of,
    input_file, is_device, label_file, listing_readings, probe_of, scan_readings, IdentityModel,
};
use crate::text::{has_prefix, trimmed};
use crate::value::{
    all_digits, celsius_text, digit_char, digit_value, digits_value, fraction_text, integer_value,
    is_digit, millidegrees_value, natural_text,
};
use vstd::prelude::*;

verus! {

/// The text holds no line feed.
pub open spec fn is_one_line(text: Seq<char>) -> bool {
    forall|i: int| 0 <= i < text.len() ==> #[trigger] text[i] != '\n'
}

/// The description of a failure holds no line feed.
pub proof fn lemma_error_text_is_one_line(error: ScanError)
    ensures
        is_one_line(error_text(error)),
{
    reveal_strlit("the monitoring root cannot be listed");
    reveal_strlit("a monitoring directory cannot be listed");
    reveal_strlit("the name of a device cannot be read");
    reveal_strlit("the device entry of a device cannot be resolved");
    reveal_strlit("the name of a directory entry is not text");
    reveal_strlit("a sensor input is not a whole number of millidegrees");
    reveal_strlit("a sensor label cannot be read");
}

/// Followed by no readings, a result stays as it is.
proof fn lemma_followed_by_nothing(before: Result<Seq<ReadingModel>, ScanError>)
    ensures
        followed_by(before, Ok(Seq::empty())) == before,
{
    if let Ok(first) = before {
        assert(first + Seq::<ReadingModel>::empty() =~= first);
    }
}

/// Preceded by no readings, a result stays as it is.
proof fn lemma_nothing_followed_by(more: Result<Seq<ReadingModel>, ScanError>)
    ensures
        followed_by(Ok(Seq::empty()), more) == more,
{
    if let Ok(second) = more {
        assert(Seq::<ReadingModel>::empty() + second =~= second);
    }
}

/// The scan of two runs of directories, one after the other, is the scan of
/// the first followed by the scan of the second.
pub proof fn lemma_devices_in_sequence(first: Seq<DeviceModel>, second: Seq<DeviceModel>)
    ensures
        devices_readings(first + second) == followed_by(
            devices_readings(first),
            devices_readings(second),
        ),
    decreases second.len(),
{
    if second.len() == 0 {
        assert(first + second =~= first);
        lemma_followed_by_nothing(devices_readings(first));
    } else {
        assert((first + second).drop_last() =~= first + second.drop_last());
        assert((first + second).last() == second.last());
        lemma_devices_in_sequence(first, second.drop_last());
        let a = devices_readings(first);
        let b = devices_readings(second.drop_last());
        let c = device_readings(second.last());
        if let Ok(x) = a {
            if let Ok(y) = b {
                if let Ok(z) = c {
                    assert((x + y) + z =~= x + (y + z));
                }
            }
        }
    }
}

/// A sensor of which only the input file or only the label file is there
/// adds no reading, and no failure comes of it.
pub proof fn law_half_a_pair_is_left_out(
    identity: IdentityModel,
    entry: EntryModel,
    files: Seq<NamedProbeModel>,
    index: Seq<char>,
)
    requires
        entry.name is Some,
        SensorPattern::index_of(entry.name->0) == Some(index),
        probe_of(files, input_file(index)) is Absent || probe_of(files, label_file(index)) is Absent,
    ensures
        entry_readings(identity, entry, files) == Ok::<Seq<ReadingModel>, ScanError>(Seq::empty()),
{
}

/// A directory that can be listed and holds no file `name` has no readings
/// and is no failure, whatever else was observed of it.
pub proof fn law_directory_without_name_is_no_device(device: DeviceModel)
    requires
        device.listing is Some,
        device.name is Absent,
    ensures
        device_readings(device) == Ok::<Seq<ReadingModel>, ScanError>(Seq::empty()),
{
}

/// A directory that can be listed and holds no file `name` changes nothing
/// in the scan: with it and without it the result is the same.
pub proof fn law_directory_without_name_is_left_out(
    before: Seq<DeviceModel>,
    device: DeviceModel,
    after: Seq<DeviceModel>,
)
    requires
        device.listing is Some,
        device.name is Absent,
    ensures
        scan_readings(Some(before + seq![device] + after)) == scan_readings(Some(before + after)),
{
    let alone = seq![device];
    reveal_with_fuel(devices_readings, 2);
    assert(alone.drop_last() =~= Seq::<DeviceModel>::empty());
    assert(alone.last() == device);
    lemma_nothing_followed_by(device_readings(device));
    assert(devices_readings(alone) == Ok::<Seq<ReadingModel>, ScanError>(Seq::empty()));
    lemma_devices_in_sequence(before, alone);
    lemma_followed_by_nothing(devices_readings(before));
    lemma_devices_in_sequence(before + alone, after);
    lemma_devices_in_sequence(before, after);
}

/// A root that cannot be listed is answered with status 500, and the body
/// is the description of that failure: it holds no line, so no metric.
pub proof fn law_unreadable_root_has_no_metrics()
    ensures
        response_of(scan_readings(None)).status == 500,
        response_of(scan_readings(None)).body == error_text(
            ScanError::Structure(StructuralError::RootUnreadable),
        ),
        is_one_line(response_of(scan_readings(None)).body),
{
    lemma_error_text_is_one_line(
        ScanError::Structure(StructuralError::RootUnreadable),
    );
}

/// Every failed scan is answered with status 500 and a body without a line
/// feed, and every scan that succeeds with status 200.
pub proof fn law_status_tells_failure(root: Option<Seq<DeviceModel>>)
    ensures
        scan_readings(root) is Err ==> response_of(scan_readings(root)).status == 500
            && is_one_line(response_of(scan_readings(root)).body),
        scan_readings(root) is Ok ==> response_of(scan_readings(root)).status == 200,
{
    if let Err(error) = scan_readings(root) {
        lemma_error_text_is_one_line(error);
    }
}

/// Two scans of the same observed state are answered alike, status and body.
pub proof fn law_same_state_same_answer(
    first: Option<Seq<DeviceModel>>,
    second: Option<Seq<DeviceModel>>,
    first_answer: ResponseModel,
    second_answer: ResponseModel,
)
    requires
        first == second,
        first_answer == response_of(scan_readings(first)),
        second_answer == response_of(scan_readings(second)),
    ensures
        first_answer.status == second_answer.status,
        first_answer.body == second_answer.body,
{
}

/// The entry's name holds a sensor index.
pub open spec fn names_sensor(entry: EntryModel) -> bool {
    entry.name is Some && SensorPattern::index_of(entry.name->0) is Some
}

/// The sensor index that the entry's name holds.
pub open spec fn sensor_of(entry: EntryModel) -> Seq<char> {
    SensorPattern::index_of(entry.name->0)->0
}

/// How many entries of the listing name a sensor.
pub open spec fn sensor_count(listing: Seq<EntryModel>) -> nat
    decreases listing.len(),
{
    if listing.len() == 0 {
        0
    } else if names_sensor(listing.last()) {
        sensor_count(listing.drop_last()) + 1
    } else {
        sensor_count(listing.drop_last())
    }
}

/// Both files of sensor `index` were read, and its input holds a whole
/// number of millidegrees.
pub open spec fn pair_is_consistent(files: Seq<NamedProbeModel>, index: Seq<char>) -> bool {
    &&& probe_of(files, input_file(index)) is Content
    &&& probe_of(files, label_file(index)) is Content
    &&& millidegrees_value(trimmed(probe_of(files, input_file(index))->Content_0)) is Some
}

/// The reading of a consistent pair: the trimmed label, and the number
/// that the trimmed input denotes.
pub open spec fn pair_reading(
    identity: IdentityModel,
    files: Seq<NamedProbeModel>,
    index: Seq<char>,
) -> ReadingModel {
    ReadingModel {
        name: identity.name,
        device: identity.device,
        label: trimmed(probe_of(files, label_file(index))->Content_0),
        millidegrees: integer_value(trimmed(probe_of(files, input_file(index))->Content_0))->0,
    }
}

/// Every entry's name is text, and every sensor that the listing names has
/// a consistent pair of files.
pub open spec fn listing_is_consistent(
    listing: Seq<EntryModel>,
    files: Seq<NamedProbeModel>,
) -> bool {
    forall|k: int|
        0 <= k < listing.len() ==> (#[trigger] listing[k]).name is Some && (names_sensor(listing[k])
            ==> pair_is_consistent(files, sensor_of(listing[k])))
}

/// A consistent listing gives exactly one reading for each entry that names
/// a sensor, in the order of the listing, and that reading holds the number
/// in the sensor's input file. An entry names a sensor only by being its
/// input file, so in a listing without a repeated name that is one reading
/// for each pair of sensor files.
pub proof fn law_one_reading_per_pair(
    identity: IdentityModel,
    listing: Seq<EntryModel>,
    files: Seq<NamedProbeModel>,
)
    requires
        listing_is_consistent(listing, files),
    ensures
        listing_readings(identity, listing, files) is Ok,
        listing_readings(identity, listing, files)->Ok_0.len() == sensor_count(listing),
        forall|k: int|
            0 <= k < listing.len() && names_sensor(#[trigger] listing[k]) ==> sensor_count(
                listing.take(k),
            ) < sensor_count(listing) && listing_readings(identity, listing, files)->Ok_0[sensor_count(
                listing.take(k),
            ) as int] == pair_reading(identity, files, sensor_of(listing[k])),
    decreases listing.len(),
{
    if listing.len() > 0 {
        let front = listing.drop_last();
        let last = listing.last();
        assert(listing_is_consistent(front, files)) by {
            assert forall|k: int| 0 <= k < front.len() implies (#[trigger] front[k]).name is Some
                && (names_sensor(front[k]) ==> pair_is_consistent(files, sensor_of(front[k]))) by {
                assert(front[k] == listing[k]);
            }
        }
        law_one_reading_per_pair(identity, front, files);
        assert(last == listing[listing.len() - 1]);
        let before = listing_readings(identity, front, files)->Ok_0;
        let more = entry_readings(identity, last, files)->Ok_0;
        let all = listing_readings(identity, listing, files)->Ok_0;
        assert(all == before + more);
        assert forall|k: int| 0 <= k < listing.len() && names_sensor(#[trigger] listing[k]) implies sensor_count(
            listing.take(k),
        ) < sensor_count(listing) && all[sensor_count(listing.take(k)) as int] == pair_reading(
            identity,
            files,
            sensor_of(listing[k]),
        ) by {
            if k < front.len() {
                assert(front[k] == listing[k]);
                assert(front.take(k) =~= listing.take(k));
            } else {
                assert(listing.take(k) =~= front);
            }
        }
    }
}

/// A device whose directory can be listed and holds a sensor file, whose
/// `name` can be read, whose `device` entry resolves to a path with a last
/// segment, and whose listing is consistent.
pub open spec fn device_is_well_formed(device: DeviceModel) -> bool {
    &&& device.listing is Some
    &&& has_sensor_file(device.listing->0)
    &&& identity_of(device.name, device.device) is Ok
    &&& listing_is_consistent(device.listing->0, device.files)
}

/// A well-formed device gives exactly one reading for each pair of sensor
/// files, in the order of its listing; each reading holds the device's
/// identity, the sensor's label and the number in the sensor's input file.
pub proof fn law_well_formed_device_reads_every_pair(device: DeviceModel)
    requires
        device_is_well_formed(device),
    ensures
        device_readings(device) is Ok,
        device_readings(device)->Ok_0.len() == sensor_count(device.listing->0),
        forall|k: int|
            0 <= k < device.listing->0.len() && names_sensor(#[trigger] device.listing->0[k])
                ==> sensor_count(device.listing->0.take(k)) < sensor_count(device.listing->0)
                && device_readings(device)->Ok_0[sensor_count(device.listing->0.take(k)) as int]
                == pair_reading(
                identity_of(device.name, device.device)->Ok_0,
                device.files,
                sensor_of(device.listing->0[k]),
            ),
{
    law_one_reading_per_pair(
        identity_of(device.name, device.device)->Ok_0,
        device.listing->0,
        device.files,
    );
}

/// How many sensors the listings of `devices` name, all together.
pub open spec fn tree_sensor_count(devices: Seq<DeviceModel>) -> nat
    decreases devices.len(),
{
    if devices.len() == 0 {
        0
    } else {
        tree_sensor_count(devices.drop_last()) + sensor_count(devices.last().listing->0)
    }
}

/// A tree of well-formed devices is scanned without failure, and the scan
/// gives exactly one reading for each pair of sensor files in it.
pub proof fn law_well_formed_tree_reads_every_pair(devices: Seq<DeviceModel>)
    requires
        forall|i: int| 0 <= i < devices.len() ==> device_is_well_formed(#[trigger] devices[i]),
    ensures
        scan_readings(Some(devices)) is Ok,
        response_of(scan_readings(Some(devices))).status == 200,
        scan_readings(Some(devices))->Ok_0.len() == tree_sensor_count(devices),
    decreases devices.len(),
{
    if devices.len() > 0 {
        let front = devices.drop_last();
        assert forall|i: int| 0 <= i < front.len() implies device_is_well_formed(
            #[trigger] front[i],
        ) by {
            assert(front[i] == devices[i]);
        }
        law_well_formed_tree_reads_every_pair(front);
        assert(devices.last() == devices[devices.len() - 1]);
        law_well_formed_device_reads_every_pair(devices.last());
    }
}

/// The digits of a number denote that number.
pub proof fn lemma_natural_text_denotes(n: nat)
    ensures
        natural_text(n).len() > 0,
        all_digits(natural_text(n)),
        digits_value(natural_text(n)) == n,
    decreases n,
{
    if n < 10 {
        let text = natural_text(n);
        assert(text.drop_last() =~= Seq::<char>::empty());
        assert(digits_value(text.drop_last()) == 0);
    } else {
        lemma_natural_text_denotes(n / 10);
        let text = natural_text(n);
        assert(text.drop_last() =~= natural_text(n / 10));
        assert forall|i: int| 0 <= i < text.len() implies is_digit(#[trigger] text[i]) by {
            if i < text.len() - 1 {
                assert(text[i] == natural_text(n / 10)[i]);
            }
        }
    }
}

/// The thousandths that an unsigned decimal numeral with `places` digits
/// after the point denotes.
pub open spec fn point_thousandths(text: Seq<char>, places: int) -> Option<int> {
    let whole = text.take(text.len() - places - 1);
    let part = text.skip(text.len() - places);
    if text.len() >= places + 2 && text[text.len() - places - 1] == '.' && all_digits(whole)
        && all_digits(part) {
        Some(
            digits_value(whole) * 1000 + digits_value(part) * (if places == 1 {
                100int
            } else if places == 2 {
                10int
            } else {
                1int
            }),
        )
    } else {
        None
    }
}

/// The thousandths that an unsigned decimal numeral denotes: digits, and
/// after them, if at all, a point and one to three digits.
pub open spec fn unsigned_thousandths(text: Seq<char>) -> Option<int> {
    if text.len() > 0 && all_digits(text) {
        Some(digits_value(text) * 1000)
    } else if point_thousandths(text, 1) is Some {
        point_thousandths(text, 1)
    } else if point_thousandths(text, 2) is Some {
        point_thousandths(text, 2)
    } else {
        point_thousandths(text, 3)
    }
}

/// The thousandths that a decimal numeral denotes, a leading minus sign
/// making them negative.
pub open spec fn decimal_thousandths(text: Seq<char>) -> Option<int> {
    if text.len() > 0 && text[0] == '-' {
        match unsigned_thousandths(text.drop_first()) {
            Some(v) => Some(-v),
            None => None,
        }
    } else {
        unsigned_thousandths(text)
    }
}

/// Each digit's character stands for that digit.
proof fn lemma_digit_char(d: int)
    requires
        0 <= d <= 9,
    ensures
        is_digit(digit_char(d)),
        digit_value(digit_char(d)) == d,
{
}

/// How many digits follow the point where the thousandths `f` are written.
pub open spec fn places_of(f: nat) -> int {
    if f % 100 == 0 {
        1
    } else if f % 10 == 0 {
        2
    } else {
        3
    }
}

/// What a unit in the last of `places` digits after the point is worth, in
/// thousandths.
pub open spec fn place_worth(places: int) -> int {
    if places == 1 {
        100
    } else if places == 2 {
        10
    } else {
        1
    }
}

/// The digits of one, two or three digit values denote their number.
proof fn lemma_short_digits(a: int, b: int, c: int)
    requires
        0 <= a <= 9,
        0 <= b <= 9,
        0 <= c <= 9,
    ensures
        all_digits(seq![digit_char(a)]),
        all_digits(seq![digit_char(a), digit_char(b)]),
        all_digits(seq![digit_char(a), digit_char(b), digit_char(c)]),
        digits_value(seq![digit_char(a)]) == a,
        digits_value(seq![digit_char(a), digit_char(b)]) == a * 10 + b,
        digits_value(seq![digit_char(a), digit_char(b), digit_char(c)]) == a * 100 + b * 10 + c,
{
    lemma_digit_char(a);
    lemma_digit_char(b);
    lemma_digit_char(c);
    let one = seq![digit_char(a)];
    let two = seq![digit_char(a), digit_char(b)];
    let three = seq![digit_char(a), digit_char(b), digit_char(c)];
    assert(one.drop_last() =~= Seq::<char>::empty());
    assert(digits_value(one.drop_last()) == 0);
    assert(digits_value(one) == a);
    assert(two.drop_last() =~= one);
    assert(digits_value(two) == a * 10 + b);
    assert(three.drop_last() =~= two);
    assert(digits_value(three) == (a * 10 + b) * 10 + c);
}

/// The fraction as written is a point and the digits of the thousandths.
proof fn lemma_fraction_text_denotes(f: nat)
    requires
        0 < f < 1000,
    ensures
        fraction_text(f).len() == places_of(f) + 1,
        fraction_text(f)[0] == '.',
        all_digits(fraction_text(f).skip(1)),
        digits_value(fraction_text(f).skip(1)) * place_worth(places_of(f)) == f,
{
    let a = (f / 100) as int;
    let b = (f / 10 % 10) as int;
    let c = (f % 10) as int;
    lemma_short_digits(a, b, c);
    let part = fraction_text(f).skip(1);
    if f % 100 == 0 {
        assert(part =~= seq![digit_char(a)]);
    } else if f % 10 == 0 {
        assert(part =~= seq![digit_char(a), digit_char(b)]);
    } else {
        assert(part =~= seq![digit_char(a), digit_char(b), digit_char(c)]);
    }
}

/// Digits, a point and one to three digits denote the whole number and the
/// thousandths that they spell.
proof fn lemma_unsigned_thousandths_of_parts(whole: Seq<char>, part: Seq<char>)
    requires
        whole.len() > 0,
        all_digits(whole),
        1 <= part.len() <= 3,
        all_digits(part),
    ensures
        unsigned_thousandths(whole + seq!['.'] + part) == Some(
            digits_value(whole) * 1000 + digits_value(part) * place_worth(part.len() as int),
        ),
{
    let text = whole + seq!['.'] + part;
    let places = part.len() as int;
    assert(text[whole.len() as int] == '.');
    assert(!is_digit('.'));
    assert(!all_digits(text));
    assert(text.take(text.len() - places - 1) =~= whole);
    assert(text.skip(text.len() - places) =~= part);
    assert forall|q: int| 1 <= q < places implies point_thousandths(text, q) is None by {
        assert(text[text.len() - q - 1] == part[places - q - 1]);
        assert(is_digit(part[places - q - 1]));
    }
}

/// The degrees as written denote the millidegrees exactly: read as a
/// decimal numeral, the text gives back the thousandths it was written from.
pub proof fn law_celsius_text_is_exact(m: int)
    ensures
        decimal_thousandths(celsius_text(m)) == Some(m),
{
    let magnitude = if m < 0 {
        (-m) as nat
    } else {
        m as nat
    };
    let w = magnitude / 1000;
    let f = magnitude % 1000;
    let whole = natural_text(w);
    let body = whole + fraction_text(f);
    lemma_natural_text_denotes(w);
    assert(is_digit(whole[0]));
    assert(body[0] == whole[0]);
    if f == 0 {
        assert(body =~= whole);
    } else {
        lemma_fraction_text_denotes(f);
        let part = fraction_text(f).skip(1);
        assert(body =~= whole + seq!['.'] + part);
        lemma_unsigned_thousandths_of_parts(whole, part);
    }
    assert(unsigned_thousandths(body) == Some(magnitude as int));
    if m < 0 {
        assert(celsius_text(m).drop_first() =~= body);
    } else {
        assert(celsius_text(m) == body);
    }
}

/// How many line feeds the text holds.
pub open spec fn line_feeds(text: Seq<char>) -> nat
    decreases text.len(),
{
    if text.len() == 0 {
        0
    } else if text.last() == '\n' {
        line_feeds(text.drop_last()) + 1
    } else {
        line_feeds(text.drop_last())
    }
}

/// The line feeds of two texts, one after the other, are those of both.
proof fn lemma_line_feeds_in_sequence(first: Seq<char>, second: Seq<char>)
    ensures
        line_feeds(first + second) == line_feeds(first) + line_feeds(second),
    decreases second.len(),
{
    if second.len() == 0 {
        assert(first + second =~= first);
    } else {
        assert((first + second).drop_last() =~= first + second.drop_last());
        lemma_line_feeds_in_sequence(first, second.drop_last());
    }
}

/// A text of one line holds no line feed.
proof fn lemma_one_line_has_no_feed(text: Seq<char>)
    requires
        is_one_line(text),
    ensures
        line_feeds(text) == 0,
    decreases text.len(),
{
    if text.len() > 0 {
        assert(text.last() == text[text.len() - 1]);
        assert forall|i: int| 0 <= i < text.drop_last().len() implies #[trigger] text.drop_last()[i]
            != '\n' by {
            assert(text.drop_last()[i] == text[i]);
        }
        lemma_one_line_has_no_feed(text.drop_last());
    }
}

/// The degrees as written hold no line feed.
proof fn lemma_celsius_text_is_one_line(m: int)
    ensures
        is_one_line(celsius_text(m)),
{
    let magnitude = if m < 0 {
        (-m) as nat
    } else {
        m as nat
    };
    lemma_natural_text_denotes(magnitude / 1000);
    let whole = natural_text(magnitude / 1000);
    let part = fraction_text(magnitude % 1000);
    if magnitude % 1000 != 0 {
        lemma_fraction_text_denotes(magnitude % 1000);
        assert forall|i: int| 0 <= i < part.len() implies #[trigger] part[i] != '\n' by {
            if i > 0 {
                assert(part[i] == part.skip(1)[i - 1]);
                assert(is_digit(part.skip(1)[i - 1]));
            }
        }
    }
    assert(is_one_line(whole)) by {
        assert forall|i: int| 0 <= i < whole.len() implies #[trigger] whole[i] != '\n' by {
            assert(is_digit(whole[i]));
        }
    }
    assert(is_one_line(part));
    assert(is_one_line(whole + part));
}

/// The line of a reading whose name, device and label hold no line feed
/// holds exactly one, at its end.
proof fn lemma_metric_line_is_one_line(reading: ReadingModel)
    requires
        is_one_line(reading.name),
        is_one_line(reading.device),
        is_one_line(reading.label),
    ensures
        line_feeds(metric_line(reading)) == 1,
{
    reveal_strlit("temp_");
    reveal_strlit("{device=\"");
    reveal_strlit("\",label=\"");
    reveal_strlit("\"} ");
    reveal_strlit("\n");
    lemma_celsius_text_is_one_line(reading.millidegrees);
    let head = "temp_"@ + reading.name + "{device=\""@ + reading.device + "\",label=\""@
        + reading.label + "\"} "@ + celsius_text(reading.millidegrees);
    assert(is_one_line(head));
    lemma_one_line_has_no_feed(head);
    lemma_line_feeds_in_sequence(head, "\n"@);
    assert("\n"@.drop_last() =~= Seq::<char>::empty());
    assert(line_feeds("\n"@.drop_last()) == 0);
    assert("\n"@.last() == '\n');
}

/// The metrics hold exactly one line for each reading, as long as no name,
/// device or label holds a line feed of its own.
pub proof fn law_one_line_per_reading(readings: Seq<ReadingModel>)
    requires
        forall|j: int|
            0 <= j < readings.len() ==> is_one_line((#[trigger] readings[j]).name) && is_one_line(
                readings[j].device,
            ) && is_one_line(readings[j].label),
    ensures
        line_feeds(metrics_text(readings)) == readings.len(),
    decreases readings.len(),
{
    if readings.len() > 0 {
        let front = readings.drop_last();
        assert forall|j: int| 0 <= j < front.len() implies is_one_line((#[trigger] front[j]).name)
            && is_one_line(front[j].device) && is_one_line(front[j].label) by {
            assert(front[j] == readings[j]);
        }
        law_one_line_per_reading(front);
        assert(readings.last() == readings[readings.len() - 1]);
        lemma_metric_line_is_one_line(readings.last());
        lemma_line_feeds_in_sequence(metrics_text(front), metric_line(readings.last()));
    }
}

/// How the names of sensor files are built: their length, where the index
/// stands in them, and their last character.
proof fn lemma_sensor_file_shape(index: Seq<char>)
    ensures
        input_file(index).len() == index.len() + 10,
        label_file(index).len() == index.len() + 10,
        input_file(index).subrange(4, 4 + index.len() as int) == index,
        label_file(index).subrange(4, 4 + index.len() as int) == index,
        input_file(index).last() == 't',
        label_file(index).last() == 'l',
{
    reveal_strlit("temp");
    reveal_strlit("_input");
    reveal_strlit("_label");
    assert(input_file(index).subrange(4, 4 + index.len() as int) =~= index);
    assert(label_file(index).subrange(4, 4 + index.len() as int) =~= index);
}

/// The name of a sensor file tells whose it is: two sensors share neither
/// an input file nor a label file, and no input file is a label file.
pub proof fn law_sensor_files_tell_their_index(first: Seq<char>, second: Seq<char>)
    ensures
        input_file(first) == input_file(second) ==> first == second,
        label_file(first) == label_file(second) ==> first == second,
        input_file(first) != label_file(second),
{
    lemma_sensor_file_shape(first);
    lemma_sensor_file_shape(second);
}

/// A name holds the index of a sensor only where it is the name of that
/// sensor's input file. So a label file names no sensor, and neither does a
/// name with anything before `temp` or after `_input`.
pub proof fn law_sensor_is_named_by_its_input_file(file_name: Seq<char>, index: Seq<char>)
    ensures
        SensorPattern::index_of(file_name) == Some(index) ==> file_name == input_file(index),
        SensorPattern::index_of(label_file(index)) is None,
        SensorPattern::index_of(file_name) is Some ==> file_name.len() >= 10 && has_prefix(
            file_name,
            "temp"@,
        ) && file_name.skip(file_name.len() - 6) == "_input"@,
{
    if let Some(other) = SensorPattern::index_of(label_file(index)) {
        law_sensor_files_tell_their_index(other, index);
    }
    if let Some(held) = SensorPattern::index_of(file_name) {
        lemma_sensor_file_shape(held);
        reveal_strlit("temp");
        reveal_strlit("_input");
        assert(file_name.take(4) =~= "temp"@);
        assert(file_name.skip(file_name.len() - 6) =~= "_input"@);
    }
}

/// In a listing, two entries with different names never name the same
/// sensor: each pair of sensor files is counted once.
pub proof fn law_each_pair_is_named_once(listing: Seq<EntryModel>, j: int, k: int)
    requires
        0 <= j < listing.len(),
        0 <= k < listing.len(),
        names_sensor(listing[j]),
        names_sensor(listing[k]),
        listing[j].name != listing[k].name,
    ensures
        sensor_of(listing[j]) != sensor_of(listing[k]),
{
}

/// The file `gone` is one of the two files of sensor `index`, and `files`
/// shows the other one as absent.
pub open spec fn is_lone_file(
    files: Seq<NamedProbeModel>,
    gone: Seq<char>,
    index: Seq<char>,
) -> bool {
    ||| gone == input_file(index) && probe_of(files, label_file(index)) is Absent
    ||| gone == label_file(index) && probe_of(files, input_file(index)) is Absent
}

/// `after` shows of every file what `before` shows of it, but for the file
/// `gone`, which it shows as absent.
pub open spec fn shows_all_but(
    before: Seq<NamedProbeModel>,
    after: Seq<NamedProbeModel>,
    gone: Seq<char>,
) -> bool {
    forall|file_name: Seq<char>|
        #[trigger] probe_of(after, file_name) == if file_name == gone {
            ProbeModel::Absent
        } else {
            probe_of(before, file_name)
        }
}

/// With a lone file gone, every entry adds what it added before.
proof fn lemma_entry_reads_the_same(
    identity: IdentityModel,
    entry: EntryModel,
    before: Seq<NamedProbeModel>,
    after: Seq<NamedProbeModel>,
    gone: Seq<char>,
    index: Seq<char>,
)
    requires
        is_lone_file(before, gone, index),
        shows_all_but(before, after, gone),
    ensures
        entry_readings(identity, entry, after) == entry_readings(identity, entry, before),
{
    if entry.name is Some && SensorPattern::index_of(entry.name->0) is Some {
        let held = SensorPattern::index_of(entry.name->0)->0;
        law_sensor_files_tell_their_index(held, index);
        law_sensor_files_tell_their_index(index, held);
        law_sensor_files_tell_their_index(index, index);
        assert(probe_of(after, input_file(held)) == if input_file(held) == gone {
            ProbeModel::Absent
        } else {
            probe_of(before, input_file(held))
        });
        assert(probe_of(after, label_file(held)) == if label_file(held) == gone {
            ProbeModel::Absent
        } else {
            probe_of(before, label_file(held))
        });
    }
}

/// The entry of a lone file adds no reading and no failure.
proof fn lemma_lone_entry_adds_nothing(
    identity: IdentityModel,
    entry: EntryModel,
    files: Seq<NamedProbeModel>,
    gone: Seq<char>,
    index: Seq<char>,
)
    requires
        entry.name == Some(gone),
        is_lone_file(files, gone, index),
    ensures
        entry_readings(identity, entry, files) == Ok::<Seq<ReadingModel>, ScanError>(Seq::empty()),
{
    if let Some(held) = SensorPattern::index_of(gone) {
        law_sensor_files_tell_their_index(held, index);
        law_sensor_files_tell_their_index(index, held);
    }
}

/// The readings of two runs of entries, one after the other, are those of
/// the first followed by those of the second.
pub proof fn lemma_listing_in_sequence(
    identity: IdentityModel,
    first: Seq<EntryModel>,
    second: Seq<EntryModel>,
    files: Seq<NamedProbeModel>,
)
    ensures
        listing_readings(identity, first + second, files) == followed_by(
            listing_readings(identity, first, files),
            listing_readings(identity, second, files),
        ),
    decreases second.len(),
{
    if second.len() == 0 {
        assert(first + second =~= first);
        lemma_followed_by_nothing(listing_readings(identity, first, files));
    } else {
        assert((first + second).drop_last() =~= first + second.drop_last());
        assert((first + second).last() == second.last());
        lemma_listing_in_sequence(identity, first, second.drop_last(), files);
        let a = listing_readings(identity, first, files);
        let b = listing_readings(identity, second.drop_last(), files);
        let c = entry_readings(identity, second.last(), files);
        if let Ok(x) = a {
            if let Ok(y) = b {
                if let Ok(z) = c {
                    assert((x + y) + z =~= x + (y + z));
                }
            }
        }
    }
}

/// Where every entry adds the same under two sets of probes, so does the
/// listing.
proof fn lemma_listing_reads_the_same(
    identity: IdentityModel,
    listing: Seq<EntryModel>,
    before: Seq<NamedProbeModel>,
    after: Seq<NamedProbeModel>,
)
    requires
        forall|i: int|
            0 <= i < listing.len() ==> entry_readings(identity, #[trigger] listing[i], after)
                == entry_readings(identity, listing[i], before),
    ensures
        listing_readings(identity, listing, after) == listing_readings(identity, listing, before),
    decreases listing.len(),
{
    if listing.len() > 0 {
        let front = listing.drop_last();
        assert forall|i: int| 0 <= i < front.len() implies entry_readings(
            identity,
            #[trigger] front[i],
            after,
        ) == entry_readings(identity, front[i], before) by {
            assert(front[i] == listing[i]);
        }
        lemma_listing_reads_the_same(identity, front, before, after);
        assert(listing.last() == listing[listing.len() - 1]);
    }
}

/// A lone file changes no reading: where only one of a sensor's two files is
/// there, the listing without its entry, read with that file absent, gives
/// what the listing gave with it.
pub proof fn law_lone_file_changes_no_reading(
    identity: IdentityModel,
    listing: Seq<EntryModel>,
    k: int,
    before: Seq<NamedProbeModel>,
    after: Seq<NamedProbeModel>,
    gone: Seq<char>,
    index: Seq<char>,
)
    requires
        0 <= k < listing.len(),
        listing[k].name == Some(gone),
        is_lone_file(before, gone, index),
        shows_all_but(before, after, gone),
    ensures
        listing_readings(identity, listing.remove(k), after) == listing_readings(
            identity,
            listing,
            before,
        ),
{
    let head = listing.take(k);
    let lone = seq![listing[k]];
    let tail = listing.skip(k + 1);
    let rest = listing.remove(k);
    assert(listing =~= head + lone + tail);
    assert(rest =~= head + tail);
    reveal_with_fuel(listing_readings, 2);
    assert(lone.drop_last() =~= Seq::<EntryModel>::empty());
    assert(lone.last() == listing[k]);
    lemma_lone_entry_adds_nothing(identity, listing[k], before, gone, index);
    lemma_nothing_followed_by(entry_readings(identity, listing[k], before));
    assert(listing_readings(identity, lone, before) == Ok::<Seq<ReadingModel>, ScanError>(
        Seq::empty(),
    ));
    lemma_listing_in_sequence(identity, head, lone, before);
    lemma_followed_by_nothing(listing_readings(identity, head, before));
    lemma_listing_in_sequence(identity, head + lone, tail, before);
    lemma_listing_in_sequence(identity, head, tail, before);
    assert forall|i: int| 0 <= i < rest.len() implies entry_readings(
        identity,
        #[trigger] rest[i],
        after,
    ) == entry_readings(identity, rest[i], before) by {
        lemma_entry_reads_the_same(identity, rest[i], before, after, gone, index);
    }
    lemma_listing_reads_the_same(identity, rest, before, after);
}

/// The device as it is observed once the entry `k` of its listing is gone
/// and its files are `files`.
pub open spec fn without_file(
    device: DeviceModel,
    k: int,
    files: Seq<NamedProbeModel>,
) -> DeviceModel {
    DeviceModel {
        listing: Some(device.listing->0.remove(k)),
        name: device.name,
        device: device.device,
        files: files,
    }
}

/// A lone file changes nothing in the answer: where only one of a sensor's
/// two files is there, the tree without that file is answered as the tree
/// with it, status and body. Left out is the directory that the lone file
/// alone makes a device, being its only regular file named `temp`.
pub proof fn law_lone_file_changes_no_answer(
    before: Seq<DeviceModel>,
    device: DeviceModel,
    after: Seq<DeviceModel>,
    k: int,
    files: Seq<NamedProbeModel>,
    gone: Seq<char>,
    index: Seq<char>,
)
    requires
        device.listing is Some,
        0 <= k < device.listing->0.len(),
        device.listing->0[k].name == Some(gone),
        is_lone_file(device.files, gone, index),
        shows_all_but(device.files, files, gone),
        has_sensor_file(device.listing->0.remove(k)) == has_sensor_file(device.listing->0),
    ensures
        device_readings(without_file(device, k, files)) == device_readings(device),
        response_of(scan_readings(Some(before + seq![without_file(device, k, files)] + after)))
            == response_of(scan_readings(Some(before + seq![device] + after))),
{
    let changed = without_file(device, k, files);
    if is_device(device.listing->0, device.name) {
        if let Ok(identity) = identity_of(device.name, device.device) {
            law_lone_file_changes_no_reading(
                identity,
                device.listing->0,
                k,
                device.files,
                files,
                gone,
                index,
            );
        }
    }
    assert(device_readings(changed) == device_readings(device));
    let with = seq![device];
    let without = seq![changed];
    reveal_with_fuel(devices_readings, 2);
    assert(with.drop_last() =~= Seq::<DeviceModel>::empty());
    assert(without.drop_last() =~= Seq::<DeviceModel>::empty());
    assert(with.last() == device);
    assert(without.last() == changed);
    assert(devices_readings(with) == devices_readings(without));
    lemma_devices_in_sequence(before, with);
    lemma_devices_in_sequence(before, without);
    lemma_devices_in_sequence(before + with, after);
    lemma_devices_in_sequence(before + without, after);
}

/// The readings of the pairs of sensor files that a listing names, in the
/// order of the listing.
pub open spec fn listing_pairs(
    identity: IdentityModel,
    listing: Seq<EntryModel>,
    files: Seq<NamedProbeModel>,
) -> Seq<ReadingModel>
    decreases listing.len(),
{
    if listing.len() == 0 {
        Seq::empty()
    } else if names_sensor(listing.last()) {
        listing_pairs(identity, listing.drop_last(), files).push(
            pair_reading(identity, files, sensor_of(listing.last())),
        )
    } else {
        listing_pairs(identity, listing.drop_last(), files)
    }
}

/// A consistent listing is read as the readings of its pairs, one after the
/// other in its order: none is left out, repeated or moved.
pub proof fn law_consistent_listing_reads_its_pairs(
    identity: IdentityModel,
    listing: Seq<EntryModel>,
    files: Seq<NamedProbeModel>,
)
    requires
        listing_is_consistent(listing, files),
    ensures
        listing_readings(identity, listing, files) == Ok::<Seq<ReadingModel>, ScanError>(
            listing_pairs(identity, listing, files),
        ),
    decreases listing.len(),
{
    if listing.len() > 0 {
        let front = listing.drop_last();
        assert(listing_is_consistent(front, files)) by {
            assert forall|k: int| 0 <= k < front.len() implies (#[trigger] front[k]).name is Some
                && (names_sensor(front[k]) ==> pair_is_consistent(files, sensor_of(front[k]))) by {
                assert(front[k] == listing[k]);
            }
        }
        law_consistent_listing_reads_its_pairs(identity, front, files);
        assert(listing.last() == listing[listing.len() - 1]);
        let before = listing_pairs(identity, front, files);
        if names_sensor(listing.last()) {
            let reading = pair_reading(identity, files, sensor_of(listing.last()));
            assert(before + seq![reading] =~= before.push(reading));
        } else {
            assert(before + Seq::<ReadingModel>::empty() =~= before);
        }
    }
}

/// A directory in order: it can be listed, and where it is a device its
/// identity resolves and its listing is consistent.
pub open spec fn directory_is_in_order(device: DeviceModel) -> bool {
    &&& device.listing is Some
    &&& (is_device(device.listing->0, device.name) ==> identity_of(device.name, device.device)
        is Ok && listing_is_consistent(device.listing->0, device.files))
}

/// The readings of the pairs of sensor files in a directory: those that its
/// listing names where it is a device, none where it is not.
pub open spec fn directory_pairs(device: DeviceModel) -> Seq<ReadingModel> {
    if is_device(device.listing->0, device.name) {
        listing_pairs(
            identity_of(device.name, device.device)->Ok_0,
            device.listing->0,
            device.files,
        )
    } else {
        Seq::empty()
    }
}

/// The readings of the pairs of sensor files in a tree: directory by
/// directory in the order of the root, and in each in the order of its
/// listing.
pub open spec fn tree_pairs(devices: Seq<DeviceModel>) -> Seq<ReadingModel>
    decreases devices.len(),
{
    if devices.len() == 0 {
        Seq::empty()
    } else {
        tree_pairs(devices.drop_last()) + directory_pairs(devices.last())
    }
}

/// A tree in order is answered with status 200, and the body is the line
/// of every pair of sensor files in it, in the order of the root and then
/// of each listing: one line for each pair, none left out, repeated or
/// moved.
pub proof fn law_tree_in_order_is_answered_with_every_pair(devices: Seq<DeviceModel>)
    requires
        forall|i: int| 0 <= i < devices.len() ==> directory_is_in_order(#[trigger] devices[i]),
    ensures
        scan_readings(Some(devices)) == Ok::<Seq<ReadingModel>, ScanError>(tree_pairs(devices)),
        response_of(scan_readings(Some(devices))) == (ResponseModel {
            status: 200,
            body: metrics_text(tree_pairs(devices)),
        }),
    decreases devices.len(),
{
    if devices.len() > 0 {
        let front = devices.drop_last();
        let last = devices.last();
        assert forall|i: int| 0 <= i < front.len() implies directory_is_in_order(
            #[trigger] front[i],
        ) by {
            assert(front[i] == devices[i]);
        }
        law_tree_in_order_is_answered_with_every_pair(front);
        assert(last == devices[devices.len() - 1]);
        if is_device(last.listing->0, last.name) {
            law_consistent_listing_reads_its_pairs(
                identity_of(last.name, last.device)->Ok_0,
                last.listing->0,
                last.files,
            );
        }
        assert(device_readings(last) == Ok::<Seq<ReadingModel>, ScanError>(directory_pairs(last)));
    }
}

/// The metrics of two runs of readings, one after the other, are the
/// metrics of the first and then those of the second.
pub proof fn law_metrics_in_sequence(first: Seq<ReadingModel>, second: Seq<ReadingModel>)
    ensures
        metrics_text(first + second) == metrics_text(first) + metrics_text(second),
    decreases second.len(),
{
    if second.len() == 0 {
        assert(first + second =~= first);
        assert(metrics_text(first) + metrics_text(second) =~= metrics_text(first));
    } else {
        assert((first + second).drop_last() =~= first + second.drop_last());
        assert((first + second).last() == second.last());
        law_metrics_in_sequence(first, second.drop_last());
        assert((metrics_text(first) + metrics_text(second.drop_last())) + metric_line(
            second.last(),
        ) =~= metrics_text(first) + (metrics_text(second.drop_last()) + metric_line(
            second.last(),
        )));
    }
}

} // verus!
