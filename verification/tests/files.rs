//! Whole TZif data.

use tzif::{
    PosixDay, PosixDayTime, PosixDst, PosixRule, PosixTimeZone, TzifIndicator, TzifLocalTimeType,
    TzifOwned, TzifTransition,
};

const MIN: i64 = -377705023201;

fn header(version: u8, counts: [u32; 6]) -> Vec<u8> {
    let mut data = b"TZif".to_vec();
    data.push(version);
    data.extend([0; 15]);
    for count in counts {
        data.extend(count.to_be_bytes());
    }
    data
}

/// The counts of the data blocks below: two of everything but leap seconds,
/// of which there is one.
const COUNTS: [u32; 6] = [2, 2, 1, 2, 2, 8];

/// A data block with two transitions and two local time types.
fn block(time_size: usize) -> Vec<u8> {
    let mut data = vec![];
    for t in [-100i64, 200] {
        data.extend(&t.to_be_bytes()[8 - time_size..]);
    }
    data.extend([1, 0]);
    data.extend((-18000i32).to_be_bytes());
    data.extend([0, 0]);
    data.extend((-14400i32).to_be_bytes());
    data.extend([1, 4]);
    data.extend(b"EST\0EDT\0");
    data.extend(vec![0x55; time_size + 4]);
    data.extend([1, 0, 1, 0]);
    data
}

fn version_1() -> Vec<u8> {
    let mut data = header(0, COUNTS);
    data.extend(block(4));
    data
}

fn version_2() -> Vec<u8> {
    let mut data = header(b'2', COUNTS);
    data.extend(block(4));
    data.extend(header(b'3', COUNTS));
    data.extend(block(8));
    data.extend(b"\nEST5EDT,M3.2.0,M11.1.0\n");
    data
}

fn sum(data: &[u8]) -> u32 {
    data.iter().fold(data.len() as u32, |sum, &b| sum.wrapping_mul(31).wrapping_add(b as u32))
}

fn new_york() -> PosixTimeZone {
    let day = |month, week| PosixDayTime {
        date: PosixDay::WeekdayOfMonth { month, week, weekday: 0 },
        time: 7200,
    };
    PosixTimeZone {
        std_abbrev: "EST".to_string(),
        std_offset: -18000,
        dst: Some(PosixDst {
            abbrev: "EDT".to_string(),
            offset: -14400,
            rule: Some(PosixRule { start: day(3, 2), end: day(11, 1) }),
        }),
    }
}

fn posix(tz: &[u8]) -> Result<PosixTimeZone, String> {
    if tz == b"EST5EDT,M3.2.0,M11.1.0" {
        Ok(new_york())
    } else if tz == b"EST5EDT" {
        let mut zone = new_york();
        zone.dst.as_mut().unwrap().rule = None;
        Ok(zone)
    } else {
        Err("not a TZ string".to_string())
    }
}

fn parse(data: &[u8]) -> Result<TzifOwned, String> {
    TzifOwned::parse(None, data, &sum, &posix).map_err(|e| e.message().to_string())
}

fn check_block(zone: &TzifOwned) {
    let at = |timestamp, type_index| TzifTransition { timestamp, type_index };
    assert_eq!(zone.transitions, vec![at(MIN, 0), at(-100, 1), at(200, 0)]);
    assert_eq!(
        zone.types,
        vec![
            TzifLocalTimeType {
                offset: -18000,
                is_dst: false,
                designation: (0, 3),
                indicator: TzifIndicator::UTStandard,
            },
            TzifLocalTimeType {
                offset: -14400,
                is_dst: true,
                designation: (4, 7),
                indicator: TzifIndicator::LocalWall,
            },
        ],
    );
    assert_eq!(zone.fixed.designations, "EST\0EDT\0");
}

#[test]
fn parses_version_1() {
    let data = version_1();
    let zone = TzifOwned::parse(Some("X/Y".to_string()), &data, &sum, &posix).unwrap();
    check_block(&zone);
    assert_eq!(zone.fixed.name.as_deref(), Some("X/Y"));
    assert_eq!(zone.fixed.version, 0);
    assert_eq!(zone.fixed.checksum, sum(&data));
    assert_eq!(zone.fixed.posix_tz, None);
}

#[test]
fn parses_later_versions() {
    let data = version_2();
    let zone = parse(&data).unwrap();
    check_block(&zone);
    assert_eq!(zone.fixed.name, None);
    assert_eq!(zone.fixed.version, b'3');
    assert_eq!(zone.fixed.checksum, sum(&data));
    assert_eq!(zone.fixed.posix_tz, Some(new_york()));
}

#[test]
fn parses_without_transitions() {
    let mut data = header(0, [0, 0, 0, 0, 1, 4]);
    data.extend([0, 0, 0, 0, 0, 0]);
    data.extend(b"UTC\0");
    let zone = parse(&data).unwrap();
    assert_eq!(zone.transitions, vec![TzifTransition { timestamp: MIN, type_index: 0 }]);
    assert_eq!(zone.types[0].designation, (0, 3));
    assert_eq!(zone.types[0].indicator, TzifIndicator::LocalWall);
}

#[test]
fn name_is_not_significant() {
    let data = version_2();
    let mut named = TzifOwned::parse(Some("A".to_string()), &data, &sum, &posix).unwrap();
    assert_eq!(named.fixed.name.take().as_deref(), Some("A"));
    assert_eq!(named, parse(&data).unwrap());
}

#[test]
fn trailing_bytes_are_ignored() {
    for data in [version_1(), version_2()] {
        let zone = parse(&data).unwrap();
        let mut longer = data.clone();
        longer.extend(b"\nmore\n");
        assert_eq!(parse(&longer).unwrap(), zone);
        assert_eq!(zone.fixed.checksum, sum(&data));
    }
}

#[test]
fn truncated_data_is_refused() {
    for data in [version_1(), version_2()] {
        for n in 0..data.len() {
            assert!(parse(&data[..n]).is_err(), "{n}");
        }
    }
}

#[test]
fn first_data_block_is_ignored() {
    let data = version_2();
    let mut other = data.clone();
    let len = block(4).len();
    other[44..44 + len].fill(0xee);
    let mut zone = parse(&other).unwrap();
    assert_ne!(other, data);
    zone.fixed.checksum = sum(&data);
    assert_eq!(zone, parse(&data).unwrap());
}

#[test]
fn leap_seconds_are_ignored() {
    let data = version_1();
    let mut other = data.clone();
    let leaps = 44 + 8 + 2 + 12 + 8;
    assert_eq!(other[leaps], 0x55);
    other[leaps..leaps + 8].fill(0xff);
    let mut zone = parse(&other).unwrap();
    zone.fixed.checksum = sum(&data);
    assert_eq!(zone, parse(&data).unwrap());
}

#[test]
fn reserved_bytes_are_ignored() {
    let data = version_1();
    let mut other = data.clone();
    other[5..20].fill(0xff);
    let mut zone = parse(&other).unwrap();
    zone.fixed.checksum = sum(&data);
    assert_eq!(zone, parse(&data).unwrap());
}

#[test]
fn clamped_transitions_stay_in_order() {
    let mut data = header(b'2', [0, 0, 0, 0, 1, 1]);
    data.extend([0; 7]);
    data.extend(header(b'2', [0, 0, 0, 5, 1, 1]));
    for t in [i64::MIN, MIN - 1, 0, 253402207201, i64::MAX] {
        data.extend(t.to_be_bytes());
    }
    data.extend([0; 5]);
    data.extend([0; 7]);
    data.extend(b"\n\n");
    let zone = parse(&data).unwrap();
    let times: Vec<i64> = zone.transitions.iter().map(|t| t.timestamp).collect();
    assert_eq!(times, vec![MIN, MIN, MIN, 0, 253402207200, 253402207200]);
    assert_eq!(zone.fixed.posix_tz, None);
}

#[test]
fn file_errors() {
    assert_eq!(
        parse(b"TZif").unwrap_err(),
        "failed to parse 32-bit header: invalid header: too short",
    );
    let mut data = version_2();
    let second = 44 + block(4).len();
    assert_eq!(
        parse(&data[..second - 1]).unwrap_err(),
        "expected at least 42 bytes for V1 TZif data block, but found only 41 bytes",
    );
    data[second] = b'x';
    assert_eq!(
        parse(&data).unwrap_err(),
        "failed to parse 64-bit header: invalid header: magic bytes mismatch",
    );
    let mut data = version_1();
    data[52] = 9;
    assert_eq!(
        parse(&data).unwrap_err(),
        "found transition type index 9,\n                     but there are only 2 local time types",
    );
    let mut data = version_2();
    let footer = data.len() - b"\nEST5EDT,M3.2.0,M11.1.0\n".len();
    data.truncate(footer);
    data.extend(b"\nEST5EDT\n");
    assert_eq!(
        parse(&data).unwrap_err(),
        "TZ string `EST5EDT` in v3+ tzfile has DST but no transition rules",
    );
    data.truncate(footer);
    data.extend(b"\n???\n");
    assert_eq!(parse(&data).unwrap_err(), "not a TZ string");
    data.truncate(footer);
    data.extend(b"\n\n");
    assert_eq!(parse(&data).unwrap().fixed.posix_tz, None);
}

#[test]
fn size_is_bounded_by_the_data() {
    for data in [version_1(), version_2()] {
        let zone = parse(&data).unwrap();
        let room = 5 * (zone.transitions.len() - 1) + 6 * zone.types.len()
            + zone.fixed.designations.len();
        assert!(room < data.len());
    }
}

#[test]
fn designations_are_ranges() {
    let zone = parse(&version_2()).unwrap();
    let names: Vec<&str> = zone
        .types
        .iter()
        .map(|t| &zone.fixed.designations[t.designation.0 as usize..t.designation.1 as usize])
        .collect();
    assert_eq!(names, vec!["EST", "EDT"]);
}
