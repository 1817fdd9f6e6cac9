//! The parts of a TZif data block, one at a time.

use tzif::{
    check_posix_tz, from_be_bytes_i32, from_be_bytes_i64, from_be_bytes_u32,
    from_be_bytes_u32_to_usize, try_split_at, Header, PosixDst, PosixTimeZone, TzifFixed,
    TzifIndicator, TzifLocalTimeType, TzifOwned, TzifTransition,
};

fn header(time_size: usize) -> Header {
    Header {
        time_size,
        version: 0x32,
        tzh_ttisutcnt: 0,
        tzh_ttisstdcnt: 0,
        tzh_leapcnt: 0,
        tzh_timecnt: 0,
        tzh_typecnt: 1,
        tzh_charcnt: 1,
    }
}

fn empty() -> TzifOwned {
    TzifOwned {
        fixed: TzifFixed {
            name: None,
            version: 0,
            checksum: 0,
            designations: String::new(),
            posix_tz: None,
        },
        types: vec![],
        transitions: vec![],
    }
}

fn utc(start: u8) -> TzifLocalTimeType {
    TzifLocalTimeType {
        offset: 0,
        is_dst: false,
        designation: (start, start),
        indicator: TzifIndicator::LocalWall,
    }
}

fn at(timestamp: i64, type_index: u8) -> TzifTransition {
    TzifTransition { timestamp, type_index }
}

fn posix(dst: Option<PosixDst>) -> PosixTimeZone {
    PosixTimeZone { std_abbrev: "EST".to_string(), std_offset: -18000, dst }
}

#[test]
fn big_endian_integers() {
    assert_eq!(from_be_bytes_u32(&[0x01, 0x02, 0x03, 0x04]), 0x0102_0304);
    assert_eq!(from_be_bytes_u32(&[0xff, 0xff, 0xff, 0xff]), u32::MAX);
    assert_eq!(from_be_bytes_u32_to_usize(&[0, 0, 1, 0]).unwrap(), 256);
    assert_eq!(from_be_bytes_i32(&[0x7f, 0xff, 0xff, 0xff]), i32::MAX);
    assert_eq!(from_be_bytes_i32(&[0x80, 0, 0, 0]), i32::MIN);
    assert_eq!(from_be_bytes_i32(&[0xff, 0xff, 0xff, 0xfe]), -2);
    assert_eq!(from_be_bytes_i64(&[0x7f, 0xff, 0xff, 0xff, 0xff, 0xff, 0xff, 0xff]), i64::MAX);
    assert_eq!(from_be_bytes_i64(&[0x80, 0, 0, 0, 0, 0, 0, 0]), i64::MIN);
    assert_eq!(from_be_bytes_i64(&[0, 0, 0, 1, 0, 0, 0, 0]), 1 << 32);
    assert_eq!(from_be_bytes_i64(&[0xff, 0xff, 0xff, 0xff, 0x80, 0, 0, 0]), -(1 << 31));
}

#[test]
fn splitting() {
    assert_eq!(try_split_at("it", &[1, 2, 3], 2).unwrap(), (&[1u8, 2][..], &[3u8][..]));
    assert_eq!(try_split_at("it", &[1, 2, 3], 3).unwrap(), (&[1u8, 2, 3][..], &[][..]));
    assert_eq!(
        try_split_at("it", &[1, 2, 3], 40).unwrap_err().message(),
        "expected at least 40 bytes for it, but found only 3 bytes",
    );
}

#[test]
fn header_fields() {
    let mut data = b"TZif2".to_vec();
    data.extend([0xaa; 15]);
    for count in [7u32, 7, 3, 0x0102, 7, 9] {
        data.extend(count.to_be_bytes());
    }
    data.extend(b"rest");
    let (h, rest) = Header::parse(8, &data).unwrap();
    assert_eq!(rest, b"rest");
    assert_eq!((h.time_size, h.version), (8, 0x32));
    assert_eq!((h.tzh_ttisutcnt, h.tzh_ttisstdcnt, h.tzh_leapcnt), (7, 7, 3));
    assert_eq!((h.tzh_timecnt, h.tzh_typecnt, h.tzh_charcnt), (0x0102, 7, 9));
    assert!(!h.is_32bit());
    assert!(Header::parse(4, &data).unwrap().0.is_32bit());
    let block = 0x0102 * 8 + 0x0102 + 7 * 6 + 9 + 3 * 12 + 7 + 7;
    assert_eq!(h.data_block_len().unwrap(), block);
    assert_eq!(h.transition_times_len().unwrap(), 0x0102 * 8);
    assert_eq!(h.transition_types_len().unwrap(), 0x0102);
    assert_eq!(h.local_time_types_len().unwrap(), 42);
    assert_eq!(h.time_zone_designations_len().unwrap(), 9);
    assert_eq!(h.leap_second_len().unwrap(), 36);
    assert_eq!(h.standard_wall_len().unwrap(), 7);
    assert_eq!(h.ut_local_len().unwrap(), 7);
}

#[test]
fn header_errors() {
    let parse = |counts: [u32; 6]| {
        let mut data = b"TZif2".to_vec();
        data.extend([0; 15]);
        for count in counts {
            data.extend(count.to_be_bytes());
        }
        Header::parse(4, &data).map(|_| ()).map_err(|e| e.message().to_string())
    };
    assert_eq!(parse([0, 0, 0, 0, 1, 1]), Ok(()));
    assert_eq!(parse([2, 2, 0, 0, 2, 1]), Ok(()));
    assert_eq!(
        parse([2, 0, 0, 0, 1, 1]).unwrap_err(),
        "expected tzh_ttisutcnt=2 to be zero or equal to tzh_typecnt=1",
    );
    assert_eq!(
        parse([0, 5, 0, 0, 1, 1]).unwrap_err(),
        "expected tzh_ttisstdcnt=5 to be zero or equal to tzh_typecnt=1",
    );
    assert_eq!(
        parse([0, 0, 0, 0, 0, 1]).unwrap_err(),
        "expected tzh_typecnt=0 to be at least 1",
    );
    assert_eq!(
        parse([0, 0, 0, 0, 10, 0]).unwrap_err(),
        "expected tzh_charcnt=0 to be at least 1",
    );
    assert_eq!(
        Header::parse(4, &[0; 43]).unwrap_err().message(),
        "invalid header: too short",
    );
    assert_eq!(
        Header::parse(4, &[0; 44]).unwrap_err().message(),
        "invalid header: magic bytes mismatch",
    );
}

#[test]
fn lengths_that_overflow() {
    let mut h = header(8);
    h.tzh_timecnt = usize::MAX;
    let max = usize::MAX.to_string();
    let text = format!("tzh_timecnt value {max} is too big");
    assert_eq!(h.transition_times_len().unwrap_err().message(), text);
    assert_eq!(h.data_block_len().unwrap_err().message(), text);
    assert_eq!(empty().parse_transitions(&h, &[]).unwrap_err().message(), text);

    let mut h = header(8);
    h.tzh_typecnt = usize::MAX;
    let text = format!("tzh_typecnt value {max} is too big");
    assert_eq!(h.local_time_types_len().unwrap_err().message(), text);
    assert_eq!(h.data_block_len().unwrap_err().message(), text);
    assert_eq!(empty().parse_local_time_types(&h, &[]).unwrap_err().message(), text);

    let mut h = header(8);
    h.tzh_leapcnt = usize::MAX;
    let text = format!("tzh_leapcnt value {max} is too big");
    assert_eq!(h.leap_second_len().unwrap_err().message(), text);
    assert_eq!(h.data_block_len().unwrap_err().message(), text);
    assert_eq!(empty().parse_leap_seconds(&h, &[]).unwrap_err().message(), text);

    let mut h = header(8);
    h.tzh_charcnt = usize::MAX;
    assert_eq!(
        h.data_block_len().unwrap_err().message(),
        "length of data block in V50 tzfile is too big",
    );
    h.tzh_charcnt = usize::MAX - 6;
    assert_eq!(h.data_block_len().unwrap(), usize::MAX);
}

#[test]
fn transition_times_are_clamped() {
    let mut h = header(8);
    h.tzh_timecnt = 4;
    let mut data = vec![];
    for t in [i64::MIN, -377705023202, 5, i64::MAX] {
        data.extend(t.to_be_bytes());
    }
    data.push(99);
    let mut zone = empty();
    assert_eq!(zone.parse_transitions(&h, &data).unwrap(), &[99]);
    let min = -377705023201;
    let expected = vec![at(min, 0), at(min, 0), at(min, 0), at(5, 0), at(253402207200, 0)];
    assert_eq!(zone.transitions, expected);
}

#[test]
fn transition_times_of_four_bytes() {
    let mut h = header(4);
    h.tzh_timecnt = 2;
    let mut zone = empty();
    let data = [0xff, 0xff, 0xff, 0xff, 0x7f, 0xff, 0xff, 0xff];
    assert_eq!(zone.parse_transitions(&h, &data).unwrap(), &[] as &[u8]);
    assert_eq!(zone.transitions[1..], [at(-1, 0), at(i32::MAX as i64, 0)]);
    assert_eq!(
        empty().parse_transitions(&h, &data[1..]).unwrap_err().message(),
        "expected at least 8 bytes for transition times data block, but found only 7 bytes",
    );
}

#[test]
fn transition_types() {
    let mut h = header(4);
    h.tzh_timecnt = 3;
    h.tzh_typecnt = 3;
    let mut zone = empty();
    zone.transitions = vec![at(0, 0), at(1, 0), at(2, 0), at(3, 0)];
    assert_eq!(zone.parse_transition_types(&h, &[2, 1, 0, 7]).unwrap(), &[7]);
    assert_eq!(zone.transitions, vec![at(0, 0), at(1, 2), at(2, 1), at(3, 0)]);
    assert_eq!(
        zone.parse_transition_types(&h, &[0, 3, 1]).unwrap_err().message(),
        "found transition type index 3,\n                     but there are only 3 local time types",
    );
    assert_eq!(zone.transitions, vec![at(0, 0), at(1, 0), at(2, 1), at(3, 0)]);
    assert_eq!(
        zone.parse_transition_types(&h, &[0, 3]).unwrap_err().message(),
        "expected at least 3 bytes for transition types data block, but found only 2 bytes",
    );
}

#[test]
fn local_time_types() {
    let mut h = header(4);
    h.tzh_typecnt = 2;
    let mut data = vec![];
    data.extend((-93599i32).to_be_bytes());
    data.extend([1, 4]);
    data.extend(93599i32.to_be_bytes());
    data.extend([2, 8]);
    let mut zone = empty();
    assert_eq!(zone.parse_local_time_types(&h, &data).unwrap(), &[] as &[u8]);
    assert_eq!(
        zone.types,
        vec![
            TzifLocalTimeType { offset: -93599, is_dst: true, ..utc(4) },
            TzifLocalTimeType { offset: 93599, is_dst: false, ..utc(8) },
        ],
    );
    data[6..10].copy_from_slice(&93600i32.to_be_bytes());
    let mut zone = empty();
    assert_eq!(
        zone.parse_local_time_types(&h, &data).unwrap_err().message(),
        "found local time type with out-of-bounds offset: 93600",
    );
    assert_eq!(zone.types.len(), 1);
    data[..4].copy_from_slice(&i32::MIN.to_be_bytes());
    assert_eq!(
        empty().parse_local_time_types(&h, &data).unwrap_err().message(),
        "found local time type with out-of-bounds offset: -2147483648",
    );
    assert_eq!(
        empty().parse_local_time_types(&h, &data[..11]).unwrap_err().message(),
        "expected at least 12 bytes for local time types data block, but found only 11 bytes",
    );
}

#[test]
fn designations() {
    let mut h = header(4);
    h.tzh_charcnt = 8;
    let mut zone = empty();
    zone.types = vec![utc(0), utc(4), utc(2), utc(3)];
    assert_eq!(zone.parse_time_zone_designations(&h, b"LMT\0EST\0!").unwrap(), b"!");
    assert_eq!(zone.fixed.designations, "LMT\0EST\0");
    let ranges: Vec<(u8, u8)> = zone.types.iter().map(|t| t.designation).collect();
    assert_eq!(ranges, vec![(0, 3), (4, 7), (2, 3), (3, 3)]);
    assert_eq!(
        zone.parse_time_zone_designations(&h, b"LMT\0EST").unwrap_err().message(),
        "expected at least 8 bytes for time zone designations data block, but found only 7 bytes",
    );
}

#[test]
fn designations_with_other_characters() {
    let mut h = header(4);
    h.tzh_charcnt = 5;
    let data = "\u{e9}\u{e9}\0".as_bytes();
    let mut zone = empty();
    zone.types = vec![utc(0), utc(2)];
    assert_eq!(zone.parse_time_zone_designations(&h, data).unwrap(), b"");
    assert_eq!(zone.fixed.designations, "\u{e9}\u{e9}\0");
    assert_eq!(zone.types[1].designation, (2, 4));
    zone.types = vec![utc(0), utc(3)];
    assert_eq!(
        zone.parse_time_zone_designations(&h, data).unwrap_err().message(),
        "local time type 1 has designation index of 3, but cannot be more than 5",
    );
    assert_eq!(zone.types[0].designation, (0, 4));
}

#[test]
fn designation_errors() {
    let mut h = header(4);
    h.tzh_charcnt = 4;
    let mut zone = empty();
    assert_eq!(
        zone.parse_time_zone_designations(&h, b"a\xff\n\"").unwrap_err().message(),
        "time zone designations are not valid UTF-8: \"a\\xff\\n\\\"\"",
    );
    assert_eq!(zone.fixed.designations, "");
    zone.types = vec![utc(9)];
    assert_eq!(
        zone.parse_time_zone_designations(&h, b"UTC\0").unwrap_err().message(),
        "local time type 0 has designation index of 9, but cannot be more than 4",
    );
    assert_eq!(zone.fixed.designations, "UTC\0");
    zone.types = vec![utc(2)];
    assert_eq!(
        zone.parse_time_zone_designations(&h, b"\0\n\"C").unwrap_err().message(),
        "local time type 0 has designation index of 2, but could not find NUL terminator after it \
         in designations: \"\\0\\n\\\"C\"",
    );
    zone.types = vec![utc(4)];
    assert_eq!(
        zone.parse_time_zone_designations(&h, b"UTC\0").unwrap_err().message(),
        "local time type 0 has designation index of 4, but could not find NUL terminator after it \
         in designations: \"UTC\\0\"",
    );
    h.tzh_charcnt = 257;
    let mut data = vec![b'x'; 256];
    data.push(0);
    zone.types = vec![utc(255)];
    assert_eq!(
        zone.parse_time_zone_designations(&h, &data).unwrap_err().message(),
        "local time type 0 has designation range of 255..256, but end is too big",
    );
    data[255] = 0;
    assert!(zone.parse_time_zone_designations(&h, &data).is_ok());
    assert_eq!(zone.types[0].designation, (255, 255));
}

#[test]
fn leap_seconds() {
    let mut h = header(8);
    h.tzh_leapcnt = 2;
    let mut zone = empty();
    assert_eq!(zone.parse_leap_seconds(&h, &[0xff; 25]).unwrap(), &[0xff]);
    assert_eq!(zone, empty());
    assert_eq!(
        zone.parse_leap_seconds(&h, &[0; 23]).unwrap_err().message(),
        "expected at least 24 bytes for leap seconds data block, but found only 23 bytes",
    );
}

fn indicators(std: &[u8], ut: &[u8]) -> Result<Vec<TzifIndicator>, String> {
    let mut h = header(4);
    h.tzh_typecnt = 3;
    h.tzh_ttisstdcnt = std.len();
    h.tzh_ttisutcnt = ut.len();
    let mut zone = empty();
    zone.types = vec![utc(0), utc(0), utc(0)];
    let data = [std, ut, b"."].concat();
    match zone.parse_indicators(&h, &data) {
        Ok(rest) => {
            assert_eq!(rest, b".");
            Ok(zone.types.iter().map(|t| t.indicator).collect())
        }
        Err(e) => Err(e.message().to_string()),
    }
}

#[test]
fn indicators_of_each_kind() {
    let (wall, std, ut) =
        (TzifIndicator::LocalWall, TzifIndicator::LocalStandard, TzifIndicator::UTStandard);
    assert_eq!(indicators(&[], &[]), Ok(vec![wall, wall, wall]));
    assert_eq!(indicators(&[], &[0, 0, 0]), Ok(vec![wall, wall, wall]));
    assert_eq!(indicators(&[1, 0, 1], &[]), Ok(vec![std, wall, std]));
    assert_eq!(indicators(&[1, 0, 1], &[1, 0, 0]), Ok(vec![ut, wall, std]));
}

#[test]
fn indicator_errors() {
    assert_eq!(
        indicators(&[], &[0, 1, 2]).unwrap_err(),
        "found UT/local indicator '1' for local time type 1, but it must be 0 since all std/wall \
         indicators are 0",
    );
    assert_eq!(
        indicators(&[0, 1, 200], &[]).unwrap_err(),
        "found invalid std/wall indicator '200' for local time type 2, it must be 0 or 1",
    );
    assert_eq!(
        indicators(&[1, 0, 7], &[1, 1, 0]).unwrap_err(),
        "found illegal ut-wall combination for local time type 1, only local-wall, local-standard \
         and ut-standard are allowed",
    );
    assert_eq!(
        indicators(&[1, 2, 0], &[1, 1, 1]).unwrap_err(),
        "found illegal std/wall or ut/local value for local time type 1, each must be 0 or 1",
    );
    assert_eq!(
        indicators(&[0, 0, 0], &[2, 0, 0]).unwrap_err(),
        "found illegal std/wall or ut/local value for local time type 0, each must be 0 or 1",
    );
    let mut h = header(4);
    h.tzh_ttisstdcnt = 1;
    h.tzh_ttisutcnt = 1;
    let mut zone = empty();
    zone.types = vec![utc(0)];
    assert_eq!(
        zone.parse_indicators(&h, &[]).unwrap_err().message(),
        "expected at least 1 bytes for standard/wall indicators data block, but found only 0 bytes",
    );
    assert_eq!(
        zone.parse_indicators(&h, &[1]).unwrap_err().message(),
        "expected at least 1 bytes for UT/local indicators data block, but found only 0 bytes",
    );
}

#[test]
fn footers() {
    let h = header(8);
    let eat = |tz: &[u8]| {
        assert_eq!(tz, b"EST5");
        Ok(posix(None))
    };
    let refuse = |_: &[u8]| Err("no TZ string".to_string());
    let mut zone = empty();
    assert_eq!(zone.parse_footer(&h, b"\nEST5\nrest\n", &eat).unwrap(), b"rest\n");
    assert_eq!(zone.fixed.posix_tz, Some(posix(None)));
    let mut zone = empty();
    assert_eq!(zone.parse_footer(&h, b"\n\n", &refuse).unwrap(), b"");
    assert_eq!(zone.fixed.posix_tz, None);
    let fail = |data: &[u8]| {
        empty().parse_footer(&h, data, &refuse).unwrap_err().message().to_string()
    };
    assert_eq!(fail(b"\nEST5\n"), "no TZ string");
    assert_eq!(
        fail(b""),
        "invalid V2+ TZif footer, expected \\n, but found unexpected end of data",
    );
    assert_eq!(fail(b"\tEST5\n"), "invalid V2+ TZif footer, expected \\n, but found \\t");
    assert_eq!(fail(b"E\n"), "invalid V2+ TZif footer, expected \\n, but found E");
    assert_eq!(
        fail(b"\nEST5\0"),
        "invalid V2 TZif footer, could not find \\n terminator in: \"EST5\\x00\"",
    );
    assert_eq!(fail(b"\n"), "invalid V2 TZif footer, could not find \\n terminator in: \"\"");
}

#[test]
fn footer_scan_is_bounded() {
    let h = header(8);
    let long = |tz: &[u8]| {
        assert_eq!(tz.len(), 1023);
        Ok(posix(None))
    };
    let mut data = vec![b'x'; 1030];
    data[0] = b'\n';
    data[1024] = b'\n';
    assert_eq!(empty().parse_footer(&h, &data, &long).unwrap(), b"xxxxx");
    data[1024] = b'x';
    data[1025] = b'\n';
    let text = format!(
        "invalid V2 TZif footer, could not find \\n terminator in: \"{}\"",
        "x".repeat(1024),
    );
    assert_eq!(empty().parse_footer(&h, &data, &long).unwrap_err().message(), text);
}

#[test]
fn dst_needs_a_rule() {
    let dst = || PosixDst { abbrev: "EDT".to_string(), offset: -14400, rule: None };
    let text = "TZ string `EST5EDT` in v3+ tzfile has DST but no transition rules";
    assert_eq!(
        check_posix_tz(b"EST5EDT", Ok(posix(Some(dst())))).unwrap_err().message(),
        text,
    );
    assert_eq!(check_posix_tz(b"EST5", Ok(posix(None))).unwrap(), posix(None));
    assert_eq!(
        check_posix_tz(b"x", Err("bad".to_string())).unwrap_err().message(),
        "bad",
    );
    let mut zone = empty();
    let parse = |_: &[u8]| Ok(posix(Some(dst())));
    let e = zone.parse_footer(&header(8), b"\nEST5EDT\n", &parse).unwrap_err();
    assert_eq!(e.message(), text);
    assert_eq!(zone, empty());
}
