//! Parsing TZif data.

use crate::bytes::{from_be_bytes_i32, from_be_bytes_i64, try_split_at};
use crate::error::{Error, Fault};
use crate::header::Header;
use crate::laws;
use crate::model;
use crate::model::{Block, Contents, FOOTER_SCAN};
use crate::text;
use crate::zone::{
    PosixTimeZone, TzifFixed, TzifIndicator, TzifLocalTimeType, TzifOwned, TzifTransition,
    OFFSET_MAX, OFFSET_MIN, TIMESTAMP_MAX, TIMESTAMP_MIN,
};
use vstd::prelude::*;
use vstd::slice::{slice_subrange, slice_to_vec};
use vstd::utf8;

verus! {

/// Reads one timestamp of a data block with the given header.
fn read_time(header: &Header, chunk: &[u8]) -> (t: i64)
    requires
        header.wf(),
        chunk@.len() == header.time_size,
    ensures
        t == model::time_of(header.time_size, chunk@),
{
    if header.is_32bit() {
        from_be_bytes_i32(chunk) as i64
    } else {
        from_be_bytes_i64(chunk)
    }
}

/// The timestamp nearest to `t` that is supported.
fn clamp(t: i64) -> (r: i64)
    ensures
        r == model::clamp(t as int),
{
    if t < TIMESTAMP_MIN {
        TIMESTAMP_MIN
    } else if t > TIMESTAMP_MAX {
        TIMESTAMP_MAX
    } else {
        t
    }
}

/// Looks up where the designation ends that starts at `start`. It belongs to
/// the `i`th local time type. The `block` holds the bytes of `designations`.
fn find_designation_end(i: usize, start: usize, designations: &str, block: &[u8]) -> (r: Result<
    u8,
    Error,
>)
    requires
        utf8::valid_utf8(block@),
        designations@ == utf8::decode_utf8(block@),
    ensures
        match model::designation_fault(block@, i as int, start as int) {
            Some(fault) => r matches Err(e) && e@ == fault.text(),
            None => r matches Ok(end) && end == model::designation_end(block@, start as int),
        },
{
    proof {
        utf8::decode_utf8_encode_utf8(block@);
    }
    if !designations.is_char_boundary(start) {
        return Err(Error::designation_start(i, start, block.len()));
    }
    proof {
        model::lemma_char_boundary_in_range(block@, start as int);
    }
    let ghost d = block@;
    let ghost nul = |k: int| d[start + k] == 0;
    let mut end: usize = start;
    while end < block.len()
        invariant
            start <= end <= block@.len(),
            d == block@,
            utf8::valid_utf8(d),
            utf8::is_char_boundary(d, start as int),
            designations@ == utf8::decode_utf8(d),
            nul == (|k: int| d[start + k] == 0),
            forall|k: int| 0 <= k < end - start ==> !#[trigger] nul(k),
            model::nul_after(d, start as int) == model::first((d.len() - start) as nat, nul),
        decreases block@.len() - end,
    {
        if block[end] == 0 {
            proof {
                assert(nul(end - start));
                model::lemma_first_is((d.len() - start) as nat, nul, end - start);
            }
            return if end <= 255 {
                Ok(end as u8)
            } else {
                Err(Error::designation_end(i, start, end))
            };
        }
        assert(!nul(end - start));
        end = end + 1;
    }
    proof {
        model::lemma_first_none((d.len() - start) as nat, nul);
    }
    Err(Error::designation_unterminated(i, start, designations))
}

/// Reads the indicators of the `i`th local time type.
fn read_indicator(i: usize, std: &[u8], ut: &[u8]) -> (r: Result<TzifIndicator, Error>)
    requires
        std@.len() == 0 || i < std@.len(),
        ut@.len() == 0 || i < ut@.len(),
        std@.len() > 0 || ut@.len() > 0,
    ensures
        match model::indicator_fault(std@, ut@, i as int) {
            Some(fault) => r matches Err(e) && e@ == fault.text(),
            None => r matches Ok(indicator) && indicator == model::indicator_at(
                std@,
                ut@,
                i as int,
            ),
        },
{
    if std.len() == 0 {
        if ut[i] != 0 {
            Err(Error::ut_without_standard(ut[i], i))
        } else {
            Ok(TzifIndicator::LocalWall)
        }
    } else if ut.len() == 0 {
        if std[i] == 0 {
            Ok(TzifIndicator::LocalWall)
        } else if std[i] == 1 {
            Ok(TzifIndicator::LocalStandard)
        } else {
            Err(Error::standard_wall(std[i], i))
        }
    } else {
        match (std[i], ut[i]) {
            (0, 0) => Ok(TzifIndicator::LocalWall),
            (1, 0) => Ok(TzifIndicator::LocalStandard),
            (1, 1) => Ok(TzifIndicator::UTStandard),
            (0, 1) => Err(Error::ut_wall(i)),
            _ => Err(Error::indicators(i)),
        }
    }
}

/// `parse_posix` may return `parsed` when it is given the TZ string `tz`.
pub open spec fn posix_returned<P: Fn(&[u8]) -> Result<PosixTimeZone, String>>(
    parse_posix: &P,
    tz: Seq<u8>,
    parsed: Result<PosixTimeZone, String>,
) -> bool {
    exists|s: &[u8]| s@ == tz && #[trigger] parse_posix.ensures((s,), parsed)
}

/// What becomes of what a TZ string was parsed to: the time zone, or the
/// message of an error.
pub open spec fn posix_of(tz: Seq<u8>, parsed: Result<PosixTimeZone, String>) -> Result<
    Option<PosixTimeZone>,
    Seq<char>,
> {
    match parsed {
        Err(message) => Err((Fault::PosixTz { message: message@ }).text()),
        Ok(posix_tz) => if posix_tz.dst_without_rule() {
            Err((Fault::DstWithoutRule { tz }).text())
        } else {
            Ok(Some(posix_tz))
        },
    }
}

/// `checksum` may return `sum` when it is given `data`.
pub open spec fn checksum_returned<C: Fn(&[u8]) -> u32>(
    checksum: &C,
    data: Seq<u8>,
    sum: u32,
) -> bool {
    exists|s: &[u8]| s@ == data && #[trigger] checksum.ensures((s,), sum)
}

/// `result` is what becomes of something that `parse_posix` may return when it
/// is given the TZ string `tz`.
pub open spec fn posix_result<P: Fn(&[u8]) -> Result<PosixTimeZone, String>>(
    parse_posix: &P,
    tz: Seq<u8>,
    result: Result<Option<PosixTimeZone>, Seq<char>>,
) -> bool {
    exists|parsed: Result<PosixTimeZone, String>|
        #[trigger] posix_returned(parse_posix, tz, parsed) && result == posix_of(tz, parsed)
}

/// Checks what a TZ string was parsed to: it must be a POSIX TZ string, and
/// must have a rule where it has daylight saving time.
pub fn check_posix_tz(tz: &[u8], parsed: Result<PosixTimeZone, String>) -> (r: Result<
    PosixTimeZone,
    Error,
>)
    ensures
        match posix_of(tz@, parsed) {
            Ok(posix_tz) => r matches Ok(p) && posix_tz == Some(p),
            Err(message) => r matches Err(e) && e@ == message,
        },
{
    match parsed {
        Err(message) => Err(Error::new(message)),
        Ok(posix_tz) => {
            if let Some(dst) = &posix_tz.dst {
                if dst.rule.is_none() {
                    return Err(Error::dst_without_rule(tz));
                }
            }
            Ok(posix_tz)
        },
    }
}

impl TzifOwned {
    /// Parses the transition times, and puts a transition for each of them,
    /// clamped to the supported timestamps, behind one for the time before
    /// all of them.
    pub fn parse_transitions<'b>(&mut self, header: &Header, bytes: &'b [u8]) -> (r: Result<
        &'b [u8],
        Error,
    >)
        requires
            header.wf(),
        ensures
            final(self).fixed == old(self).fixed,
            final(self).types == old(self).types,
            match model::times_fault(*header, bytes@) {
                Some(fault) => {
                    &&& r matches Err(e) && e@ == fault.text()
                    &&& final(self).transitions == old(self).transitions
                },
                None => {
                    &&& r matches Ok(rest) && rest@ == bytes@.skip(header.times_len() as int)
                    &&& final(self).transitions@ == old(self).transitions@.push(
                        model::first_transition(),
                    ) + model::timed_transitions(*header, bytes@)
                },
            },
    {
        let len: usize = header.transition_times_len()?;
        let (times, rest) = try_split_at("transition times data block", bytes, len)?;
        let size: usize = header.time_size;
        self.transitions.push(TzifTransition { timestamp: TIMESTAMP_MIN, type_index: 0 });
        let ghost before = self.transitions@;
        let ghost timed = model::timed_transitions(*header, bytes@);
        let mut i: usize = 0;
        while i < header.tzh_timecnt
            invariant
                header.wf(),
                size == header.time_size,
                i <= header.tzh_timecnt,
                times@.len() == header.tzh_timecnt * size <= usize::MAX,
                times@ == bytes@.take(times@.len() as int),
                times@.len() <= bytes@.len(),
                timed == model::timed_transitions(*header, bytes@),
                self.fixed == old(self).fixed,
                self.types == old(self).types,
                self.transitions@ == before + timed.take(i as int),
            decreases header.tzh_timecnt - i,
        {
            proof {
                model::lemma_chunk(i as int, header.tzh_timecnt as int, size as int);
            }
            let at: usize = i * size;
            let chunk = slice_subrange(times, at, at + size);
            assert(chunk@ =~= bytes@.subrange(i * size, i * size + size));
            let timestamp: i64 = clamp(read_time(header, chunk));
            self.transitions.push(TzifTransition { timestamp, type_index: 0 });
            assert(timed.take(i + 1) =~= timed.take(i as int).push(timed[i as int]));
            assert(self.transitions@ =~= before + timed.take(i + 1));
            i = i + 1;
        }
        assert(timed.take(i as int) =~= timed);
        Ok(rest)
    }

    /// Parses the type indices of the transitions, and gives them to the
    /// transitions behind the first one, which must be there.
    pub fn parse_transition_types<'b>(&mut self, header: &Header, bytes: &'b [u8]) -> (r: Result<
        &'b [u8],
        Error,
    >)
        requires
            model::good_indices(*header, bytes@) == 0 || model::good_indices(*header, bytes@)
                < old(self).transitions@.len(),
        ensures
            final(self).fixed == old(self).fixed,
            final(self).types == old(self).types,
            final(self).transitions@ == model::with_indices(
                old(self).transitions@,
                bytes@,
                model::good_indices(*header, bytes@),
            ),
            match model::indices_fault(*header, bytes@) {
                Some(fault) => r matches Err(e) && e@ == fault.text(),
                None => r matches Ok(rest) && rest@ == bytes@.skip(header.tzh_timecnt as int),
            },
    {
        let ghost before = self.transitions@;
        let ghost input = bytes@;
        let ghost bad = |i: int| input[i] >= header.tzh_typecnt;
        assert(self.transitions@ =~= model::with_indices(before, input, 0));
        let len: usize = header.transition_types_len()?;
        let (indices, rest) = try_split_at("transition types data block", bytes, len)?;
        let mut i: usize = 0;
        proof {
            model::lemma_first(header.tzh_timecnt as nat, bad);
        }
        while i < indices.len()
            invariant
                i <= indices@.len() == header.tzh_timecnt,
                indices@ == input.take(indices@.len() as int),
                indices@.len() <= input.len(),
                input == bytes@,
                before == old(self).transitions@,
                bad == (|i: int| input[i] >= header.tzh_typecnt),
                forall|j: int| 0 <= j < i ==> !#[trigger] bad(j),
                model::good_indices(*header, input) == 0 || model::good_indices(*header, input)
                    < before.len(),
                self.fixed == old(self).fixed,
                self.types == old(self).types,
                self.transitions@ == model::with_indices(before, input, i as int),
                model::bad_index(*header, input) == model::first(header.tzh_timecnt as nat, bad),
                match model::first(header.tzh_timecnt as nat, bad) {
                    Some(k) => i <= k,
                    None => true,
                },
            decreases indices@.len() - i,
        {
            let type_index: u8 = indices[i];
            if type_index as usize >= header.tzh_typecnt {
                proof {
                    assert(bad(i as int));
                    model::lemma_first_is(header.tzh_timecnt as nat, bad, i as int);
                }
                return Err(Error::type_index(type_index, header.tzh_typecnt));
            }
            proof {
                assert(!bad(i as int));
                model::lemma_first(header.tzh_timecnt as nat, bad);
            }
            let timestamp: i64 = self.transitions[i + 1].timestamp;
            self.transitions[i + 1] = TzifTransition { timestamp, type_index };
            assert(self.transitions@ =~= model::with_indices(before, input, i + 1));
            i = i + 1;
        }
        Ok(rest)
    }

    /// Parses the local time types and appends them. The ends of their
    /// designations and their indicators come later.
    pub fn parse_local_time_types<'b>(&mut self, header: &Header, bytes: &'b [u8]) -> (r: Result<
        &'b [u8],
        Error,
    >)
        ensures
            final(self).fixed == old(self).fixed,
            final(self).transitions == old(self).transitions,
            final(self).types@ == old(self).types@ + model::bare_types(
                bytes@,
                model::good_types(*header, bytes@),
            ),
            match model::types_fault(*header, bytes@) {
                Some(fault) => r matches Err(e) && e@ == fault.text(),
                None => r matches Ok(rest) && rest@ == bytes@.skip(header.types_len() as int),
            },
    {
        let ghost before = self.types@;
        let ghost input = bytes@;
        let ghost count = header.tzh_typecnt as nat;
        let ghost bad = |i: int|
            !(OFFSET_MIN <= model::offset_at(input, i) <= OFFSET_MAX);
        assert(self.types@ =~= before + model::bare_types(input, 0));
        let len: usize = header.local_time_types_len()?;
        let (records, rest) = try_split_at("local time types data block", bytes, len)?;
        let mut i: usize = 0;
        while i < header.tzh_typecnt
            invariant
                i <= header.tzh_typecnt == count,
                records@.len() == header.types_len() <= usize::MAX,
                records@ == input.take(records@.len() as int),
                records@.len() <= input.len(),
                input == bytes@,
                before == old(self).types@,
                bad == (|i: int| !(OFFSET_MIN <= model::offset_at(input, i) <= OFFSET_MAX)),
                forall|j: int| 0 <= j < i ==> !#[trigger] bad(j),
                model::bad_offset(*header, input) == model::first(count, bad),
                self.fixed == old(self).fixed,
                self.transitions == old(self).transitions,
                self.types@ == before + model::bare_types(input, i as nat),
            decreases header.tzh_typecnt - i,
        {
            let offset_bytes = slice_subrange(records, 6 * i, 6 * i + 4);
            assert(offset_bytes@ =~= input.subrange(6 * i, 6 * i + 4));
            let offset: i32 = from_be_bytes_i32(offset_bytes);
            if !(OFFSET_MIN <= offset && offset <= OFFSET_MAX) {
                proof {
                    assert(bad(i as int));
                    model::lemma_first_is(count, bad, i as int);
                }
                return Err(Error::offset(offset));
            }
            let start: u8 = records[6 * i + 5];
            self.types.push(
                TzifLocalTimeType {
                    offset,
                    is_dst: records[6 * i + 4] == 1,
                    designation: (start, start),
                    indicator: TzifIndicator::LocalWall,
                },
            );
            assert(!bad(i as int));
            assert(self.types@ =~= before + model::bare_types(input, (i + 1) as nat));
            i = i + 1;
        }
        proof {
            model::lemma_first_none(count, bad);
        }
        Ok(rest)
    }

    /// Parses the designations, and looks up where the designation of each
    /// local time type ends.
    pub fn parse_time_zone_designations<'b>(&mut self, header: &Header, bytes: &'b [u8]) -> (r:
        Result<&'b [u8], Error>)
        ensures
            final(self).transitions == old(self).transitions,
            final(self).types@ == model::with_designations(
                old(self).types@,
                bytes@.take(header.tzh_charcnt as int),
                model::good_designations(*header, model::starts_of(old(self).types@), bytes@),
            ),
            ({
                let d = bytes@.take(header.tzh_charcnt as int);
                if header.tzh_charcnt <= bytes@.len() && utf8::valid_utf8(d) {
                    final(self).fixed.designations@ == utf8::decode_utf8(d)
                } else {
                    final(self).fixed.designations == old(self).fixed.designations
                }
            }),
            final(self).fixed == (TzifFixed {
                designations: final(self).fixed.designations,
                ..old(self).fixed
            }),
            match model::designations_fault(
                *header,
                model::starts_of(old(self).types@),
                bytes@,
            ) {
                Some(fault) => r matches Err(e) && e@ == fault.text(),
                None => r matches Ok(rest) && rest@ == bytes@.skip(header.tzh_charcnt as int),
            },
    {
        let ghost before = self.types@;
        let ghost starts = model::starts_of(before);
        assert(self.types@ =~= model::with_designations(
            before,
            bytes@.take(header.tzh_charcnt as int),
            0,
        ));
        let len: usize = header.time_zone_designations_len()?;
        let (block, rest) = try_split_at("time zone designations data block", bytes, len)?;
        let ghost d = block@;
        let ghost bad = |i: int| model::designation_fault(d, i, starts[i] as int) is Some;
        match text::string_from_utf8(slice_to_vec(block)) {
            Some(designations) => self.fixed.designations = designations,
            None => return Err(Error::not_utf8(block)),
        }
        let mut i: usize = 0;
        while i < self.types.len()
            invariant
                i <= self.types@.len() == before.len() == starts.len(),
                d == block@,
                utf8::valid_utf8(d),
                d == bytes@.take(header.tzh_charcnt as int),
                d.len() == header.tzh_charcnt <= bytes@.len(),
                before == old(self).types@,
                starts == model::starts_of(before),
                bad == (|i: int| model::designation_fault(d, i, starts[i] as int) is Some),
                forall|j: int| 0 <= j < i ==> !#[trigger] bad(j),
                model::bad_designation(d, starts) == model::first(starts.len(), bad),
                self.transitions == old(self).transitions,
                self.fixed.designations@ == utf8::decode_utf8(d),
                self.fixed == (TzifFixed {
                    designations: self.fixed.designations,
                    ..old(self).fixed
                }),
                self.types@ == model::with_designations(before, d, i as int),
            decreases self.types@.len() - i,
        {
            let typ: TzifLocalTimeType = self.types[i];
            let start: usize = typ.designation.0 as usize;
            assert(starts[i as int] == start);
            match find_designation_end(i, start, self.fixed.designations.as_str(), block) {
                Ok(end) => {
                    self.types[i] = TzifLocalTimeType {
                        offset: typ.offset,
                        is_dst: typ.is_dst,
                        designation: (typ.designation.0, end),
                        indicator: typ.indicator,
                    };
                },
                Err(e) => {
                    proof {
                        assert(bad(i as int));
                        model::lemma_first_is(starts.len(), bad, i as int);
                    }
                    return Err(e);
                },
            }
            assert(!bad(i as int));
            assert(self.types@ =~= model::with_designations(before, d, i + 1));
            i = i + 1;
        }
        proof {
            model::lemma_first_none(starts.len(), bad);
        }
        Ok(rest)
    }

    /// Steps over the leap second records, after checking that they are all
    /// there. Leap seconds are ignored.
    pub fn parse_leap_seconds<'b>(&mut self, header: &Header, bytes: &'b [u8]) -> (r: Result<
        &'b [u8],
        Error,
    >)
        requires
            header.wf(),
        ensures
            *final(self) == *old(self),
            match model::leaps_fault(*header, bytes@) {
                Some(fault) => r matches Err(e) && e@ == fault.text(),
                None => r matches Ok(rest) && rest@ == bytes@.skip(header.leaps_len() as int),
            },
    {
        let len: usize = header.leap_second_len()?;
        let (_records, rest) = try_split_at("leap seconds data block", bytes, len)?;
        Ok(rest)
    }

    /// Parses the standard/wall and the UT/local indicators, and gives them
    /// to the local time types, which must be there.
    pub fn parse_indicators<'b>(&mut self, header: &Header, bytes: &'b [u8]) -> (r: Result<
        &'b [u8],
        Error,
    >)
        requires
            header.wf(),
            model::good_indicators(*header, bytes@) <= old(self).types@.len(),
        ensures
            final(self).fixed == old(self).fixed,
            final(self).transitions == old(self).transitions,
            final(self).types@ == model::with_indicators(
                old(self).types@,
                model::standard_wall(*header, bytes@),
                model::ut_local(*header, bytes@),
                model::good_indicators(*header, bytes@),
            ),
            match model::indicators_fault(*header, bytes@) {
                Some(fault) => r matches Err(e) && e@ == fault.text(),
                None => r matches Ok(rest) && rest@ == bytes@.skip(
                    header.tzh_ttisstdcnt + header.tzh_ttisutcnt,
                ),
            },
    {
        let ghost before = self.types@;
        let ghost std = model::standard_wall(*header, bytes@);
        let ghost ut = model::ut_local(*header, bytes@);
        assert(self.types@ =~= model::with_indicators(before, std, ut, 0));
        let std_len: usize = header.standard_wall_len()?;
        let (std_wall_bytes, rest) = try_split_at(
            "standard/wall indicators data block",
            bytes,
            std_len,
        )?;
        let ut_len: usize = header.ut_local_len()?;
        let (ut_local_bytes, rest) = try_split_at("UT/local indicators data block", rest, ut_len)?;
        assert(rest@ =~= bytes@.skip(header.tzh_ttisstdcnt + header.tzh_ttisutcnt));
        assert(std_wall_bytes@ == std);
        assert(ut_local_bytes@ == ut);
        let ghost bad = |i: int| model::indicator_fault(std, ut, i) is Some;
        let count: usize = if std_wall_bytes.len() == 0 {
            ut_local_bytes.len()
        } else {
            std_wall_bytes.len()
        };
        let mut i: usize = 0;
        while i < count
            invariant
                header.wf(),
                i <= count == model::indicated(std, ut),
                std_wall_bytes@ == std,
                std == model::standard_wall(*header, bytes@),
                ut_local_bytes@ == ut,
                ut == model::ut_local(*header, bytes@),
                std.len() == 0 || std.len() == count,
                ut.len() == 0 || ut.len() == count,
                std.len() == header.tzh_ttisstdcnt,
                header.tzh_ttisstdcnt + header.tzh_ttisutcnt <= bytes@.len(),
                before == old(self).types@,
                bad == (|i: int| model::indicator_fault(std, ut, i) is Some),
                forall|j: int| 0 <= j < i ==> !#[trigger] bad(j),
                model::bad_indicator(std, ut) == model::first(count as nat, bad),
                model::good_indicators(*header, bytes@) <= before.len(),
                self.fixed == old(self).fixed,
                self.transitions == old(self).transitions,
                self.types@ == model::with_indicators(
                    before,
                    std,
                    ut,
                    if std.len() == 0 {
                        0
                    } else {
                        i as int
                    },
                ),
            decreases count - i,
        {
            match read_indicator(i, std_wall_bytes, ut_local_bytes) {
                Ok(indicator) => {
                    proof {
                        assert(!bad(i as int));
                        model::lemma_first(count as nat, bad);
                    }
                    if std_wall_bytes.len() > 0 {
                        let typ: TzifLocalTimeType = self.types[i];
                        self.types[i] = TzifLocalTimeType {
                            offset: typ.offset,
                            is_dst: typ.is_dst,
                            designation: typ.designation,
                            indicator,
                        };
                        assert(self.types@ =~= model::with_indicators(before, std, ut, i + 1));
                    }
                },
                Err(e) => {
                    proof {
                        assert(bad(i as int));
                        model::lemma_first_is(count as nat, bad, i as int);
                    }
                    return Err(e);
                },
            }
            i = i + 1;
        }
        proof {
            model::lemma_first_none(count as nat, bad);
        }
        Ok(rest)
    }

    /// Parses the footer: a line feed, a TZ string, which may be empty, and
    /// another line feed. What the TZ string means is up to `parse_posix`.
    /// Where it has daylight saving time it must have a rule for it too.
    pub fn parse_footer<'b, P: Fn(&[u8]) -> Result<PosixTimeZone, String>>(
        &mut self,
        _header: &Header,
        bytes: &'b [u8],
        parse_posix: &P,
    ) -> (r: Result<&'b [u8], Error>)
        requires
            forall|s: &[u8]| parse_posix.requires((s,)),
        ensures
            final(self).types == old(self).types,
            final(self).transitions == old(self).transitions,
            final(self).fixed == (TzifFixed {
                posix_tz: final(self).fixed.posix_tz,
                ..old(self).fixed
            }),
            match model::footer_fault(bytes@) {
                Some(fault) => {
                    &&& r matches Err(e) && e@ == fault.text()
                    &&& final(self).fixed == old(self).fixed
                },
                None => {
                    let tz = model::footer_tz(bytes@);
                    match r {
                        Ok(rest) => {
                            &&& tz.len() + 2 <= bytes@.len()
                            &&& rest@ == bytes@.skip(tz.len() as int + 2)
                            &&& if tz.len() == 0 {
                                final(self).fixed.posix_tz == old(self).fixed.posix_tz
                            } else {
                                posix_result(parse_posix, tz, Ok(final(self).fixed.posix_tz))
                            }
                        },
                        Err(e) => {
                            &&& tz.len() > 0
                            &&& posix_result(parse_posix, tz, Err(e@))
                            &&& final(self).fixed == old(self).fixed
                        },
                    }
                },
            },
    {
        if bytes.len() == 0 {
            return Err(
                Error::fixed(
                    "invalid V2+ TZif footer, expected \\n, but found unexpected end of data",
                ),
            );
        }
        if bytes[0] != 0x0a {
            return Err(Error::footer_start(bytes[0]));
        }
        let body_len: usize = bytes.len() - 1;
        let scan_len: usize = if body_len <= FOOTER_SCAN {
            body_len
        } else {
            FOOTER_SCAN
        };
        let scan = slice_subrange(bytes, 1, 1 + scan_len);
        assert(scan@ =~= model::footer_scan(bytes@));
        let ghost input = bytes@;
        let ghost hit = |i: int| model::footer_scan(input)[i] == 0x0a;
        let mut n: usize = 0;
        while n < scan.len() && scan[n] != 0x0a
            invariant
                n <= scan@.len(),
                input == bytes@,
                scan@ == model::footer_scan(input),
                hit == (|i: int| model::footer_scan(input)[i] == 0x0a),
                forall|i: int| 0 <= i < n ==> !#[trigger] hit(i),
            decreases scan@.len() - n,
        {
            assert(!hit(n as int));
            n = n + 1;
        }
        if n == scan.len() {
            proof {
                model::lemma_first_none(scan@.len(), hit);
            }
            return Err(Error::footer_unterminated(scan));
        }
        proof {
            assert(hit(n as int));
            model::lemma_first_is(scan@.len(), hit, n as int);
        }
        let tz = slice_subrange(bytes, 1, 1 + n);
        let rest = slice_subrange(bytes, n + 2, bytes.len());
        assert(rest@ =~= bytes@.skip(n + 2));
        if n > 0 {
            let parsed = parse_posix(tz);
            assert(posix_returned(parse_posix, tz@, parsed));
            let ghost result = posix_of(tz@, parsed);
            let posix_tz = check_posix_tz(tz, parsed)?;
            assert(result == Ok::<_, Seq<char>>(Some(posix_tz)));
            self.fixed.posix_tz = Some(posix_tz);
        }
        Ok(rest)
    }

    /// The data of this time zone are `c`, but for what its TZ string means.
    pub open spec fn holds(&self, c: Contents) -> bool {
        &&& self.fixed.version == c.version
        &&& self.fixed.designations@ == c.block.designations
        &&& self.types@ == c.block.types
        &&& self.transitions@ == c.block.transitions
    }

    /// What every time zone satisfies that was parsed: its data block is
    /// well-formed, and daylight saving time has a rule.
    pub open spec fn wf(&self) -> bool {
        &&& (Block {
            transitions: self.transitions@,
            types: self.types@,
            designations: self.fixed.designations@,
        }).wf()
        &&& self.fixed.posix_tz matches Some(posix_tz) ==> !posix_tz.dst_without_rule()
    }

    /// A time zone without any data.
    fn empty(name: Option<String>, version: u8) -> (t: TzifOwned)
        ensures
            t.fixed.name == name,
            t.fixed.version == version,
            t.fixed.checksum == 0,
            t.fixed.designations@ == Seq::<char>::empty(),
            t.fixed.posix_tz is None,
            t.types@ == Seq::<TzifLocalTimeType>::empty(),
            t.transitions@ == Seq::<TzifTransition>::empty(),
    {
        TzifOwned {
            fixed: TzifFixed {
                name,
                version,
                checksum: 0,
                designations: String::new(),
                posix_tz: None,
            },
            types: Vec::new(),
            transitions: Vec::new(),
        }
    }

    /// Parses a data block into a time zone that is still without data.
    #[verifier::rlimit(40)]
    fn parse_block<'b>(&mut self, header: &Header, bytes: &'b [u8]) -> (r: Result<
        &'b [u8],
        Error,
    >)
        requires
            header.wf(),
            old(self).types@.len() == 0,
            old(self).transitions@.len() == 0,
        ensures
            match model::block_fault(*header, bytes@) {
                Some(fault) => r matches Err(e) && e@ == fault.text(),
                None => {
                    let block = model::block_of(*header, bytes@);
                    &&& r matches Ok(rest) && rest@ == bytes@.skip(header.data_len() as int)
                    &&& header.data_len() <= bytes@.len()
                    &&& final(self).transitions@ == block.transitions
                    &&& final(self).types@ == block.types
                    &&& final(self).fixed.designations@ == block.designations
                    &&& final(self).fixed == (TzifFixed {
                        designations: final(self).fixed.designations,
                        ..old(self).fixed
                    })
                },
            },
    {
        let ghost h = *header;
        let ghost b = bytes@;
        let rest = self.parse_transitions(header, bytes)?;
        proof {
            model::lemma_first(
                h.tzh_timecnt as nat,
                |i: int| b.skip(model::indices_at(h))[i] >= h.tzh_typecnt,
            );
        }
        let rest = self.parse_transition_types(header, rest)?;
        assert(rest@ =~= b.skip(model::types_at(h)));
        let rest = self.parse_local_time_types(header, rest)?;
        assert(rest@ =~= b.skip(model::designations_at(h)));
        let ghost bare = self.types@;
        assert(bare =~= model::bare_types(b.skip(model::types_at(h)), h.tzh_typecnt as nat));
        let ghost d = model::designation_bytes(h, b);
        let ghost starts = model::starts_of(bare);
        proof {
            model::lemma_first(
                starts.len(),
                |i: int| model::designation_fault(d, i, starts[i] as int) is Some,
            );
        }
        let rest = self.parse_time_zone_designations(header, rest)?;
        assert(rest@ =~= b.skip(model::leaps_at(h)));
        let rest = self.parse_leap_seconds(header, rest)?;
        assert(rest@ =~= b.skip(model::indicators_at(h)));
        let ghost indicators = rest@;
        proof {
            let std = model::standard_wall(h, indicators);
            let ut = model::ut_local(h, indicators);
            model::lemma_first(
                model::indicated(std, ut),
                |i: int| model::indicator_fault(std, ut, i) is Some,
            );
        }
        let rest = self.parse_indicators(header, rest)?;
        assert(rest@ =~= b.skip(h.data_len() as int));
        assert(self.transitions@ =~= model::block_of(h, b).transitions);
        assert(self.types@ =~= model::block_of(h, b).types) by {
            assert(self.types@.len() == h.tzh_typecnt);
            assert forall|i: int| 0 <= i < h.tzh_typecnt implies self.types@[i]
                == #[trigger] model::block_of(h, b).types[i] by {
                assert(bare[i] == model::bare_type(b.skip(model::types_at(h)), i));
                assert(self.types@[i] == model::type_at(h, b, i));
            }
        }
        Ok(rest)
    }

    /// Parses what follows the header of data of version 1.
    pub fn parse32<'b>(name: Option<String>, header32: Header, bytes: &'b [u8]) -> (r: Result<
        (TzifOwned, &'b [u8]),
        Error,
    >)
        requires
            header32.wf(),
        ensures
            match model::contents32(header32, bytes@) {
                Err(fault) => r matches Err(e) && e@ == fault.text(),
                Ok(c) => {
                    &&& r matches Ok((t, rest))
                    &&& c.len <= bytes@.len()
                    &&& rest@ == bytes@.skip(c.len as int)
                    &&& t.holds(c)
                    &&& t.fixed.name == name
                    &&& t.fixed.checksum == 0
                    &&& t.fixed.posix_tz is None
                },
            },
    {
        let mut tzif = TzifOwned::empty(name, header32.version);
        let rest = tzif.parse_block(&header32, bytes)?;
        Ok((tzif, rest))
    }

    /// Parses what follows the first header of data of a later version. The
    /// 32-bit data block is skipped; the header, the data block and the
    /// footer behind it are parsed.
    #[verifier::rlimit(40)]
    pub fn parse64<'b, P: Fn(&[u8]) -> Result<PosixTimeZone, String>>(
        name: Option<String>,
        header32: Header,
        bytes: &'b [u8],
        parse_posix: &P,
    ) -> (r: Result<(TzifOwned, &'b [u8]), Error>)
        requires
            header32.wf(),
            forall|s: &[u8]| parse_posix.requires((s,)),
        ensures
            match model::contents64(header32, bytes@) {
                Err(fault) => r matches Err(e) && e@ == fault.text(),
                Ok(c) => match r {
                    Ok((t, rest)) => {
                        &&& c.len <= bytes@.len()
                        &&& rest@ == bytes@.skip(c.len as int)
                        &&& t.holds(c)
                        &&& t.fixed.name == name
                        &&& t.fixed.checksum == 0
                        &&& if c.tz.len() == 0 {
                            t.fixed.posix_tz is None
                        } else {
                            posix_result(parse_posix, c.tz, Ok(t.fixed.posix_tz))
                        }
                    },
                    Err(e) => c.tz.len() > 0 && posix_result(parse_posix, c.tz, Err(e@)),
                },
            },
    {
        let len: usize = header32.data_block_len()?;
        let (_, rest) = try_split_at("V1 TZif data block", bytes, len)?;
        let (header64, rest) = match Header::parse(8, rest) {
            Ok(parsed) => parsed,
            Err(e) => return Err(Error::within("failed to parse 64-bit header: ", e)),
        };
        let mut tzif = TzifOwned::empty(name, header64.version);
        let rest = tzif.parse_block(&header64, rest)?;
        let rest = tzif.parse_footer(&header64, rest, parse_posix)?;
        assert(rest@ =~= bytes@.skip(model::contents64(header32, bytes@)->Ok_0.len as int));
        Ok((tzif, rest))
    }

    /// Parses the given data as a TZif formatted file.
    ///
    /// The name given is attached to the value returned, but is otherwise not
    /// significant.
    ///
    /// If the given data is not recognized to be valid TZif, then an error is
    /// returned. What follows the TZif data is ignored.
    ///
    /// The checksum in the value returned is what `checksum` returns for the
    /// entire TZif data. What the TZ string in the footer means is up to
    /// `parse_posix`, which is given the string, without the line feeds
    /// around it, where there is one.
    #[verifier::rlimit(40)]
    pub fn parse<C: Fn(&[u8]) -> u32, P: Fn(&[u8]) -> Result<PosixTimeZone, String>>(
        name: Option<String>,
        bytes: &[u8],
        checksum: &C,
        parse_posix: &P,
    ) -> (r: Result<TzifOwned, Error>)
        requires
            forall|s: &[u8]| checksum.requires((s,)),
            forall|s: &[u8]| parse_posix.requires((s,)),
        ensures
            match model::contents(bytes@) {
                Err(fault) => r matches Err(e) && e@ == fault.text(),
                Ok(c) => match r {
                    Ok(t) => {
                        &&& t.wf()
                        &&& c.len <= bytes@.len()
                        &&& t.holds(c)
                        &&& t.fixed.name == name
                        &&& checksum_returned(
                            checksum,
                            bytes@.take(c.len as int),
                            t.fixed.checksum,
                        )
                        &&& if c.tz.len() == 0 {
                            t.fixed.posix_tz is None
                        } else {
                            posix_result(parse_posix, c.tz, Ok(t.fixed.posix_tz))
                        }
                    },
                    Err(e) => c.tz.len() > 0 && posix_result(parse_posix, c.tz, Err(e@)),
                },
            },
    {
        let (header32, rest) = match Header::parse(4, bytes) {
            Ok(parsed) => parsed,
            Err(e) => return Err(Error::within("failed to parse 32-bit header: ", e)),
        };
        let (mut tzif, rest) = if header32.version == 0 {
            TzifOwned::parse32(name, header32, rest)?
        } else {
            TzifOwned::parse64(name, header32, rest, parse_posix)?
        };
        let data = slice_subrange(bytes, 0, bytes.len() - rest.len());
        let sum: u32 = checksum(data);
        assert(checksum_returned(checksum, data@, sum));
        tzif.fixed.checksum = sum;
        proof {
            laws::law_well_formed(bytes@);
            let block = model::contents(bytes@)->Ok_0.block;
            assert(block == (Block {
                transitions: tzif.transitions@,
                types: tzif.types@,
                designations: tzif.fixed.designations@,
            }));
        }
        Ok(tzif)
    }
}

} // verus!
