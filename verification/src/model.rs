//! What TZif data says, as a function of its bytes.
//!
//! A data block has seven parts, one behind the other. For each part there is
//! a function from the bytes that start with it to what is wrong with it, and
//! there are functions from those bytes to what it says.

use crate::bytes;
use crate::error::Fault;
use crate::header;
use crate::header::{Header, HEADER_LEN};
use crate::zone::{
    TzifIndicator, TzifLocalTimeType, TzifTransition, OFFSET_MAX, OFFSET_MIN, TIMESTAMP_MAX,
    TIMESTAMP_MIN,
};
use vstd::prelude::*;
use vstd::utf8;

verus! {

/// The least index below `n` at which `p` holds, if there is one.
pub open spec fn first(n: nat, p: spec_fn(int) -> bool) -> Option<int>
    decreases n,
{
    if n == 0 {
        None
    } else {
        match first((n - 1) as nat, p) {
            Some(i) => Some(i),
            None => if p(n - 1) {
                Some(n - 1)
            } else {
                None
            },
        }
    }
}

/// Too few bytes are left for `what`, which takes `at` bytes.
pub open spec fn short(what: Seq<char>, at: nat, b: Seq<u8>) -> Option<Fault> {
    if at > b.len() {
        Some(Fault::TooFewBytes { what, at, len: b.len() })
    } else {
        None
    }
}

/// The timestamp nearest to `t` that is supported.
pub open spec fn clamp(t: int) -> i64 {
    if t < TIMESTAMP_MIN {
        TIMESTAMP_MIN
    } else if t > TIMESTAMP_MAX {
        TIMESTAMP_MAX
    } else {
        t as i64
    }
}

/// The transition that stands for the time before all others.
pub open spec fn first_transition() -> TzifTransition {
    TzifTransition { timestamp: TIMESTAMP_MIN, type_index: 0 }
}

/// The timestamp that `time_size` bytes stand for.
pub open spec fn time_of(time_size: usize, b: Seq<u8>) -> int {
    if time_size == 4 {
        bytes::be_i32(b)
    } else {
        bytes::be_i64(b)
    }
}

/// The `i`th transition time in `b`.
pub open spec fn time_at(h: Header, b: Seq<u8>, i: int) -> int {
    time_of(h.time_size, b.subrange(i * h.time_size, i * h.time_size + h.time_size))
}

/// What is wrong with the transition times.
pub open spec fn times_fault(h: Header, b: Seq<u8>) -> Option<Fault> {
    if h.times_len() > usize::MAX {
        Some(Fault::TimeCount { count: h.tzh_timecnt as nat })
    } else {
        short("transition times data block"@, h.times_len(), b)
    }
}

/// The transitions whose times are in `b`, all of the local time type 0.
pub open spec fn timed_transitions(h: Header, b: Seq<u8>) -> Seq<TzifTransition> {
    Seq::new(
        h.tzh_timecnt as nat,
        |i: int| TzifTransition { timestamp: clamp(time_at(h, b, i)), type_index: 0 },
    )
}

/// The first of the type indices in `b` that no local time type has.
pub open spec fn bad_index(h: Header, b: Seq<u8>) -> Option<int> {
    first(h.tzh_timecnt as nat, |i: int| b[i] >= h.tzh_typecnt)
}

/// What is wrong with the type indices of the transitions.
pub open spec fn indices_fault(h: Header, b: Seq<u8>) -> Option<Fault> {
    match short("transition types data block"@, h.tzh_timecnt as nat, b) {
        Some(fault) => Some(fault),
        None => match bad_index(h, b) {
            Some(i) => Some(
                Fault::TypeIndex { index: b[i] as nat, typecnt: h.tzh_typecnt as nat },
            ),
            None => None,
        },
    }
}

/// The transitions, with the first `n` type indices of `b` given to those
/// behind the first one.
pub open spec fn with_indices(ts: Seq<TzifTransition>, b: Seq<u8>, n: int) -> Seq<TzifTransition> {
    Seq::new(
        ts.len(),
        |i: int|
            if 1 <= i <= n {
                TzifTransition { timestamp: ts[i].timestamp, type_index: b[i - 1] }
            } else {
                ts[i]
            },
    )
}

/// The number of type indices in `b` before the first fault.
pub open spec fn good_indices(h: Header, b: Seq<u8>) -> int {
    if h.tzh_timecnt > b.len() {
        0
    } else {
        match bad_index(h, b) {
            Some(i) => i,
            None => h.tzh_timecnt as int,
        }
    }
}

/// The offset of the `i`th local time type in `b`.
pub open spec fn offset_at(b: Seq<u8>, i: int) -> int {
    bytes::be_i32(b.subrange(6 * i, 6 * i + 4))
}

/// The first of the local time types in `b` whose offset is not supported.
pub open spec fn bad_offset(h: Header, b: Seq<u8>) -> Option<int> {
    first(
        h.tzh_typecnt as nat,
        |i: int| !(OFFSET_MIN <= offset_at(b, i) <= OFFSET_MAX),
    )
}

/// What is wrong with the local time types.
pub open spec fn types_fault(h: Header, b: Seq<u8>) -> Option<Fault> {
    if h.types_len() > usize::MAX {
        Some(Fault::TypeCount { count: h.tzh_typecnt as nat })
    } else {
        match short("local time types data block"@, h.types_len(), b) {
            Some(fault) => Some(fault),
            None => match bad_offset(h, b) {
                Some(i) => Some(Fault::Offset { offset: offset_at(b, i) }),
                None => None,
            },
        }
    }
}

/// The number of local time types in `b` before the first fault.
pub open spec fn good_types(h: Header, b: Seq<u8>) -> nat {
    if h.types_len() > usize::MAX || h.types_len() > b.len() {
        0
    } else {
        match bad_offset(h, b) {
            Some(i) => i as nat,
            None => h.tzh_typecnt as nat,
        }
    }
}

/// The `i`th local time type in `b`, before its designation's end and its
/// indicator are known.
pub open spec fn bare_type(b: Seq<u8>, i: int) -> TzifLocalTimeType {
    TzifLocalTimeType {
        offset: offset_at(b, i) as i32,
        is_dst: b[6 * i + 4] == 1,
        designation: (b[6 * i + 5], b[6 * i + 5]),
        indicator: TzifIndicator::LocalWall,
    }
}

/// The first `n` local time types in `b`.
pub open spec fn bare_types(b: Seq<u8>, n: nat) -> Seq<TzifLocalTimeType> {
    Seq::new(n, |i: int| bare_type(b, i))
}

/// How far behind `start` the first NUL byte is in the designations.
pub open spec fn nul_after(d: Seq<u8>, start: int) -> Option<int> {
    first((d.len() - start) as nat, |k: int| d[start + k] == 0)
}

/// Where the designation ends that starts at `start`: at a NUL byte.
pub open spec fn designation_end(d: Seq<u8>, start: int) -> int {
    start + nul_after(d, start)->0
}

/// What is wrong with the designation of the `i`th local time type, which
/// starts at `start`.
pub open spec fn designation_fault(d: Seq<u8>, i: int, start: int) -> Option<Fault> {
    if !utf8::is_char_boundary(d, start) {
        Some(Fault::DesignationStart { i: i as nat, start: start as nat, len: d.len() })
    } else if nul_after(d, start) is None {
        Some(
            Fault::DesignationUnterminated {
                i: i as nat,
                start: start as nat,
                designations: utf8::decode_utf8(d),
            },
        )
    } else if designation_end(d, start) > u8::MAX {
        Some(
            Fault::DesignationEnd {
                i: i as nat,
                start: start as nat,
                end: designation_end(d, start) as nat,
            },
        )
    } else {
        None
    }
}

/// The first local time type with a bad designation. The `starts` are where
/// the designations of all types start.
pub open spec fn bad_designation(d: Seq<u8>, starts: Seq<u8>) -> Option<int> {
    first(starts.len(), |i: int| designation_fault(d, i, starts[i] as int) is Some)
}

/// What is wrong with the designations.
pub open spec fn designations_fault(h: Header, starts: Seq<u8>, b: Seq<u8>) -> Option<Fault> {
    let d = b.take(h.tzh_charcnt as int);
    match short("time zone designations data block"@, h.tzh_charcnt as nat, b) {
        Some(fault) => Some(fault),
        None => if !utf8::valid_utf8(d) {
            Some(Fault::NotUtf8 { bytes: d })
        } else {
            match bad_designation(d, starts) {
                Some(i) => designation_fault(d, i, starts[i] as int),
                None => None,
            }
        },
    }
}

/// Where the designations of the local time types start.
pub open spec fn starts_of(types: Seq<TzifLocalTimeType>) -> Seq<u8> {
    Seq::new(types.len(), |i: int| types[i].designation.0)
}

/// The number of local time types with a designation before the first fault.
pub open spec fn good_designations(h: Header, starts: Seq<u8>, b: Seq<u8>) -> int {
    let d = b.take(h.tzh_charcnt as int);
    if h.tzh_charcnt > b.len() || !utf8::valid_utf8(d) {
        0
    } else {
        match bad_designation(d, starts) {
            Some(i) => i,
            None => starts.len() as int,
        }
    }
}

/// The local time types, with the ends of their designations given to the
/// first `n`.
pub open spec fn with_designations(types: Seq<TzifLocalTimeType>, d: Seq<u8>, n: int) -> Seq<
    TzifLocalTimeType,
> {
    Seq::new(
        types.len(),
        |i: int|
            if i < n {
                let start = types[i].designation.0;
                TzifLocalTimeType {
                    designation: (start, designation_end(d, start as int) as u8),
                    ..types[i]
                }
            } else {
                types[i]
            },
    )
}

/// What is wrong with the leap second records.
pub open spec fn leaps_fault(h: Header, b: Seq<u8>) -> Option<Fault> {
    if h.leaps_len() > usize::MAX {
        Some(Fault::LeapCount { count: h.tzh_leapcnt as nat })
    } else {
        short("leap seconds data block"@, h.leaps_len(), b)
    }
}

/// What is wrong with the indicators of the `i`th local time type. Where
/// there are no indicators of a kind, all of them are 0.
pub open spec fn indicator_fault(std: Seq<u8>, ut: Seq<u8>, i: int) -> Option<Fault> {
    if std.len() == 0 {
        if ut[i] != 0 {
            Some(Fault::UtWithoutStandard { byte: ut[i] as nat, i: i as nat })
        } else {
            None
        }
    } else if ut.len() == 0 {
        if std[i] > 1 {
            Some(Fault::StandardWall { byte: std[i] as nat, i: i as nat })
        } else {
            None
        }
    } else if std[i] == 0 && ut[i] == 1 {
        Some(Fault::UtWall { i: i as nat })
    } else if std[i] > 1 || ut[i] > 1 {
        Some(Fault::Indicators { i: i as nat })
    } else {
        None
    }
}

/// The number of local time types that have an indicator of either kind.
pub open spec fn indicated(std: Seq<u8>, ut: Seq<u8>) -> nat {
    if std.len() == 0 {
        ut.len()
    } else {
        std.len()
    }
}

/// The first local time type with bad indicators.
pub open spec fn bad_indicator(std: Seq<u8>, ut: Seq<u8>) -> Option<int> {
    first(indicated(std, ut), |i: int| indicator_fault(std, ut, i) is Some)
}

/// The standard/wall indicators in `b`.
pub open spec fn standard_wall(h: Header, b: Seq<u8>) -> Seq<u8> {
    b.take(h.tzh_ttisstdcnt as int)
}

/// The UT/local indicators in `b`, which follow the standard/wall indicators.
pub open spec fn ut_local(h: Header, b: Seq<u8>) -> Seq<u8> {
    b.skip(h.tzh_ttisstdcnt as int).take(h.tzh_ttisutcnt as int)
}

/// What is wrong with the indicators.
pub open spec fn indicators_fault(h: Header, b: Seq<u8>) -> Option<Fault> {
    let std = standard_wall(h, b);
    let ut = ut_local(h, b);
    match short("standard/wall indicators data block"@, h.tzh_ttisstdcnt as nat, b) {
        Some(fault) => Some(fault),
        None => match short(
            "UT/local indicators data block"@,
            h.tzh_ttisutcnt as nat,
            b.skip(h.tzh_ttisstdcnt as int),
        ) {
            Some(fault) => Some(fault),
            None => match bad_indicator(std, ut) {
                Some(i) => indicator_fault(std, ut, i),
                None => None,
            },
        },
    }
}

/// What the indicators of the `i`th local time type say.
pub open spec fn indicator_at(std: Seq<u8>, ut: Seq<u8>, i: int) -> TzifIndicator {
    if std.len() == 0 || std[i] == 0 {
        TzifIndicator::LocalWall
    } else if ut.len() == 0 || ut[i] == 0 {
        TzifIndicator::LocalStandard
    } else {
        TzifIndicator::UTStandard
    }
}

/// The number of local time types that are given an indicator before the
/// first fault. Without standard/wall indicators there are none.
pub open spec fn good_indicators(h: Header, b: Seq<u8>) -> int {
    let std = standard_wall(h, b);
    let ut = ut_local(h, b);
    if std.len() == 0 || h.tzh_ttisstdcnt + h.tzh_ttisutcnt > b.len() {
        0
    } else {
        match bad_indicator(std, ut) {
            Some(i) => i,
            None => std.len() as int,
        }
    }
}

/// The local time types, with their indicators given to the first `n`.
pub open spec fn with_indicators(
    types: Seq<TzifLocalTimeType>,
    std: Seq<u8>,
    ut: Seq<u8>,
    n: int,
) -> Seq<TzifLocalTimeType> {
    Seq::new(
        types.len(),
        |i: int|
            if i < n {
                TzifLocalTimeType { indicator: indicator_at(std, ut, i), ..types[i] }
            } else {
                types[i]
            },
    )
}

/// What a data block says.
#[verifier::ext_equal]
pub struct Block {
    pub transitions: Seq<TzifTransition>,
    pub types: Seq<TzifLocalTimeType>,
    pub designations: Seq<char>,
}

/// The range of bytes `start..end` of the designations `d` holds characters,
/// none of which is NUL, and a NUL is behind it.
pub open spec fn is_designation(d: Seq<u8>, start: int, end: int) -> bool {
    &&& 0 <= start <= end < d.len()
    &&& utf8::is_char_boundary(d, start)
    &&& utf8::is_char_boundary(d, end)
    &&& forall|k: int| start <= k < end ==> #[trigger] d[k] != 0
    &&& d[end] == 0
}

impl Block {
    /// What holds of every data block.
    pub open spec fn wf(self) -> bool {
        let d = utf8::encode_utf8(self.designations);
        &&& self.types.len() >= 1
        &&& self.transitions.len() >= 1
        &&& self.transitions[0] == first_transition()
        &&& forall|i: int|
            0 <= i < self.transitions.len() ==> {
                &&& TIMESTAMP_MIN <= (#[trigger] self.transitions[i]).timestamp <= TIMESTAMP_MAX
                &&& self.transitions[i].type_index < self.types.len()
            }
        &&& forall|i: int|
            0 <= i < self.types.len() ==> {
                let typ = #[trigger] self.types[i];
                &&& OFFSET_MIN <= typ.offset <= OFFSET_MAX
                &&& is_designation(d, typ.designation.0 as int, typ.designation.1 as int)
            }
    }
}

/// Where the type indices start in a data block.
pub open spec fn indices_at(h: Header) -> int {
    h.times_len() as int
}

/// Where the local time types start in a data block.
pub open spec fn types_at(h: Header) -> int {
    indices_at(h) + h.tzh_timecnt
}

/// Where the designations start in a data block.
pub open spec fn designations_at(h: Header) -> int {
    types_at(h) + h.types_len()
}

/// Where the leap second records start in a data block.
pub open spec fn leaps_at(h: Header) -> int {
    designations_at(h) + h.tzh_charcnt
}

/// Where the indicators start in a data block.
pub open spec fn indicators_at(h: Header) -> int {
    leaps_at(h) + h.leaps_len()
}

/// The designations in a data block.
pub open spec fn designation_bytes(h: Header, b: Seq<u8>) -> Seq<u8> {
    b.skip(designations_at(h)).take(h.tzh_charcnt as int)
}

/// What is wrong with a data block: the fault of its first part with a fault.
pub open spec fn block_fault(h: Header, b: Seq<u8>) -> Option<Fault> {
    let types = b.skip(types_at(h));
    let starts = starts_of(bare_types(types, h.tzh_typecnt as nat));
    match times_fault(h, b) {
        Some(fault) => Some(fault),
        None => match indices_fault(h, b.skip(indices_at(h))) {
            Some(fault) => Some(fault),
            None => match types_fault(h, types) {
                Some(fault) => Some(fault),
                None => match designations_fault(h, starts, b.skip(designations_at(h))) {
                    Some(fault) => Some(fault),
                    None => match leaps_fault(h, b.skip(leaps_at(h))) {
                        Some(fault) => Some(fault),
                        None => indicators_fault(h, b.skip(indicators_at(h))),
                    },
                },
            },
        },
    }
}

/// The `i`th transition of a data block. The one at 0 is not in the data.
pub open spec fn transition_at(h: Header, b: Seq<u8>, i: int) -> TzifTransition {
    if i == 0 {
        first_transition()
    } else {
        TzifTransition {
            timestamp: clamp(time_at(h, b, i - 1)),
            type_index: b[indices_at(h) + i - 1],
        }
    }
}

/// The `i`th local time type of a data block.
pub open spec fn type_at(h: Header, b: Seq<u8>, i: int) -> TzifLocalTimeType {
    let types = b.skip(types_at(h));
    let indicators = b.skip(indicators_at(h));
    let start = types[6 * i + 5];
    TzifLocalTimeType {
        offset: offset_at(types, i) as i32,
        is_dst: types[6 * i + 4] == 1,
        designation: (start, designation_end(designation_bytes(h, b), start as int) as u8),
        indicator: indicator_at(standard_wall(h, indicators), ut_local(h, indicators), i),
    }
}

/// What a data block without faults says.
pub open spec fn block_of(h: Header, b: Seq<u8>) -> Block {
    Block {
        transitions: Seq::new(h.tzh_timecnt as nat + 1, |i: int| transition_at(h, b, i)),
        types: Seq::new(h.tzh_typecnt as nat, |i: int| type_at(h, b, i)),
        designations: utf8::decode_utf8(designation_bytes(h, b)),
    }
}

/// The most bytes that are scanned for the end of the footer.
pub const FOOTER_SCAN: usize = 1024;

/// The bytes that are scanned for the end of a footer.
pub open spec fn footer_scan(b: Seq<u8>) -> Seq<u8> {
    if b.len() - 1 <= FOOTER_SCAN {
        b.skip(1)
    } else {
        b.subrange(1, 1 + FOOTER_SCAN)
    }
}

/// The length of the TZ string in a footer, which a line feed ends.
pub open spec fn tz_len(b: Seq<u8>) -> Option<int> {
    first(footer_scan(b).len(), |i: int| footer_scan(b)[i] == 0x0a)
}

/// What is wrong with a footer, as far as it encloses its TZ string.
pub open spec fn footer_fault(b: Seq<u8>) -> Option<Fault> {
    if b.len() == 0 {
        Some(Fault::FooterMissing)
    } else if b[0] != 0x0a {
        Some(Fault::FooterStart { found: b[0] })
    } else if tz_len(b) is None {
        Some(Fault::FooterUnterminated { scanned: footer_scan(b) })
    } else {
        None
    }
}

/// The TZ string in a footer.
pub open spec fn footer_tz(b: Seq<u8>) -> Seq<u8> {
    b.subrange(1, 1 + tz_len(b)->0)
}

/// What TZif data says, but for what its TZ string means.
#[verifier::ext_equal]
pub struct Contents {
    /// The version byte.
    pub version: u8,
    /// What the data block says.
    pub block: Block,
    /// The TZ string in the footer. Empty where there is no footer.
    pub tz: Seq<u8>,
    /// The number of bytes that the data takes.
    pub len: nat,
}

/// What data of version 1 says. Its header is `h`, and `b` is what follows it.
pub open spec fn contents32(h: Header, b: Seq<u8>) -> Result<Contents, Fault> {
    match block_fault(h, b) {
        Some(fault) => Err(fault),
        None => Ok(
            Contents {
                version: h.version,
                block: block_of(h, b),
                tz: Seq::empty(),
                len: h.data_len(),
            },
        ),
    }
}

/// What data of a later version says. Its second header is `h`, and `b` is
/// what follows it.
pub open spec fn second_contents(h: Header, b: Seq<u8>) -> Result<Contents, Fault> {
    let footer = b.skip(h.data_len() as int);
    match block_fault(h, b) {
        Some(fault) => Err(fault),
        None => match footer_fault(footer) {
            Some(fault) => Err(fault),
            None => Ok(
                Contents {
                    version: h.version,
                    block: block_of(h, b),
                    tz: footer_tz(footer),
                    len: h.data_len() + footer_tz(footer).len() + 2,
                },
            ),
        },
    }
}

/// The same contents, `n` bytes further on.
pub open spec fn behind(n: nat, c: Result<Contents, Fault>) -> Result<Contents, Fault> {
    match c {
        Err(fault) => Err(fault),
        Ok(c) => Ok(Contents { len: n + c.len, ..c }),
    }
}

/// What data of a later version says. Its first header is `h`, and `b` is
/// what follows it: a data block that is skipped, and then a second header.
pub open spec fn contents64(h: Header, b: Seq<u8>) -> Result<Contents, Fault> {
    let second = b.skip(h.data_len() as int);
    match h.data_len_fault() {
        Some(fault) => Err(fault),
        None => match short("V1 TZif data block"@, h.data_len(), b) {
            Some(fault) => Err(fault),
            None => match header::header_of(8, second) {
                Err(fault) => Err(Fault::Header64 { fault }),
                Ok(h64) => behind(
                    h.data_len() + HEADER_LEN as nat,
                    second_contents(h64, second.skip(HEADER_LEN as int)),
                ),
            },
        },
    }
}

/// What TZif data says, or what is wrong with it.
pub open spec fn contents(b: Seq<u8>) -> Result<Contents, Fault> {
    let rest = b.skip(HEADER_LEN as int);
    match header::header_of(4, b) {
        Err(fault) => Err(Fault::Header32 { fault }),
        Ok(h) => behind(
            HEADER_LEN as nat,
            if h.version == 0 {
                contents32(h, rest)
            } else {
                contents64(h, rest)
            },
        ),
    }
}

/// The index of the first hit is known once it is found.
pub proof fn lemma_first_is(n: nat, p: spec_fn(int) -> bool, i: int)
    requires
        0 <= i < n,
        p(i),
        forall|j: int| 0 <= j < i ==> !#[trigger] p(j),
    ensures
        first(n, p) == Some(i),
    decreases n,
{
    if i < n - 1 {
        lemma_first_is((n - 1) as nat, p, i);
    } else {
        lemma_first_none((n - 1) as nat, p);
    }
}

/// There is no first hit where there is no hit.
pub proof fn lemma_first_none(n: nat, p: spec_fn(int) -> bool)
    requires
        forall|j: int| 0 <= j < n ==> !#[trigger] p(j),
    ensures
        first(n, p) is None,
    decreases n,
{
    if n > 0 {
        lemma_first_none((n - 1) as nat, p);
    }
}

/// What is known of the result of a search.
pub proof fn lemma_first(n: nat, p: spec_fn(int) -> bool)
    ensures
        match first(n, p) {
            Some(i) => 0 <= i < n && p(i) && forall|j: int| 0 <= j < i ==> !#[trigger] p(j),
            None => forall|j: int| 0 <= j < n ==> !#[trigger] p(j),
        },
    decreases n,
{
    if n > 0 {
        lemma_first((n - 1) as nat, p);
    }
}

/// The `i`th of `n` chunks ends where the next one starts, and ends in time.
pub proof fn lemma_chunk(i: int, n: int, size: int)
    requires
        0 <= i < n,
        0 <= size,
    ensures
        0 <= i * size,
        (i + 1) * size == i * size + size,
        i * size + size <= n * size,
{
    assert((i + 1) * size == i * size + size) by (nonlinear_arith);
    assert(0 <= i * size) by (nonlinear_arith)
        requires
            0 <= i,
            0 <= size,
    ;
    assert((i + 1) * size <= n * size) by (nonlinear_arith)
        requires
            i + 1 <= n,
            0 <= size,
    ;
}

/// A character boundary is not beyond the end.
pub proof fn lemma_char_boundary_in_range(b: Seq<u8>, i: int)
    requires
        utf8::valid_utf8(b),
        utf8::is_char_boundary(b, i),
    ensures
        0 <= i <= b.len(),
{
}

} // verus!
