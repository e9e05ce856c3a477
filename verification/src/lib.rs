//! A verified decoder for the self-describing, length-prefixed binary
//! value/container wire format that Android's power statistics services use
//! to ship loosely-typed key-value containers and polymorphic records, plus
//! the plain data types a client maps decoded values into.

use vstd::prelude::*;
use vstd::string::StrSliceExecFns;

pub mod android_os_powerstatsservice;
pub mod bundle;
pub mod cursor;
pub mod error;

use android_os_powerstatsservice::{PowerMonitor, PowerMonitorReadings, PowerMonitorType, PowerMonitorV};

verus! {

/// Which remote power statistics backend a client asked for.
#[derive(Clone, Copy, Debug, PartialEq, Eq, Structural)]
pub enum BackendSelection {
    VendorHardwareService,
    SystemJavaService,
}

/// One individually readable energy meter (a power rail or regulator).
#[derive(Clone, Debug, PartialEq, Eq)]
pub struct EnergyMeter {
    pub id: i32,
    pub name: String,
    /// On the system service the subsystem is carried inside the monitor
    /// name, appended after a colon.
    pub subsystem: String,
}

/// The mathematical image of an `EnergyMeter`.
pub struct EnergyMeterV {
    pub id: i32,
    pub name: Seq<char>,
    pub subsystem: Seq<char>,
}

impl View for EnergyMeter {
    type V = EnergyMeterV;

    open spec fn view(&self) -> EnergyMeterV {
        EnergyMeterV { id: self.id, name: self.name@, subsystem: self.subsystem@ }
    }
}

/// What kind of subsystem an energy consumer aggregates for.
#[derive(Clone, Copy, Debug, PartialEq, Eq, Structural)]
pub enum EnergyConsumerType {
    Other,
    Bluetooth,
    CpuCluster,
    Display,
    Gnss,
    MobileRadio,
    Wifi,
    Camera,
}

/// The consumer type a textual type name denotes, when it names one.
pub open spec fn spec_consumer_type_of_name(s: Seq<char>) -> Option<EnergyConsumerType> {
    if s == "OTHER"@ {
        Some(EnergyConsumerType::Other)
    } else if s == "BLUETOOTH"@ {
        Some(EnergyConsumerType::Bluetooth)
    } else if s == "CPU"@ {
        Some(EnergyConsumerType::CpuCluster)
    } else if s == "DISPLAY"@ {
        Some(EnergyConsumerType::Display)
    } else if s == "GNSS"@ {
        Some(EnergyConsumerType::Gnss)
    } else if s == "MOBILE_RADIO"@ {
        Some(EnergyConsumerType::MobileRadio)
    } else if s == "WIFI"@ {
        Some(EnergyConsumerType::Wifi)
    } else if s == "CAMERA"@ {
        Some(EnergyConsumerType::Camera)
    } else {
        None
    }
}

/// `t`, or `Other` where no type name matched.
pub open spec fn spec_type_or_other(t: Option<EnergyConsumerType>) -> EnergyConsumerType {
    match t {
        Some(x) => x,
        None => EnergyConsumerType::Other,
    }
}

impl EnergyConsumerType {
    /// The consumer type a textual type name denotes, if any.
    pub fn from_name(s: &String) -> (r: Option<EnergyConsumerType>)
        ensures
            r == spec_consumer_type_of_name(s@),
    {
        if *s == "OTHER".to_owned() {
            Some(EnergyConsumerType::Other)
        } else if *s == "BLUETOOTH".to_owned() {
            Some(EnergyConsumerType::Bluetooth)
        } else if *s == "CPU".to_owned() {
            Some(EnergyConsumerType::CpuCluster)
        } else if *s == "DISPLAY".to_owned() {
            Some(EnergyConsumerType::Display)
        } else if *s == "GNSS".to_owned() {
            Some(EnergyConsumerType::Gnss)
        } else if *s == "MOBILE_RADIO".to_owned() {
            Some(EnergyConsumerType::MobileRadio)
        } else if *s == "WIFI".to_owned() {
            Some(EnergyConsumerType::Wifi)
        } else if *s == "CAMERA".to_owned() {
            Some(EnergyConsumerType::Camera)
        } else {
            None
        }
    }
}

/// The consumer type a numeric code of the vendor HAL's consumer-type
/// enumeration denotes: 0 through 7 in the order the variants are declared.
pub open spec fn spec_consumer_type_of_code(code: i32) -> Option<EnergyConsumerType> {
    if code == 0 {
        Some(EnergyConsumerType::Other)
    } else if code == 1 {
        Some(EnergyConsumerType::Bluetooth)
    } else if code == 2 {
        Some(EnergyConsumerType::CpuCluster)
    } else if code == 3 {
        Some(EnergyConsumerType::Display)
    } else if code == 4 {
        Some(EnergyConsumerType::Gnss)
    } else if code == 5 {
        Some(EnergyConsumerType::MobileRadio)
    } else if code == 6 {
        Some(EnergyConsumerType::Wifi)
    } else if code == 7 {
        Some(EnergyConsumerType::Camera)
    } else {
        None
    }
}

impl EnergyConsumerType {
    /// The consumer type a vendor-side numeric code denotes, if any.
    pub fn from_code(code: i32) -> (r: Option<EnergyConsumerType>)
        ensures
            r == spec_consumer_type_of_code(code),
    {
        if code == 0 {
            Some(EnergyConsumerType::Other)
        } else if code == 1 {
            Some(EnergyConsumerType::Bluetooth)
        } else if code == 2 {
            Some(EnergyConsumerType::CpuCluster)
        } else if code == 3 {
            Some(EnergyConsumerType::Display)
        } else if code == 4 {
            Some(EnergyConsumerType::Gnss)
        } else if code == 5 {
            Some(EnergyConsumerType::MobileRadio)
        } else if code == 6 {
            Some(EnergyConsumerType::Wifi)
        } else if code == 7 {
            Some(EnergyConsumerType::Camera)
        } else {
            None
        }
    }
}

impl core::str::FromStr for EnergyConsumerType {
    type Err = ();

    fn from_str(s: &str) -> Result<EnergyConsumerType, ()> {
        match EnergyConsumerType::from_name(&s.to_owned()) {
            Some(t) => Ok(t),
            None => Err(()),
        }
    }
}

/// One energy consumer (aggregated data for a CPU cluster, the GPU, and so
/// on, rather than an individual rail).
#[derive(Clone, Debug, PartialEq, Eq)]
pub struct EnergyConsumer {
    pub id: i32,
    pub name: String,
    pub ordinal: i32,
    pub kind: EnergyConsumerType,
}

/// The mathematical image of an `EnergyConsumer`.
pub struct EnergyConsumerV {
    pub id: i32,
    pub name: Seq<char>,
    pub ordinal: i32,
    pub kind: EnergyConsumerType,
}

impl View for EnergyConsumer {
    type V = EnergyConsumerV;

    open spec fn view(&self) -> EnergyConsumerV {
        EnergyConsumerV { id: self.id, name: self.name@, ordinal: self.ordinal, kind: self.kind }
    }
}

/// One reading from an energy meter.
#[derive(Clone, Copy, Debug, PartialEq, Eq)]
pub struct EnergyMeterReading {
    /// Monotonic timestamp, in milliseconds since boot.
    pub timestamp: u64,
    /// How long, in milliseconds, the energy accumulated; the system
    /// service does not provide it.
    pub duration: Option<u64>,
    /// Accumulated energy in microwatt-seconds.
    pub energy_uws: i64,
}

/// How much energy one UID (one app) consumed, in microwatt-seconds.
#[derive(Clone, Copy, Debug, PartialEq, Eq)]
pub struct EnergyConsumerAttribution {
    pub uid: i32,
    pub energy_uws: i64,
}

/// One reading from an energy consumer.
#[derive(Clone, Debug, PartialEq, Eq)]
pub struct EnergyConsumerReading {
    /// Monotonic timestamp, in milliseconds since boot.
    pub timestamp: u64,
    /// Accumulated energy in microwatt-seconds.
    pub energy_uws: i64,
    pub attribution: Vec<EnergyConsumerAttribution>,
}

/// The mathematical image of an `EnergyConsumerReading`.
pub struct EnergyConsumerReadingV {
    pub timestamp: u64,
    pub energy_uws: i64,
    pub attribution: Seq<EnergyConsumerAttribution>,
}

impl View for EnergyConsumerReading {
    type V = EnergyConsumerReadingV;

    open spec fn view(&self) -> EnergyConsumerReadingV {
        EnergyConsumerReadingV {
            timestamp: self.timestamp,
            energy_uws: self.energy_uws,
            attribution: self.attribution@,
        }
    }
}

/// Where `c` first occurs in `s`, if anywhere.
pub open spec fn spec_find_char(s: Seq<char>, c: char) -> Option<int>
    decreases s.len(),
{
    if s.len() == 0 {
        None
    } else if s[0] == c {
        Some(0)
    } else {
        match spec_find_char(s.subrange(1, s.len() as int), c) {
            Some(i) => Some(i + 1),
            None => None,
        }
    }
}

proof fn lemma_find_char_props(s: Seq<char>, c: char)
    ensures
        match spec_find_char(s, c) {
            Some(i) => 0 <= i < s.len() && s[i] == c && (forall|j: int| 0 <= j < i ==> s[j] != c),
            None => forall|j: int| 0 <= j < s.len() ==> s[j] != c,
        },
    decreases s.len(),
{
    if s.len() > 0 && s[0] != c {
        let tail = s.subrange(1, s.len() as int);
        lemma_find_char_props(tail, c);
        match spec_find_char(tail, c) {
            Some(i) => {
                assert(s[i + 1] == tail[i]);
                assert forall|j: int| 0 <= j < i + 1 implies s[j] != c by {
                    if j >= 1 {
                        assert(s[j] == tail[j - 1]);
                    }
                }
            },
            None => {
                assert forall|j: int| 0 <= j < s.len() implies s[j] != c by {
                    if j >= 1 {
                        assert(s[j] == tail[j - 1]);
                    }
                }
            },
        }
    }
}

/// `s` split around the first occurrence of `c`, if `c` occurs at all.
pub open spec fn spec_split_once(s: Seq<char>, c: char) -> Option<(Seq<char>, Seq<char>)> {
    match spec_find_char(s, c) {
        None => None,
        Some(i) => Some((s.subrange(0, i), s.subrange(i + 1, s.len() as int))),
    }
}

/// Find the first occurrence of `c` in `s`.
#[verifier::loop_isolation(false)]
fn find_char(s: &str, c: char) -> (r: Option<usize>)
    ensures
        match r {
            Some(i) => spec_find_char(s@, c) == Some(i as int),
            None => spec_find_char(s@, c) is None,
        },
{
    proof {
        lemma_find_char_props(s@, c);
    }
    let n = s.unicode_len();
    let mut i: usize = 0;
    while i < n
        invariant
            i <= n,
            forall|j: int| 0 <= j < i as int ==> s@[j] != c,
        decreases n - i,
    {
        if s.get_char(i) == c {
            return Some(i);
        }
        i = i + 1;
    }
    None
}

/// Split `s` around the first occurrence of `c`.
fn split_once_at(s: &str, c: char) -> (r: Option<(String, String)>)
    ensures
        match spec_split_once(s@, c) {
            Some(pair) => (r matches Some(p) && p.0@ == pair.0 && p.1@ == pair.1),
            None => r is None,
        },
{
    proof {
        lemma_find_char_props(s@, c);
    }
    match find_char(s, c) {
        None => None,
        Some(i) => {
            let n = s.unicode_len();
            let left = s.substring_char(0, i).to_owned();
            let right = s.substring_char(i + 1, n).to_owned();
            Some((left, right))
        },
    }
}

/// Whether every character of `s` is an ASCII decimal digit.
pub open spec fn spec_all_digits(s: Seq<char>) -> bool {
    forall|i: int| 0 <= i < s.len() ==> 48 <= (#[trigger] s[i]) as u32 <= 57
}

/// The numeric value of a run of decimal digits.
pub open spec fn spec_digits_val(s: Seq<char>) -> int
    decreases s.len(),
{
    if s.len() == 0 {
        0
    } else {
        spec_digits_val(s.drop_last()) * 10 + (s.last() as u32 - 48)
    }
}

/// What parsing `s` as a signed decimal 32-bit integer yields: an optional
/// single sign, then one or more digits, and a value within range; anything
/// else does not parse.
pub open spec fn spec_parse_i32(s: Seq<char>) -> Option<i32> {
    let negative = s.len() > 0 && s[0] == '-';
    let digits = if s.len() > 0 && (s[0] == '+' || s[0] == '-') {
        s.subrange(1, s.len() as int)
    } else {
        s
    };
    if digits.len() == 0 || !spec_all_digits(digits) {
        None
    } else {
        let v = if negative {
            -spec_digits_val(digits)
        } else {
            spec_digits_val(digits)
        };
        if i32::MIN <= v <= i32::MAX {
            Some(v as i32)
        } else {
            None
        }
    }
}

proof fn lemma_digits_val_nonneg(s: Seq<char>)
    requires
        spec_all_digits(s),
    ensures
        spec_digits_val(s) >= 0,
    decreases s.len(),
{
    if s.len() > 0 {
        assert(spec_all_digits(s.drop_last()));
        lemma_digits_val_nonneg(s.drop_last());
    }
}

proof fn lemma_digits_val_prefix(s: Seq<char>, k: int)
    requires
        0 <= k <= s.len(),
        spec_all_digits(s),
    ensures
        spec_digits_val(s) >= spec_digits_val(s.take(k)),
    decreases s.len(),
{
    if k < s.len() {
        assert(spec_all_digits(s.drop_last()));
        lemma_digits_val_prefix(s.drop_last(), k);
        assert(s.drop_last().take(k) =~= s.take(k));
        lemma_digits_val_nonneg(s.drop_last());
    } else {
        assert(s.take(k) =~= s);
    }
}

/// Parse a signed decimal 32-bit integer: an optional single `+` or `-`
/// sign, then one or more ASCII digits, with the value in range; any other
/// shape, and any out-of-range value, yields nothing.
#[verifier::loop_isolation(false)]
pub fn parse_i32(s: &str) -> (r: Option<i32>)
    ensures
        r == spec_parse_i32(s@),
{
    let n = s.unicode_len();
    if n == 0 {
        return None;
    }
    let first = s.get_char(0);
    let has_sign = first == '+' || first == '-';
    let negative = first == '-';
    let start: usize = if has_sign {
        1
    } else {
        0
    };
    let ghost digits = if has_sign {
        s@.subrange(1, n as int)
    } else {
        s@
    };
    if n == start {
        return None;
    }
    let mut i: usize = start;
    let mut acc: u64 = 0;
    proof {
        assert(digits.take(0) =~= Seq::<char>::empty());
    }
    while i < n
        invariant
            start <= i <= n,
            acc as int == spec_digits_val(digits.take(i - start)),
            spec_all_digits(digits.take(i - start)),
            acc <= 0x1_0000_0000,
        decreases n - i,
    {
        let c = s.get_char(i);
        let u = c as u32;
        if !(48 <= u && u <= 57) {
            proof {
                assert(digits[i - start] == s@[i as int]);
                assert(!spec_all_digits(digits));
            }
            return None;
        }
        acc = acc * 10 + ((u - 48) as u64);
        i = i + 1;
        proof {
            assert(digits.take(i - start).drop_last() =~= digits.take(i - 1 - start));
            assert(digits.take(i - start).last() == digits[i - 1 - start]);
            assert(digits[i - 1 - start] == s@[i - 1]);
        }
        if acc > 0x1_0000_0000 {
            proof {
                if spec_all_digits(digits) {
                    lemma_digits_val_prefix(digits, i - start);
                }
            }
            return None;
        }
    }
    proof {
        assert(digits.take(n - start) =~= digits);
    }
    if negative {
        if acc <= 0x8000_0000u64 {
            Some((-(acc as i64)) as i32)
        } else {
            None
        }
    } else {
        if acc <= 0x7FFF_FFFFu64 {
            Some(acc as i32)
        } else {
            None
        }
    }
}

/// The energy meter a measurement-type monitor describes: its name must
/// look like `[rail]:subsystem`, and the brackets are stripped.
pub open spec fn spec_meter_of_monitor(m: PowerMonitorV) -> Option<EnergyMeterV> {
    match spec_split_once(m.name, ':') {
        None => None,
        Some(pair) => {
            let left = pair.0;
            if left.len() >= 2 && left[0] == '[' && left[left.len() - 1] == ']' {
                Some(
                    EnergyMeterV {
                        id: m.index,
                        name: left.subrange(1, left.len() - 1),
                        subsystem: pair.1,
                    },
                )
            } else {
                None
            }
        },
    }
}

/// Extract the energy meter a measurement-type monitor describes, if its
/// name is well formed.
pub fn meter_of_monitor(m: &PowerMonitor) -> (r: Option<EnergyMeter>)
    ensures
        match spec_meter_of_monitor(m@) {
            Some(e) => (r matches Some(x) && x@ == e),
            None => r is None,
        },
{
    match split_once_at(m.name.as_str(), ':') {
        None => None,
        Some((left, subsystem)) => {
            let ln = left.as_str().unicode_len();
            if ln >= 2 && left.as_str().get_char(0) == '[' && left.as_str().get_char(ln - 1)
                == ']' {
                let name = left.as_str().substring_char(1, ln - 1).to_owned();
                Some(EnergyMeter { id: m.index, name, subsystem })
            } else {
                None
            }
        },
    }
}

/// The energy consumer a consumer-type monitor describes: the name is
/// either `TYPE/ordinal` or a bare type name with ordinal 0, and a type
/// name that matches nothing reads as `Other`.
pub open spec fn spec_consumer_of_monitor(m: PowerMonitorV) -> Option<EnergyConsumerV> {
    match spec_split_once(m.name, '/') {
        None => Some(
            EnergyConsumerV {
                id: m.index,
                name: m.name,
                ordinal: 0,
                kind: spec_type_or_other(spec_consumer_type_of_name(m.name)),
            },
        ),
        Some(pair) => match spec_parse_i32(pair.1) {
            None => None,
            Some(o) => Some(
                EnergyConsumerV {
                    id: m.index,
                    name: pair.0,
                    ordinal: o,
                    kind: spec_type_or_other(spec_consumer_type_of_name(pair.0)),
                },
            ),
        },
    }
}

/// Extract the energy consumer a consumer-type monitor describes; an
/// ordinal that does not parse makes the monitor malformed.
pub fn consumer_of_monitor(m: &PowerMonitor) -> (r: Option<EnergyConsumer>)
    ensures
        match spec_consumer_of_monitor(m@) {
            Some(e) => (r matches Some(x) && x@ == e),
            None => r is None,
        },
{
    match split_once_at(m.name.as_str(), '/') {
        None => {
            let kind = match EnergyConsumerType::from_name(&m.name) {
                Some(t) => t,
                None => EnergyConsumerType::Other,
            };
            Some(EnergyConsumer { id: m.index, name: m.name.clone(), ordinal: 0, kind })
        },
        Some((kind_name, ordinal_text)) => {
            let ordinal = match parse_i32(ordinal_text.as_str()) {
                Some(o) => o,
                None => return None,
            };
            let kind = match EnergyConsumerType::from_name(&kind_name) {
                Some(t) => t,
                None => EnergyConsumerType::Other,
            };
            Some(EnergyConsumer { id: m.index, name: kind_name, ordinal, kind })
        },
    }
}

/// The meters among a monitor list: every measurement-type monitor, in
/// order, each with its name split into rail and subsystem. One malformed
/// measurement monitor spoils the whole list.
pub open spec fn spec_meters_of_monitors(ms: Seq<PowerMonitorV>) -> Option<Seq<EnergyMeterV>>
    decreases ms.len(),
{
    if ms.len() == 0 {
        Some(Seq::empty())
    } else {
        match spec_meters_of_monitors(ms.drop_last()) {
            None => None,
            Some(s) => {
                let m = ms.last();
                if m.kind != PowerMonitorType::Measurement {
                    Some(s)
                } else {
                    match spec_meter_of_monitor(m) {
                        None => None,
                        Some(e) => Some(s.push(e)),
                    }
                }
            },
        }
    }
}

proof fn lemma_meters_none(ms: Seq<PowerMonitorV>, k: int)
    requires
        0 <= k <= ms.len(),
        spec_meters_of_monitors(ms.take(k)) is None,
    ensures
        spec_meters_of_monitors(ms) is None,
    decreases ms.len() - k,
{
    if k < ms.len() {
        assert(ms.take(k + 1).drop_last() =~= ms.take(k));
        lemma_meters_none(ms, k + 1);
    } else {
        assert(ms.take(k) =~= ms);
    }
}

/// The meters among the supported monitors, as the vendor service would
/// list them. Fails when a measurement monitor's name is malformed (the
/// caller treats the whole list as untrustworthy then).
#[verifier::loop_isolation(false)]
pub fn energy_meters_from_monitors(monitors: &Vec<PowerMonitor>) -> (r: Option<Vec<EnergyMeter>>)
    ensures
        match spec_meters_of_monitors(monitors@.map_values(|m: PowerMonitor| m@)) {
            Some(s) => (r matches Some(v) && v@.map_values(|e: EnergyMeter| e@) == s),
            None => r is None,
        },
{
    let ghost mv = monitors@.map_values(|m: PowerMonitor| m@);
    let mut out: Vec<EnergyMeter> = Vec::new();
    let mut i: usize = 0;
    proof {
        assert(out@.map_values(|e: EnergyMeter| e@) =~= Seq::<EnergyMeterV>::empty());
        assert(mv.take(0) =~= Seq::<PowerMonitorV>::empty());
    }
    while i < monitors.len()
        invariant
            i <= monitors@.len(),
            spec_meters_of_monitors(mv.take(i as int)) == Some(
                out@.map_values(|e: EnergyMeter| e@),
            ),
        decreases monitors@.len() - i,
    {
        let ghost pre = out@.map_values(|e: EnergyMeter| e@);
        proof {
            assert(mv.take(i + 1).drop_last() =~= mv.take(i as int));
            assert(mv.take(i + 1).last() == mv[i as int]);
        }
        let m = &monitors[i];
        if m.kind == PowerMonitorType::Measurement {
            match meter_of_monitor(m) {
                Some(e) => {
                    out.push(e);
                    i = i + 1;
                    proof {
                        assert(out@.map_values(|x: EnergyMeter| x@) =~= pre.push(out@.last()@));
                    }
                },
                None => {
                    proof {
                        lemma_meters_none(mv, i + 1);
                    }
                    return None;
                },
            }
        } else {
            i = i + 1;
        }
    }
    proof {
        assert(mv.take(monitors@.len() as int) =~= mv);
    }
    Some(out)
}

/// The consumers among a monitor list: every consumer-type monitor, in
/// order, each with its name split into type name and ordinal.
pub open spec fn spec_consumers_of_monitors(ms: Seq<PowerMonitorV>) -> Option<Seq<EnergyConsumerV>>
    decreases ms.len(),
{
    if ms.len() == 0 {
        Some(Seq::empty())
    } else {
        match spec_consumers_of_monitors(ms.drop_last()) {
            None => None,
            Some(s) => {
                let m = ms.last();
                if m.kind != PowerMonitorType::Consumer {
                    Some(s)
                } else {
                    match spec_consumer_of_monitor(m) {
                        None => None,
                        Some(e) => Some(s.push(e)),
                    }
                }
            },
        }
    }
}

proof fn lemma_consumers_none(ms: Seq<PowerMonitorV>, k: int)
    requires
        0 <= k <= ms.len(),
        spec_consumers_of_monitors(ms.take(k)) is None,
    ensures
        spec_consumers_of_monitors(ms) is None,
    decreases ms.len() - k,
{
    if k < ms.len() {
        assert(ms.take(k + 1).drop_last() =~= ms.take(k));
        lemma_consumers_none(ms, k + 1);
    } else {
        assert(ms.take(k) =~= ms);
    }
}

/// The consumers among the supported monitors. Fails when a consumer
/// monitor's ordinal does not parse.
#[verifier::loop_isolation(false)]
pub fn energy_consumers_from_monitors(monitors: &Vec<PowerMonitor>) -> (r: Option<
    Vec<EnergyConsumer>,
>)
    ensures
        match spec_consumers_of_monitors(monitors@.map_values(|m: PowerMonitor| m@)) {
            Some(s) => (r matches Some(v) && v@.map_values(|e: EnergyConsumer| e@) == s),
            None => r is None,
        },
{
    let ghost mv = monitors@.map_values(|m: PowerMonitor| m@);
    let mut out: Vec<EnergyConsumer> = Vec::new();
    let mut i: usize = 0;
    proof {
        assert(out@.map_values(|e: EnergyConsumer| e@) =~= Seq::<EnergyConsumerV>::empty());
        assert(mv.take(0) =~= Seq::<PowerMonitorV>::empty());
    }
    while i < monitors.len()
        invariant
            i <= monitors@.len(),
            spec_consumers_of_monitors(mv.take(i as int)) == Some(
                out@.map_values(|e: EnergyConsumer| e@),
            ),
        decreases monitors@.len() - i,
    {
        let ghost pre = out@.map_values(|e: EnergyConsumer| e@);
        proof {
            assert(mv.take(i + 1).drop_last() =~= mv.take(i as int));
            assert(mv.take(i + 1).last() == mv[i as int]);
        }
        let m = &monitors[i];
        if m.kind == PowerMonitorType::Consumer {
            match consumer_of_monitor(m) {
                Some(e) => {
                    out.push(e);
                    i = i + 1;
                    proof {
                        assert(out@.map_values(|x: EnergyConsumer| x@) =~= pre.push(out@.last()@));
                    }
                },
                None => {
                    proof {
                        lemma_consumers_none(mv, i + 1);
                    }
                    return None;
                },
            }
        } else {
            i = i + 1;
        }
    }
    proof {
        assert(mv.take(monitors@.len() as int) =~= mv);
    }
    Some(out)
}

/// The first `k` reading pairs, zipped: each timestamp must be
/// non-negative, and the system service provides no duration.
pub open spec fn spec_zip_readings(ts: Seq<i64>, es: Seq<i64>, k: nat) -> Option<
    Seq<EnergyMeterReading>,
>
    decreases k,
{
    if k == 0 {
        Some(Seq::empty())
    } else {
        match spec_zip_readings(ts, es, (k - 1) as nat) {
            None => None,
            Some(s) => {
                let t = ts[k - 1];
                if t < 0 {
                    None
                } else {
                    Some(
                        s.push(
                            EnergyMeterReading {
                                timestamp: t as u64,
                                duration: None,
                                energy_uws: es[k - 1],
                            },
                        ),
                    )
                }
            },
        }
    }
}

/// The meter readings a readings delivery denotes: timestamps and energies
/// zipped up to the shorter of the two lists.
pub open spec fn spec_meter_readings_of(ts: Seq<i64>, es: Seq<i64>) -> Option<
    Seq<EnergyMeterReading>,
> {
    spec_zip_readings(ts, es, if ts.len() <= es.len() { ts.len() } else { es.len() })
}

proof fn lemma_zip_none(ts: Seq<i64>, es: Seq<i64>, k1: nat, k2: nat)
    requires
        k1 <= k2,
        spec_zip_readings(ts, es, k1) is None,
    ensures
        spec_zip_readings(ts, es, k2) is None,
    decreases k2,
{
    if k2 > k1 {
        lemma_zip_none(ts, es, k1, (k2 - 1) as nat);
    }
}

/// Turn one readings delivery into meter readings, pairing each timestamp
/// with its energy value. Fails when a timestamp is negative.
#[verifier::loop_isolation(false)]
pub fn meter_readings_from(readings: &PowerMonitorReadings) -> (r: Option<Vec<EnergyMeterReading>>)
    ensures
        match spec_meter_readings_of(readings.timestamps_ms@, readings.energy_uws@) {
            Some(s) => (r matches Some(v) && v@ == s),
            None => r is None,
        },
{
    let n = if readings.timestamps_ms.len() <= readings.energy_uws.len() {
        readings.timestamps_ms.len()
    } else {
        readings.energy_uws.len()
    };
    let mut out: Vec<EnergyMeterReading> = Vec::new();
    let mut i: usize = 0;
    proof {
        assert(out@ =~= Seq::<EnergyMeterReading>::empty());
    }
    while i < n
        invariant
            i <= n,
            spec_zip_readings(readings.timestamps_ms@, readings.energy_uws@, i as nat) == Some(
                out@,
            ),
        decreases n - i,
    {
        let t = readings.timestamps_ms[i];
        if t < 0 {
            proof {
                lemma_zip_none(
                    readings.timestamps_ms@,
                    readings.energy_uws@,
                    (i + 1) as nat,
                    n as nat,
                );
            }
            return None;
        }
        out.push(
            EnergyMeterReading {
                timestamp: t as u64,
                duration: None,
                energy_uws: readings.energy_uws[i],
            },
        );
        i = i + 1;
    }
    Some(out)
}

impl EnergyMeterReading {
    /// Build a reading from one vendor-side energy measurement; a negative
    /// timestamp or duration is malformed.
    pub fn from_measurement(timestamp_ms: i64, duration_ms: i64, energy_uws: i64) -> (r: Option<
        EnergyMeterReading,
    >)
        ensures
            timestamp_ms >= 0 && duration_ms >= 0 ==> r == Some(
                EnergyMeterReading {
                    timestamp: timestamp_ms as u64,
                    duration: Some(duration_ms as u64),
                    energy_uws,
                },
            ),
            !(timestamp_ms >= 0 && duration_ms >= 0) ==> r is None,
    {
        if timestamp_ms >= 0 && duration_ms >= 0 {
            Some(
                EnergyMeterReading {
                    timestamp: timestamp_ms as u64,
                    duration: Some(duration_ms as u64),
                    energy_uws,
                },
            )
        } else {
            None
        }
    }
}

impl EnergyConsumerReading {
    /// Build a reading from one vendor-side consumer result; a negative
    /// timestamp is malformed.
    pub fn from_result(
        timestamp_ms: i64,
        energy_uws: i64,
        attribution: Vec<EnergyConsumerAttribution>,
    ) -> (r: Option<EnergyConsumerReading>)
        ensures
            timestamp_ms >= 0 ==> (r matches Some(c) && c@ == EnergyConsumerReadingV {
                timestamp: timestamp_ms as u64,
                energy_uws,
                attribution: attribution@,
            }),
            timestamp_ms < 0 ==> r is None,
    {
        if timestamp_ms >= 0 {
            Some(
                EnergyConsumerReading { timestamp: timestamp_ms as u64, energy_uws, attribution },
            )
        } else {
            None
        }
    }

    /// A meter reading re-read as a consumer reading: the system service
    /// carries no duration and no attribution for either.
    pub fn from_meter_reading(m: EnergyMeterReading) -> (r: EnergyConsumerReading)
        requires
            (m.duration is None),
        ensures
            r@ == (EnergyConsumerReadingV {
                timestamp: m.timestamp,
                energy_uws: m.energy_uws,
                attribution: Seq::empty(),
            }),
    {
        EnergyConsumerReading {
            timestamp: m.timestamp,
            energy_uws: m.energy_uws,
            attribution: Vec::new(),
        }
    }
}

} // verus!
