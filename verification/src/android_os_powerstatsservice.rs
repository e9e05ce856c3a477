//! The system power-stats service side: the power monitor record type,
//! its decoder, and the result-receiver logic that picks monitor lists and
//! readings out of a decoded container.

use vstd::prelude::*;
use crate::cursor::{can_read, spec_i32_at, Cursor};
use crate::error::{DecodeError, DecodeErrorV};
use crate::bundle::{
    register_creator, parcel_read_string8, spec_read_string8, Bundle, CreatorRegistry, Object,
    ObjectV, ParcelableCreator, ParcelableInstance, ParcelableInstanceV,
};

verus! {

/// Container key under which the supported-monitor list is delivered.
pub const KEY_MONITORS: &'static str = "monitors";

/// Container key under which the reading timestamps are delivered.
pub const KEY_TIMESTAMPS: &'static str = "timestamps";

/// Container key under which the energy readings are delivered.
pub const KEY_ENERGY: &'static str = "energy";

/// What a power monitor measures.
#[derive(Clone, Copy, Debug, Default, PartialEq, Eq, Hash, Structural)]
pub enum PowerMonitorType {
    /// A monitor corresponding to a subsystem: the energy value may be a
    /// direct pass-through power rail measurement, or modeled from several
    /// rails shared between subsystems.
    #[default]
    Consumer,
    /// A monitor corresponding to a directly measured, device-specific power
    /// rail.
    Measurement,
}

/// The wire code of a monitor type, when one exists.
pub open spec fn spec_monitor_type_of(code: i32) -> Option<PowerMonitorType> {
    if code == 0 {
        Some(PowerMonitorType::Consumer)
    } else if code == 1 {
        Some(PowerMonitorType::Measurement)
    } else {
        None
    }
}

impl PowerMonitorType {
    /// The monitor type a wire code denotes, or `None` for an unknown code.
    pub fn from_code(code: i32) -> (r: Option<PowerMonitorType>)
        ensures
            r == spec_monitor_type_of(code),
    {
        if code == 0 {
            Some(PowerMonitorType::Consumer)
        } else if code == 1 {
            Some(PowerMonitorType::Measurement)
        } else {
            None
        }
    }
}

/// One power monitor record: the record type this decoder concretely
/// supports. On the wire it is a signed 32-bit index, a signed 32-bit
/// monitor type code, and a String8 name.
#[derive(Debug, PartialEq)]
pub struct PowerMonitor {
    pub index: i32,
    pub kind: PowerMonitorType,
    pub name: String,
}

/// The mathematical image of a `PowerMonitor`.
pub struct PowerMonitorV {
    pub index: i32,
    pub kind: PowerMonitorType,
    pub name: Seq<char>,
}

impl View for PowerMonitor {
    type V = PowerMonitorV;

    open spec fn view(&self) -> PowerMonitorV {
        PowerMonitorV { index: self.index, kind: self.kind, name: self.name@ }
    }
}

/// The power monitor record encoding: index, monitor type code, String8
/// name. An unknown type code is a decode error.
pub open spec fn spec_read_power_monitor(d: Seq<u8>, p: int) -> Result<
    (PowerMonitorV, int),
    DecodeErrorV,
> {
    if !can_read(d, p, 4) {
        Err(DecodeErrorV::Truncated)
    } else {
        let index = spec_i32_at(d, p);
        if !can_read(d, p + 4, 4) {
            Err(DecodeErrorV::Truncated)
        } else {
            let code = spec_i32_at(d, p + 4);
            match spec_monitor_type_of(code) {
                None => Err(DecodeErrorV::UnknownMonitorKind(code)),
                Some(kind) => match spec_read_string8(d, p + 8) {
                    Ok((name, end)) => Ok((PowerMonitorV { index, kind, name }, end)),
                    Err(e) => Err(e),
                },
            }
        }
    }
}

impl PowerMonitor {
    /// Decode one power monitor record at the cursor.
    pub fn deserialize(parcel: &mut Cursor) -> (r: Result<PowerMonitor, DecodeError>)
        requires
            old(parcel).wf(),
        ensures
            final(parcel).data() == old(parcel).data(),
            final(parcel).wf(),
            match spec_read_power_monitor(old(parcel).data(), old(parcel).pos()) {
                Ok((m, end)) => r matches Ok(pm) && pm@ == m && final(parcel).pos() == end,
                Err(e) => r matches Err(err) && err@ == e,
            },
    {
        let index = match parcel.read_i32() {
            Ok(v) => v,
            Err(e) => return Err(e),
        };
        let code = match parcel.read_i32() {
            Ok(v) => v,
            Err(e) => return Err(e),
        };
        let kind = match PowerMonitorType::from_code(code) {
            Some(k) => k,
            None => return Err(DecodeError::UnknownMonitorKind(code)),
        };
        let name = match parcel_read_string8(parcel) {
            Ok(s) => s,
            Err(e) => return Err(e),
        };
        Ok(PowerMonitor { index, kind, name })
    }
}

impl Clone for PowerMonitor {
    fn clone(&self) -> (r: PowerMonitor)
        ensures
            r@ == self@,
    {
        PowerMonitor { index: self.index, kind: self.kind, name: self.name.clone() }
    }
}

/// Why a result receiver rejected a delivered container.
#[derive(Debug, Clone, PartialEq)]
pub enum ReceiveError {
    /// The delivery carried a non-zero result code.
    BadCode(i32),
    /// An expected key is missing from the container.
    MissingKey,
    /// The value under an expected key has the wrong kind.
    WrongKind,
}

/// The power monitor list a container delivers under the monitors key, when
/// it is well-formed: a polymorphic record array all of whose records are
/// power monitors.
pub open spec fn spec_monitors_of(m: Map<Seq<char>, ObjectV>) -> Option<Seq<PowerMonitorV>> {
    if !m.contains_key(KEY_MONITORS@) {
        None
    } else {
        match m[KEY_MONITORS@] {
            ObjectV::ParcelableArray(insts) => {
                if forall|i: int|
                    0 <= i < insts.len() ==> (#[trigger] insts[i]) matches
                        ParcelableInstanceV::PowerMonitor(_) {
                    Some(Seq::new(insts.len(), |i: int| insts[i]->PowerMonitor_0))
                } else {
                    None
                }
            },
            _ => None,
        }
    }
}

/// The callback target for one delivery of the supported-monitor list.
pub struct ReceiveSupportedPowerMonitors {}

impl ReceiveSupportedPowerMonitors {
    /// A fresh receiver, together with a registry that already knows how to
    /// decode the power monitor records the delivery will carry.
    pub fn new() -> (r: (ReceiveSupportedPowerMonitors, CreatorRegistry))
        ensures
            r.1@ == Map::<Seq<char>, ParcelableCreator>::empty().insert(
                "android.os.PowerMonitor"@,
                ParcelableCreator::PowerMonitor,
            ),
    {
        let mut registry = CreatorRegistry::new();
        register_creator(
            &mut registry,
            "android.os.PowerMonitor".to_owned(),
            ParcelableCreator::PowerMonitor,
        );
        (ReceiveSupportedPowerMonitors {}, registry)
    }

    /// Accept one result delivery: a zero result code and a container whose
    /// monitors entry is a record array of power monitors. Anything else is
    /// rejected, and rejection says exactly why.
    pub fn send(&self, code: i32, data: &Bundle) -> (r: Result<Vec<PowerMonitor>, ReceiveError>)
        ensures
            match r {
                Ok(ms) => code == 0 && spec_monitors_of(data@) == Some(
                    ms@.map_values(|m: PowerMonitor| m@),
                ),
                Err(ReceiveError::BadCode(c)) => c == code && code != 0,
                Err(ReceiveError::MissingKey) => code == 0 && !data@.contains_key(KEY_MONITORS@),
                Err(ReceiveError::WrongKind) => code == 0 && data@.contains_key(KEY_MONITORS@)
                    && spec_monitors_of(data@) is None,
            },
    {
        if code != 0 {
            return Err(ReceiveError::BadCode(code));
        }
        let key = KEY_MONITORS.to_owned();
        let obj = match data.get(&key) {
            Some(o) => o,
            None => return Err(ReceiveError::MissingKey),
        };
        match obj {
            Object::ParcelableArray(insts) => {
                let ghost iv = insts@.map_values(|x: ParcelableInstance| x@);
                let mut out: Vec<PowerMonitor> = Vec::new();
                let mut i: usize = 0;
                while i < insts.len()
                    invariant
                        i <= insts@.len(),
                        iv == insts@.map_values(|x: ParcelableInstance| x@),
                        obj@ == ObjectV::ParcelableArray(iv),
                        data@[KEY_MONITORS@] == obj@,
                        data@.contains_key(KEY_MONITORS@),
                        code == 0,
                        out@.len() == i as int,
                        forall|j: int|
                            0 <= j < i as int ==> (#[trigger] iv[j]) matches
                                ParcelableInstanceV::PowerMonitor(_),
                        forall|j: int|
                            0 <= j < i as int ==> #[trigger] out@[j]@ == iv[j]->PowerMonitor_0,
                    decreases insts@.len() - i,
                {
                    match &insts[i] {
                        ParcelableInstance::PowerMonitor(pm) => {
                            out.push(pm.clone());
                            i = i + 1;
                        },
                        ParcelableInstance::Opaque(_) => {
                            proof {
                                assert(iv[i as int] matches ParcelableInstanceV::Opaque(_));
                            }
                            return Err(ReceiveError::WrongKind);
                        },
                    }
                }
                proof {
                    assert(spec_monitors_of(data@) matches Some(s) && s =~= out@.map_values(
                        |m: PowerMonitor| m@,
                    ));
                }
                Ok(out)
            },
            _ => Err(ReceiveError::WrongKind),
        }
    }
}

/// One batch of power monitor readings: the timestamps and the accumulated
/// energies, index-aligned with the monitor ids the caller asked about.
#[derive(Debug, Clone, PartialEq)]
pub struct PowerMonitorReadings {
    /// Monotonic timestamps, in milliseconds since boot.
    pub timestamps_ms: Vec<i64>,
    /// Accumulated energy, in microwatt-seconds.
    pub energy_uws: Vec<i64>,
}

/// The reading pair a container delivers, when it is well-formed: a long
/// array of timestamps and a long array of energies.
pub open spec fn spec_readings_of(m: Map<Seq<char>, ObjectV>) -> Option<(Seq<i64>, Seq<i64>)> {
    if !m.contains_key(KEY_TIMESTAMPS@) || !m.contains_key(KEY_ENERGY@) {
        None
    } else {
        match (m[KEY_TIMESTAMPS@], m[KEY_ENERGY@]) {
            (ObjectV::LongArray(ts), ObjectV::LongArray(es)) => Some((ts, es)),
            _ => None,
        }
    }
}

/// The callback target for one delivery of power monitor readings.
pub struct ReceivePowerMonitorReadings {}

impl ReceivePowerMonitorReadings {
    /// A fresh readings receiver.
    pub fn new() -> (r: ReceivePowerMonitorReadings) {
        ReceivePowerMonitorReadings {}
    }

    /// Accept one result delivery: a zero result code and a container
    /// holding a long array under each of the timestamps and energy keys.
    pub fn send(&self, code: i32, data: &Bundle) -> (r: Result<PowerMonitorReadings, ReceiveError>)
        ensures
            match r {
                Ok(readings) => code == 0 && spec_readings_of(data@) == Some(
                    (readings.timestamps_ms@, readings.energy_uws@),
                ),
                Err(ReceiveError::BadCode(c)) => c == code && code != 0,
                Err(ReceiveError::MissingKey) => code == 0 && (!data@.contains_key(KEY_TIMESTAMPS@)
                    || !data@.contains_key(KEY_ENERGY@)),
                Err(ReceiveError::WrongKind) => code == 0 && data@.contains_key(KEY_TIMESTAMPS@)
                    && data@.contains_key(KEY_ENERGY@) && spec_readings_of(data@) is None,
            },
    {
        if code != 0 {
            return Err(ReceiveError::BadCode(code));
        }
        let ts_key = KEY_TIMESTAMPS.to_owned();
        let en_key = KEY_ENERGY.to_owned();
        let ts_obj = match data.get(&ts_key) {
            Some(o) => o,
            None => return Err(ReceiveError::MissingKey),
        };
        let en_obj = match data.get(&en_key) {
            Some(o) => o,
            None => return Err(ReceiveError::MissingKey),
        };
        let timestamps = match ts_obj {
            Object::LongArray(v) => v,
            _ => return Err(ReceiveError::WrongKind),
        };
        let energy = match en_obj {
            Object::LongArray(v) => v,
            _ => return Err(ReceiveError::WrongKind),
        };
        Ok(
            PowerMonitorReadings {
                timestamps_ms: clone_longs(timestamps),
                energy_uws: clone_longs(energy),
            },
        )
    }
}

/// Copy a vector of 64-bit integers.
fn clone_longs(v: &Vec<i64>) -> (r: Vec<i64>)
    ensures
        r@ == v@,
{
    let mut out: Vec<i64> = Vec::new();
    let mut i: usize = 0;
    while i < v.len()
        invariant
            i <= v@.len(),
            out@ == v@.take(i as int),
        decreases v@.len() - i,
    {
        out.push(v[i]);
        i = i + 1;
        proof {
            assert(out@ =~= v@.take(i as int));
        }
    }
    proof {
        assert(v@.take(v@.len() as int) =~= v@);
    }
    out
}

} // verus!
