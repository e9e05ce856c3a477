//! The container ("bundle") wire format: tagged dynamic values, the
//! length-prefix integrity protocol, the string encodings, the creator
//! registry for polymorphic records, and the container decoder itself.

use vstd::prelude::*;
use vstd::utf8::{decode_utf8, valid_utf8};
use vstd::bytes::{lemma_auto_spec_u32_to_from_le_bytes, spec_u32_to_le_bytes};
use crate::cursor::{can_read, spec_i32_at, spec_i64_at, spec_u32_at, Cursor};
use crate::android_os_powerstatsservice::spec_read_power_monitor;
use crate::error::{DecodeError, DecodeErrorV};
use crate::android_os_powerstatsservice::PowerMonitor;
use crate::android_os_powerstatsservice::PowerMonitorV;

verus! {

// Wire tag values. Containers of custom types are length-prefixed so that a
// reader can skip a value it does not understand.
pub const VAL_NULL: i32 = -1;
pub const VAL_STRING: i32 = 0;
pub const VAL_INTEGER: i32 = 1;
pub const VAL_MAP: i32 = 2; // length-prefixed
pub const VAL_BUNDLE: i32 = 3;
pub const VAL_PARCELABLE: i32 = 4; // length-prefixed
pub const VAL_SHORT: i32 = 5;
pub const VAL_LONG: i32 = 6;
pub const VAL_FLOAT: i32 = 7;
pub const VAL_DOUBLE: i32 = 8;
pub const VAL_BOOLEAN: i32 = 9;
pub const VAL_CHARSEQUENCE: i32 = 10;
pub const VAL_LIST: i32 = 11; // length-prefixed
pub const VAL_SPARSEARRAY: i32 = 12; // length-prefixed
pub const VAL_BYTEARRAY: i32 = 13;
pub const VAL_STRINGARRAY: i32 = 14;
pub const VAL_IBINDER: i32 = 15;
pub const VAL_PARCELABLEARRAY: i32 = 16; // length-prefixed
pub const VAL_OBJECTARRAY: i32 = 17; // length-prefixed
pub const VAL_INTARRAY: i32 = 18;
pub const VAL_LONGARRAY: i32 = 19;
pub const VAL_BYTE: i32 = 20;
pub const VAL_SERIALIZABLE: i32 = 21; // length-prefixed
pub const VAL_SPARSEBOOLEANARRAY: i32 = 22;
pub const VAL_BOOLEANARRAY: i32 = 23;
pub const VAL_CHARSEQUENCEARRAY: i32 = 24;
pub const VAL_PERSISTABLEBUNDLE: i32 = 25;
pub const VAL_SIZE: i32 = 26;
pub const VAL_SIZEF: i32 = 27;
pub const VAL_DOUBLEARRAY: i32 = 28;
pub const VAL_CHAR: i32 = 29;
pub const VAL_SHORTARRAY: i32 = 30;
pub const VAL_CHARARRAY: i32 = 31;
pub const VAL_FLOATARRAY: i32 = 32;

/// The subset of tags whose value is preceded by its own byte length.
pub open spec fn spec_is_length_prefixed(tag: i32) -> bool {
    ||| tag == VAL_MAP
    ||| tag == VAL_PARCELABLE
    ||| tag == VAL_LIST
    ||| tag == VAL_SPARSEARRAY
    ||| tag == VAL_PARCELABLEARRAY
    ||| tag == VAL_OBJECTARRAY
    ||| tag == VAL_SERIALIZABLE
}

/// Whether values of this tag carry a byte-length prefix. Custom types and
/// containers of custom types do, so a reader can skip their content during
/// deserialization.
pub fn is_length_prefixed(tag: i32) -> (r: bool)
    ensures
        r == spec_is_length_prefixed(tag),
{
    tag == VAL_MAP || tag == VAL_PARCELABLE || tag == VAL_LIST || tag == VAL_SPARSEARRAY
        || tag == VAL_PARCELABLEARRAY || tag == VAL_OBJECTARRAY || tag == VAL_SERIALIZABLE
}

/// `n` rounded up to the next multiple of four: the stream keeps every field
/// aligned to 32-bit words.
pub open spec fn pad4(n: int) -> int {
    ((n + 3) / 4) * 4
}

/// The plain length-prefixed string encoding: a signed 32-bit byte length,
/// then that many UTF-8 bytes, padded to a word boundary. Used for container
/// keys and record type names.
pub open spec fn spec_read_plain_string(d: Seq<u8>, p: int) -> Result<(Seq<char>, int), DecodeErrorV> {
    if !can_read(d, p, 4) {
        Err(DecodeErrorV::Truncated)
    } else {
        let len = spec_i32_at(d, p);
        if len < 0 {
            Err(DecodeErrorV::NegativeLength(len))
        } else if !can_read(d, p + 4, pad4(len as int)) {
            Err(DecodeErrorV::Truncated)
        } else {
            let bytes = d.subrange(p + 4, p + 4 + len);
            if !valid_utf8(bytes) {
                Err(DecodeErrorV::InvalidUtf8)
            } else {
                Ok((decode_utf8(bytes), p + 4 + pad4(len as int)))
            }
        }
    }
}

/// The String8 encoding: an unsigned 32-bit length that excludes the
/// mandatory NUL terminator, then the UTF-8 bytes, the terminator, and
/// padding up to `4 * ceil((len + 1) / 4)` bytes in all after the length.
pub open spec fn spec_read_string8(d: Seq<u8>, p: int) -> Result<(Seq<char>, int), DecodeErrorV> {
    if !can_read(d, p, 4) {
        Err(DecodeErrorV::Truncated)
    } else {
        let len = spec_u32_at(d, p) as int;
        if !can_read(d, p + 4, pad4(len + 1)) {
            Err(DecodeErrorV::Truncated)
        } else if d[p + 4 + len] != 0 {
            Err(DecodeErrorV::MissingTerminator)
        } else {
            let bytes = d.subrange(p + 4, p + 4 + len);
            if !valid_utf8(bytes) {
                Err(DecodeErrorV::InvalidUtf8)
            } else {
                Ok((decode_utf8(bytes), p + 4 + pad4(len + 1)))
            }
        }
    }
}

/// Relies on `String::from_utf8`: it succeeds exactly on input that is valid
/// UTF-8, and then returns the string those bytes encode.
#[verifier::external_body]
fn bytes_to_string(v: Vec<u8>) -> (r: Option<String>)
    ensures
        r is Some <==> valid_utf8(v@),
        r matches Some(s) ==> s@ == decode_utf8(v@),
{
    String::from_utf8(v).ok()
}

/// Read one plain length-prefixed string (a container key or a record type
/// name) and leave the cursor word-aligned after it.
pub fn parcel_read_string(parcel: &mut Cursor) -> (r: Result<String, DecodeError>)
    requires
        old(parcel).wf(),
    ensures
        final(parcel).data() == old(parcel).data(),
        final(parcel).wf(),
        match spec_read_plain_string(old(parcel).data(), old(parcel).pos()) {
            Ok((s, end)) => r matches Ok(t) && t@ == s && final(parcel).pos() == end,
            Err(e) => r matches Err(err) && err@ == e,
        },
{
    let len = match parcel.read_i32() {
        Ok(v) => v,
        Err(e) => return Err(e),
    };
    if len < 0 {
        return Err(DecodeError::NegativeLength(len));
    }
    let content = match parcel.read_bytes(len as usize) {
        Ok(v) => v,
        Err(e) => return Err(e),
    };
    let pad = (pad4_u64(len as u64) - (len as u64)) as usize;
    match parcel.read_bytes(pad) {
        Ok(_) => (),
        Err(e) => return Err(e),
    };
    match bytes_to_string(content) {
        Some(s) => Ok(s),
        None => Err(DecodeError::InvalidUtf8),
    }
}

/// Round a byte count up to the next multiple of four.
fn pad4_u64(n: u64) -> (r: u64)
    requires
        n <= 0xFFFF_FFFF_FFFF_0000,
    ensures
        r == pad4(n as int),
{
    (n + 3) / 4 * 4
}

/// Decode a length-prefixed, NUL-terminated, word-aligned String8 field.
/// On success the cursor advances by exactly `4 * ceil((len + 1) / 4)` bytes
/// beyond the length word, keeping every later read word-aligned.
pub fn parcel_read_string8(parcel: &mut Cursor) -> (r: Result<String, DecodeError>)
    requires
        old(parcel).wf(),
    ensures
        final(parcel).data() == old(parcel).data(),
        final(parcel).wf(),
        match spec_read_string8(old(parcel).data(), old(parcel).pos()) {
            Ok((s, end)) => r matches Ok(t) && t@ == s && final(parcel).pos() == end,
            Err(e) => r matches Err(err) && err@ == e,
        },
{
    let len = match parcel.read_u32() {
        Ok(v) => v,
        Err(e) => return Err(e),
    };
    let padded = pad4_u64((len as u64) + 1);
    let rem = parcel.remaining_size();
    if (rem as u64) < padded {
        return Err(DecodeError::Truncated);
    }
    let content = match parcel.read_bytes(len as usize) {
        Ok(v) => v,
        Err(e) => return Err(e),
    };
    let tail = match parcel.read_bytes((padded - (len as u64)) as usize) {
        Ok(v) => v,
        Err(e) => return Err(e),
    };
    if tail[0] != 0u8 {
        return Err(DecodeError::MissingTerminator);
    }
    match bytes_to_string(content) {
        Some(s) => Ok(s),
        None => Err(DecodeError::InvalidUtf8),
    }
}

/// One registered factory: which concrete decoder a record type name maps
/// to. The protocol is open-ended, so the decoder enumerates the record
/// types it concretely supports plus an opaque fall-back that captures a
/// fixed number of raw 32-bit words without interpreting them.
#[derive(Clone, Copy, Debug, PartialEq, Eq, Structural)]
pub enum ParcelableCreator {
    /// Decode one `PowerMonitor` record.
    PowerMonitor,
    /// Capture `words` 32-bit words of raw payload.
    Opaque { words: u32 },
}

/// The table mapping each record type name to the factory that decodes one
/// polymorphic record of that type. It is an explicit object handed to each
/// decode call, so every caller (and every test) can hold its own isolated
/// registry.
pub struct CreatorRegistry {
    entries: Vec<(String, ParcelableCreator)>,
}

/// The mapping an entry list denotes: later entries shadow earlier ones
/// under the same name.
pub open spec fn creator_map(entries: Seq<(String, ParcelableCreator)>) -> Map<
    Seq<char>,
    ParcelableCreator,
>
    decreases entries.len(),
{
    if entries.len() == 0 {
        Map::empty()
    } else {
        creator_map(entries.drop_last()).insert(entries.last().0@, entries.last().1)
    }
}

impl View for CreatorRegistry {
    type V = Map<Seq<char>, ParcelableCreator>;

    closed spec fn view(&self) -> Map<Seq<char>, ParcelableCreator> {
        creator_map(self.entries@)
    }
}

impl CreatorRegistry {
    /// A registry with no creators.
    pub fn new() -> (r: CreatorRegistry)
        ensures
            r@ == Map::<Seq<char>, ParcelableCreator>::empty(),
    {
        CreatorRegistry { entries: Vec::new() }
    }

    /// Find the creator registered under `name`, or report that none is.
    pub fn lookup(&self, name: &String) -> (r: Option<ParcelableCreator>)
        ensures
            self@.contains_key(name@) ==> r == Some(self@[name@]),
            !self@.contains_key(name@) ==> r is None,
    {
        let mut j = self.entries.len();
        proof {
            assert(self.entries@.take(j as int) =~= self.entries@);
        }
        while j > 0
            invariant
                j <= self.entries@.len(),
                creator_map(self.entries@).contains_key(name@) == creator_map(
                    self.entries@.take(j as int),
                ).contains_key(name@),
                creator_map(self.entries@).contains_key(name@) ==> creator_map(
                    self.entries@.take(j as int),
                )[name@] == creator_map(self.entries@)[name@],
            decreases j,
        {
            j = j - 1;
            proof {
                assert(self.entries@.take(j + 1).drop_last() =~= self.entries@.take(j as int));
                assert(self.entries@.take(j + 1).last() == self.entries@[j as int]);
            }
            if self.entries[j].0 == *name {
                return Some(self.entries[j].1);
            }
        }
        proof {
            assert(self.entries@.take(0) =~= Seq::<(String, ParcelableCreator)>::empty());
        }
        None
    }
}

/// Put `creator` into the registry under `name`. Registration is
/// last-write-wins: a later registration under the same name replaces the
/// earlier one silently.
pub fn register_creator(registry: &mut CreatorRegistry, name: String, creator: ParcelableCreator)
    ensures
        final(registry)@ == old(registry)@.insert(name@, creator),
{
    let ghost before = registry.entries@;
    registry.entries.push((name, creator));
    proof {
        assert(registry.entries@.drop_last() =~= before);
    }
}

/// Law: registering two creators under one name leaves the registry
/// resolving that name to the most recently registered creator.
pub proof fn lemma_register_last_wins(
    m: Map<Seq<char>, ParcelableCreator>,
    name: Seq<char>,
    first: ParcelableCreator,
    second: ParcelableCreator,
)
    ensures
        m.insert(name, first).insert(name, second)[name] == second,
{
}

/// One decoded polymorphic record. The protocol resolves record types by
/// name at decode time; this closed union enumerates every concretely
/// supported record type, plus an opaque variant holding raw bytes, and a
/// caller matches on the variant to recover the concrete type.
#[derive(Clone, Debug, PartialEq)]
pub enum ParcelableInstance {
    PowerMonitor(PowerMonitor),
    Opaque(Vec<u8>),
}

/// The mathematical image of a `ParcelableInstance`.
pub enum ParcelableInstanceV {
    PowerMonitor(PowerMonitorV),
    Opaque(Seq<u8>),
}

impl View for ParcelableInstance {
    type V = ParcelableInstanceV;

    open spec fn view(&self) -> ParcelableInstanceV {
        match self {
            ParcelableInstance::PowerMonitor(m) => ParcelableInstanceV::PowerMonitor(m@),
            ParcelableInstance::Opaque(b) => ParcelableInstanceV::Opaque(b@),
        }
    }
}

/// One decoded wire value: a closed tagged union. Tags the decoder knows but
/// does not implement fail with `DecodeError::UnsupportedValueKind` instead
/// of appearing here.
#[derive(Clone, Debug, PartialEq)]
pub enum Object {
    Null,
    ParcelableArray(Vec<ParcelableInstance>),
    BooleanArray(Vec<bool>),
    LongArray(Vec<i64>),
}

/// The mathematical image of an `Object`.
pub enum ObjectV {
    Null,
    ParcelableArray(Seq<ParcelableInstanceV>),
    BooleanArray(Seq<bool>),
    LongArray(Seq<i64>),
}

impl View for Object {
    type V = ObjectV;

    open spec fn view(&self) -> ObjectV {
        match self {
            Object::Null => ObjectV::Null,
            Object::ParcelableArray(v) => ObjectV::ParcelableArray(
                v@.map_values(|x: ParcelableInstance| x@),
            ),
            Object::BooleanArray(v) => ObjectV::BooleanArray(v@),
            Object::LongArray(v) => ObjectV::LongArray(v@),
        }
    }
}

/// What one record decodes to under a given creator: either a power monitor
/// record or, for the opaque fall-back, the raw words it captures.
pub open spec fn spec_read_record(d: Seq<u8>, p: int, creator: ParcelableCreator) -> Result<
    (ParcelableInstanceV, int),
    DecodeErrorV,
> {
    match creator {
        ParcelableCreator::PowerMonitor => match spec_read_power_monitor(d, p) {
            Ok((m, end)) => Ok((ParcelableInstanceV::PowerMonitor(m), end)),
            Err(e) => Err(e),
        },
        ParcelableCreator::Opaque { words } => {
            if !can_read(d, p, 4 * (words as int)) {
                Err(DecodeErrorV::Truncated)
            } else {
                Ok(
                    (
                        ParcelableInstanceV::Opaque(d.subrange(p, p + 4 * (words as int))),
                        p + 4 * (words as int),
                    ),
                )
            }
        },
    }
}

impl ParcelableCreator {
    /// Decode one record of the type this creator handles.
    pub fn create_from_parcel(&self, parcel: &mut Cursor) -> (r: Result<
        ParcelableInstance,
        DecodeError,
    >)
        requires
            old(parcel).wf(),
        ensures
            final(parcel).data() == old(parcel).data(),
            final(parcel).wf(),
            match spec_read_record(old(parcel).data(), old(parcel).pos(), *self) {
                Ok((inst, end)) => r matches Ok(x) && x@ == inst && final(parcel).pos() == end,
                Err(e) => r matches Err(err) && err@ == e,
            },
    {
        match self {
            ParcelableCreator::PowerMonitor => {
                match PowerMonitor::deserialize(parcel) {
                    Ok(m) => Ok(ParcelableInstance::PowerMonitor(m)),
                    Err(e) => Err(e),
                }
            },
            ParcelableCreator::Opaque { words } => {
                let w = *words;
                let rem = parcel.remaining_size();
                if (rem as u64) < (w as u64) * 4 {
                    return Err(DecodeError::Truncated);
                }
                match parcel.read_bytes((w as usize) * 4) {
                    Ok(b) => Ok(ParcelableInstance::Opaque(b)),
                    Err(e) => Err(e),
                }
            },
        }
    }
}

/// The first `k` elements of a signed 64-bit integer array, read in order.
pub open spec fn spec_read_longs(d: Seq<u8>, p: int, k: nat) -> Result<(Seq<i64>, int), DecodeErrorV>
    decreases k,
{
    if k == 0 {
        Ok((Seq::empty(), p))
    } else {
        match spec_read_longs(d, p, (k - 1) as nat) {
            Err(e) => Err(e),
            Ok((s, q)) => if can_read(d, q, 8) {
                Ok((s.push(spec_i64_at(d, q)), q + 8))
            } else {
                Err(DecodeErrorV::Truncated)
            },
        }
    }
}

/// The first `k` elements of a boolean array: each boolean occupies one
/// 32-bit word, and any non-zero word reads as true.
pub open spec fn spec_read_bools(d: Seq<u8>, p: int, k: nat) -> Result<(Seq<bool>, int), DecodeErrorV>
    decreases k,
{
    if k == 0 {
        Ok((Seq::empty(), p))
    } else {
        match spec_read_bools(d, p, (k - 1) as nat) {
            Err(e) => Err(e),
            Ok((s, q)) => if can_read(d, q, 4) {
                Ok((s.push(spec_u32_at(d, q) != 0), q + 4))
            } else {
                Err(DecodeErrorV::Truncated)
            },
        }
    }
}

/// The first `k` records of a polymorphic record array: each element is a
/// plain length-prefixed type name followed by the record payload that the
/// creator registered under that name decodes.
pub open spec fn spec_read_records(
    d: Seq<u8>,
    p: int,
    k: nat,
    reg: Map<Seq<char>, ParcelableCreator>,
) -> Result<(Seq<ParcelableInstanceV>, int), DecodeErrorV>
    decreases k,
{
    if k == 0 {
        Ok((Seq::empty(), p))
    } else {
        match spec_read_records(d, p, (k - 1) as nat, reg) {
            Err(e) => Err(e),
            Ok((s, q)) => match spec_read_plain_string(d, q) {
                Err(e) => Err(e),
                Ok((name, q1)) => if !reg.contains_key(name) {
                    Err(DecodeErrorV::NameNotFound(name))
                } else {
                    match spec_read_record(d, q1, reg[name]) {
                        Err(e) => Err(e),
                        Ok((inst, q2)) => Ok((s.push(inst), q2)),
                    }
                },
            },
        }
    }
}

proof fn lemma_longs_err(d: Seq<u8>, p: int, k1: nat, k2: nat)
    requires
        k1 <= k2,
        spec_read_longs(d, p, k1) is Err,
    ensures
        spec_read_longs(d, p, k2) == spec_read_longs(d, p, k1),
    decreases k2,
{
    if k2 > k1 {
        lemma_longs_err(d, p, k1, (k2 - 1) as nat);
    }
}

proof fn lemma_records_err(d: Seq<u8>, p: int, k1: nat, k2: nat, reg: Map<Seq<char>, ParcelableCreator>)
    requires
        k1 <= k2,
        spec_read_records(d, p, k1, reg) is Err,
    ensures
        spec_read_records(d, p, k2, reg) == spec_read_records(d, p, k1, reg),
    decreases k2,
{
    if k2 > k1 {
        lemma_records_err(d, p, k1, (k2 - 1) as nat, reg);
    }
}

/// The payload of one tagged value, for the tags this decoder implements.
/// A boolean-array whose count is negative or does not fit in the remaining
/// words reads as Null; every other tag fails as unsupported.
pub open spec fn spec_read_value(
    d: Seq<u8>,
    p: int,
    tag: i32,
    reg: Map<Seq<char>, ParcelableCreator>,
) -> Result<(ObjectV, int), DecodeErrorV> {
    if tag == VAL_PARCELABLEARRAY {
        if !can_read(d, p, 4) {
            Err(DecodeErrorV::Truncated)
        } else {
            let n = spec_i32_at(d, p);
            if n < 0 {
                Err(DecodeErrorV::BadCount(n))
            } else {
                match spec_read_records(d, p + 4, n as nat, reg) {
                    Ok((s, end)) => Ok((ObjectV::ParcelableArray(s), end)),
                    Err(e) => Err(e),
                }
            }
        }
    } else if tag == VAL_LONGARRAY {
        if !can_read(d, p, 4) {
            Err(DecodeErrorV::Truncated)
        } else {
            let n = spec_i32_at(d, p);
            if n < 0 {
                Err(DecodeErrorV::BadCount(n))
            } else {
                match spec_read_longs(d, p + 4, n as nat) {
                    Ok((s, end)) => Ok((ObjectV::LongArray(s), end)),
                    Err(e) => Err(e),
                }
            }
        }
    } else if tag == VAL_BOOLEANARRAY {
        if !can_read(d, p, 4) {
            Err(DecodeErrorV::Truncated)
        } else {
            let n = spec_i32_at(d, p);
            let avail = d.len() - (p + 4);
            if 0 <= n && n <= avail / 4 {
                match spec_read_bools(d, p + 4, n as nat) {
                    Ok((s, end)) => Ok((ObjectV::BooleanArray(s), end)),
                    Err(e) => Err(e),
                }
            } else {
                Ok((ObjectV::Null, p + 4))
            }
        }
    } else {
        Err(DecodeErrorV::UnsupportedValueKind(tag))
    }
}

/// Decode the payload of a value whose tag was already read. The cursor
/// must stand right after the tag (and after the length word, for a
/// length-prefixed tag).
#[verifier::loop_isolation(false)]
pub fn parcel_read_value(parcel: &mut Cursor, tag: i32, creators: &CreatorRegistry) -> (r: Result<
    Object,
    DecodeError,
>)
    requires
        old(parcel).wf(),
    ensures
        final(parcel).data() == old(parcel).data(),
        final(parcel).wf(),
        match spec_read_value(old(parcel).data(), old(parcel).pos(), tag, creators@) {
            Ok((v, end)) => r matches Ok(o) && o@ == v && final(parcel).pos() == end,
            Err(e) => r matches Err(err) && err@ == e,
        },
{
    let ghost d = parcel.data();
    if tag == VAL_PARCELABLEARRAY {
        let n = match parcel.read_i32() {
            Ok(v) => v,
            Err(e) => return Err(e),
        };
        if n < 0 {
            return Err(DecodeError::BadCount(n));
        }
        let ghost pstart = parcel.pos();
        let mut vec: Vec<ParcelableInstance> = Vec::new();
        let mut i: i32 = 0;
        proof {
            assert(vec@.map_values(|x: ParcelableInstance| x@) =~= Seq::<
                ParcelableInstanceV,
            >::empty());
        }
        while i < n
            invariant
                parcel.wf(),
                parcel.data() == d,
                0 <= i <= n,
                spec_read_records(d, pstart, i as nat, creators@) == Ok::<
                    (Seq<ParcelableInstanceV>, int),
                    DecodeErrorV,
                >((vec@.map_values(|x: ParcelableInstance| x@), parcel.pos())),
            decreases n - i,
        {
            let ghost pre = vec@.map_values(|x: ParcelableInstance| x@);
            let name = match parcel_read_string(parcel) {
                Ok(s) => s,
                Err(e) => {
                    proof {
                        lemma_records_err(d, pstart, (i + 1) as nat, n as nat, creators@);
                    }
                    return Err(e);
                },
            };
            let creator = match creators.lookup(&name) {
                Some(c) => c,
                None => {
                    proof {
                        lemma_records_err(d, pstart, (i + 1) as nat, n as nat, creators@);
                    }
                    return Err(DecodeError::NameNotFound(name));
                },
            };
            let inst = match creator.create_from_parcel(parcel) {
                Ok(x) => x,
                Err(e) => {
                    proof {
                        lemma_records_err(d, pstart, (i + 1) as nat, n as nat, creators@);
                    }
                    return Err(e);
                },
            };
            vec.push(inst);
            i = i + 1;
            proof {
                assert(vec@.map_values(|x: ParcelableInstance| x@) =~= pre.push(
                    vec@.last()@,
                ));
            }
        }
        Ok(Object::ParcelableArray(vec))
    } else if tag == VAL_LONGARRAY {
        let n = match parcel.read_i32() {
            Ok(v) => v,
            Err(e) => return Err(e),
        };
        if n < 0 {
            return Err(DecodeError::BadCount(n));
        }
        let ghost pstart = parcel.pos();
        let mut vec: Vec<i64> = Vec::new();
        let mut i: i32 = 0;
        proof {
            assert(vec@ =~= Seq::<i64>::empty());
        }
        while i < n
            invariant
                parcel.wf(),
                parcel.data() == d,
                0 <= i <= n,
                spec_read_longs(d, pstart, i as nat) == Ok::<(Seq<i64>, int), DecodeErrorV>(
                    (vec@, parcel.pos()),
                ),
            decreases n - i,
        {
            match parcel.read_i64() {
                Ok(v) => {
                    vec.push(v);
                    i = i + 1;
                },
                Err(e) => {
                    proof {
                        lemma_longs_err(d, pstart, (i + 1) as nat, n as nat);
                    }
                    return Err(e);
                },
            }
        }
        Ok(Object::LongArray(vec))
    } else if tag == VAL_BOOLEANARRAY {
        let n = match parcel.read_i32() {
            Ok(v) => v,
            Err(e) => return Err(e),
        };
        let avail = parcel.remaining_size();
        if 0 <= n && (n as usize) <= avail / 4 {
            let ghost pstart = parcel.pos();
            let mut vec: Vec<bool> = Vec::new();
            let mut i: i32 = 0;
            proof {
                assert(vec@ =~= Seq::<bool>::empty());
            }
            while i < n
                invariant
                    parcel.wf(),
                    parcel.data() == d,
                    0 <= i <= n,
                    parcel.pos() == pstart + 4 * (i as int),
                    pstart + 4 * (n as int) <= d.len(),
                    spec_read_bools(d, pstart, i as nat) == Ok::<(Seq<bool>, int), DecodeErrorV>(
                        (vec@, parcel.pos()),
                    ),
                decreases n - i,
            {
                match parcel.read_u32() {
                    Ok(w) => {
                        vec.push(w != 0);
                        i = i + 1;
                    },
                    Err(e) => {
                        proof {
                            assert(can_read(d, pstart + 4 * (i as int), 4));
                        }
                        return Err(e);
                    },
                }
            }
            Ok(Object::BooleanArray(vec))
        } else {
            Ok(Object::Null)
        }
    } else {
        Err(DecodeError::UnsupportedValueKind(tag))
    }
}

/// One tagged value from the front: the tag word, then (for the
/// length-prefixed subset) the byte length of the payload, then the payload
/// itself, which must end exactly at its declared length.
pub open spec fn spec_read_value_type(
    d: Seq<u8>,
    p: int,
    reg: Map<Seq<char>, ParcelableCreator>,
) -> Result<(ObjectV, int), DecodeErrorV> {
    if !can_read(d, p, 4) {
        Err(DecodeErrorV::Truncated)
    } else {
        let tag = spec_i32_at(d, p);
        if spec_is_length_prefixed(tag) {
            if !can_read(d, p + 4, 4) {
                Err(DecodeErrorV::Truncated)
            } else {
                let length = spec_i32_at(d, p + 4);
                let start = p + 8;
                match spec_read_value(d, start, tag, reg) {
                    Err(e) => Err(e),
                    Ok((v, end)) => if end == start + length {
                        Ok((v, end))
                    } else {
                        Err(DecodeErrorV::LengthMismatch)
                    },
                }
            }
        } else {
            spec_read_value(d, p + 4, tag, reg)
        }
    }
}

/// Decode one tagged value. For a length-prefixed tag, the declared length
/// is held against what the payload decoder actually consumed: any mismatch
/// signals corruption and fails the decode rather than silently resyncing.
pub fn parcel_read_value_type(parcel: &mut Cursor, creators: &CreatorRegistry) -> (r: Result<
    Object,
    DecodeError,
>)
    requires
        old(parcel).wf(),
    ensures
        final(parcel).data() == old(parcel).data(),
        final(parcel).wf(),
        match spec_read_value_type(old(parcel).data(), old(parcel).pos(), creators@) {
            Ok((v, end)) => r matches Ok(o) && o@ == v && final(parcel).pos() == end,
            Err(e) => r matches Err(err) && err@ == e,
        },
{
    let tag = match parcel.read_i32() {
        Ok(v) => v,
        Err(e) => return Err(e),
    };
    if is_length_prefixed(tag) {
        let length = match parcel.read_i32() {
            Ok(v) => v,
            Err(e) => return Err(e),
        };
        let start = parcel.position();
        let robj = match parcel_read_value(parcel, tag, creators) {
            Ok(o) => o,
            Err(e) => return Err(e),
        };
        let endpos = parcel.position();
        if (endpos as i128) == (start as i128) + (length as i128) {
            Ok(robj)
        } else {
            Err(DecodeError::LengthMismatch)
        }
    } else {
        parcel_read_value(parcel, tag, creators)
    }
}

/// The first `k` key/value entries of a container body: each entry is a
/// plain length-prefixed string key followed by one tagged value. A later
/// entry under the same key overwrites the earlier one.
pub open spec fn spec_read_entries(
    d: Seq<u8>,
    p: int,
    k: nat,
    reg: Map<Seq<char>, ParcelableCreator>,
) -> Result<(Map<Seq<char>, ObjectV>, int), DecodeErrorV>
    decreases k,
{
    if k == 0 {
        Ok((Map::empty(), p))
    } else {
        match spec_read_entries(d, p, (k - 1) as nat, reg) {
            Err(e) => Err(e),
            Ok((m, q)) => match spec_read_plain_string(d, q) {
                Err(e) => Err(e),
                Ok((key, q1)) => match spec_read_value_type(d, q1, reg) {
                    Err(e) => Err(e),
                    Ok((v, q2)) => Ok((m.insert(key, v), q2)),
                },
            },
        }
    }
}

proof fn lemma_entries_err(
    d: Seq<u8>,
    p: int,
    k1: nat,
    k2: nat,
    reg: Map<Seq<char>, ParcelableCreator>,
)
    requires
        k1 <= k2,
        spec_read_entries(d, p, k1, reg) is Err,
    ensures
        spec_read_entries(d, p, k2, reg) == spec_read_entries(d, p, k1, reg),
    decreases k2,
{
    if k2 > k1 {
        lemma_entries_err(d, p, k1, (k2 - 1) as nat, reg);
    }
}

/// A whole container: the presence flag (which must be 1), the total byte
/// length of the body (0 denotes an explicitly empty container and ends the
/// decode right there), the magic word (read and discarded), the entry
/// count, and then the entries.
pub open spec fn spec_deserialize_bundle(
    d: Seq<u8>,
    p: int,
    reg: Map<Seq<char>, ParcelableCreator>,
) -> Result<(Map<Seq<char>, ObjectV>, int), DecodeErrorV> {
    if !can_read(d, p, 4) {
        Err(DecodeErrorV::Truncated)
    } else {
        let is_set = spec_i32_at(d, p);
        if is_set != 1 {
            Err(DecodeErrorV::BadPresence(is_set))
        } else if !can_read(d, p + 4, 4) {
            Err(DecodeErrorV::Truncated)
        } else {
            let length = spec_i32_at(d, p + 4);
            if length < 0 {
                Err(DecodeErrorV::NegativeLength(length))
            } else if length == 0 {
                Ok((Map::empty(), p + 8))
            } else if !can_read(d, p + 8, 8) {
                Err(DecodeErrorV::Truncated)
            } else {
                let count = spec_i32_at(d, p + 12);
                if count < 0 {
                    Err(DecodeErrorV::BadCount(count))
                } else {
                    spec_read_entries(d, p + 16, count as nat, reg)
                }
            }
        }
    }
}

/// A decoded container: a mapping from string key to dynamic value. Keys
/// are unique in the mapping; on the wire a later duplicate key overwrites
/// an earlier one. Iteration order is deliberately not offered: a container
/// is a set of key/value pairs.
#[derive(Clone, Debug, PartialEq)]
pub struct Bundle {
    entries: Vec<(String, Object)>,
}

/// The mapping an entry list denotes: later entries shadow earlier ones
/// under the same key.
pub open spec fn entry_map(entries: Seq<(String, Object)>) -> Map<Seq<char>, ObjectV>
    decreases entries.len(),
{
    if entries.len() == 0 {
        Map::empty()
    } else {
        entry_map(entries.drop_last()).insert(entries.last().0@, entries.last().1@)
    }
}

impl View for Bundle {
    type V = Map<Seq<char>, ObjectV>;

    closed spec fn view(&self) -> Map<Seq<char>, ObjectV> {
        entry_map(self.entries@)
    }
}

impl Bundle {
    /// A container with no entries.
    pub fn new() -> (r: Bundle)
        ensures
            r@ == Map::<Seq<char>, ObjectV>::empty(),
    {
        Bundle { entries: Vec::new() }
    }

    /// Put `value` under `key`, overwriting whatever was there.
    fn insert(&mut self, key: String, value: Object)
        ensures
            final(self)@ == old(self)@.insert(key@, value@),
    {
        let ghost before = self.entries@;
        self.entries.push((key, value));
        proof {
            assert(self.entries@.drop_last() =~= before);
        }
    }

    /// Whether the container holds no entries at all.
    pub fn is_empty(&self) -> (r: bool)
        ensures
            r == (self@ == Map::<Seq<char>, ObjectV>::empty()),
    {
        let r = self.entries.len() == 0;
        proof {
            if self.entries@.len() > 0 {
                assert(self@.contains_key(self.entries@.last().0@));
                assert(!Map::<Seq<char>, ObjectV>::empty().dom().contains(
                    self.entries@.last().0@,
                ));
            }
        }
        r
    }

    /// The value under `key`, if the container holds one.
    pub fn get(&self, key: &String) -> (r: Option<&Object>)
        ensures
            self@.contains_key(key@) ==> (r matches Some(o) && o@ == self@[key@]),
            !self@.contains_key(key@) ==> r is None,
    {
        let mut j = self.entries.len();
        proof {
            assert(self.entries@.take(j as int) =~= self.entries@);
        }
        while j > 0
            invariant
                j <= self.entries@.len(),
                entry_map(self.entries@).contains_key(key@) == entry_map(
                    self.entries@.take(j as int),
                ).contains_key(key@),
                entry_map(self.entries@).contains_key(key@) ==> entry_map(
                    self.entries@.take(j as int),
                )[key@] == entry_map(self.entries@)[key@],
            decreases j,
        {
            j = j - 1;
            proof {
                assert(self.entries@.take(j + 1).drop_last() =~= self.entries@.take(j as int));
                assert(self.entries@.take(j + 1).last() == self.entries@[j as int]);
            }
            if self.entries[j].0 == *key {
                return Some(&self.entries[j].1);
            }
        }
        proof {
            assert(self.entries@.take(0) =~= Seq::<(String, Object)>::empty());
        }
        None
    }

    /// Decode a whole container at the cursor. A presence flag other than 1,
    /// a negative total length, or a negative entry count is a framing
    /// error; a total length of 0 short-circuits to the empty container
    /// without reading the magic word, the count, or anything after them.
    #[verifier::loop_isolation(false)]
    pub fn deserialize(parcel: &mut Cursor, creators: &CreatorRegistry) -> (r: Result<
        Bundle,
        DecodeError,
    >)
        requires
            old(parcel).wf(),
        ensures
            final(parcel).data() == old(parcel).data(),
            final(parcel).wf(),
            match spec_deserialize_bundle(old(parcel).data(), old(parcel).pos(), creators@) {
                Ok((m, end)) => r matches Ok(b) && b@ == m && final(parcel).pos() == end,
                Err(e) => r matches Err(err) && err@ == e,
            },
    {
        let ghost d = parcel.data();
        let is_set = match parcel.read_i32() {
            Ok(v) => v,
            Err(e) => return Err(e),
        };
        if is_set != 1 {
            return Err(DecodeError::BadPresence(is_set));
        }
        let length = match parcel.read_i32() {
            Ok(v) => v,
            Err(e) => return Err(e),
        };
        if length < 0 {
            return Err(DecodeError::NegativeLength(length));
        }
        if length == 0 {
            return Ok(Bundle::new());
        }
        let _magic = match parcel.read_i32() {
            Ok(v) => v,
            Err(e) => return Err(e),
        };
        let count = match parcel.read_i32() {
            Ok(v) => v,
            Err(e) => return Err(e),
        };
        if count < 0 {
            return Err(DecodeError::BadCount(count));
        }
        let ghost pstart = parcel.pos();
        let mut bundle = Bundle::new();
        let mut i: i32 = 0;
        while i < count
            invariant
                parcel.wf(),
                parcel.data() == d,
                0 <= i <= count,
                spec_read_entries(d, pstart, i as nat, creators@) == Ok::<
                    (Map<Seq<char>, ObjectV>, int),
                    DecodeErrorV,
                >((bundle@, parcel.pos())),
            decreases count - i,
        {
            let key = match parcel_read_string(parcel) {
                Ok(s) => s,
                Err(e) => {
                    proof {
                        lemma_entries_err(d, pstart, (i + 1) as nat, count as nat, creators@);
                    }
                    return Err(e);
                },
            };
            let value = match parcel_read_value_type(parcel, creators) {
                Ok(o) => o,
                Err(e) => {
                    proof {
                        lemma_entries_err(d, pstart, (i + 1) as nat, count as nat, creators@);
                    }
                    return Err(e);
                },
            };
            bundle.insert(key, value);
            i = i + 1;
        }
        Ok(bundle)
    }
}

/// Law: for every tag in the length-prefixed subset, a successful decode
/// ends exactly at the payload start plus the declared length. A buffer
/// whose declared length does not match what the payload occupies never
/// decodes successfully: it fails with a length mismatch instead of
/// silently resynchronizing.
pub proof fn lemma_length_prefix_consumed(
    d: Seq<u8>,
    p: int,
    reg: Map<Seq<char>, ParcelableCreator>,
)
    requires
        can_read(d, p, 4),
        spec_is_length_prefixed(spec_i32_at(d, p)),
    ensures
        spec_read_value_type(d, p, reg) matches Ok(pair) ==> pair.1 == p + 8 + spec_i32_at(
            d,
            p + 4,
        ),
{
}

/// Law: a container whose presence flag is 1 and whose total length is 0
/// decodes to the empty container and consumes exactly the two header
/// words. The magic word, the entry count, and any trailing bytes are never
/// read, whatever they hold.
pub proof fn lemma_empty_container(d: Seq<u8>, p: int, reg: Map<Seq<char>, ParcelableCreator>)
    requires
        can_read(d, p, 8),
        spec_i32_at(d, p) == 1,
        spec_i32_at(d, p + 4) == 0,
    ensures
        spec_deserialize_bundle(d, p, reg) == Ok::<(Map<Seq<char>, ObjectV>, int), DecodeErrorV>(
            (Map::empty(), p + 8),
        ),
{
}

/// Law: a container whose presence flag is 1, whose total length is
/// positive, and whose entry count is 0 decodes to the empty container
/// after its four header words, whatever its magic word holds.
pub proof fn lemma_empty_container_zero_count(
    d: Seq<u8>,
    p: int,
    reg: Map<Seq<char>, ParcelableCreator>,
)
    requires
        can_read(d, p, 16),
        spec_i32_at(d, p) == 1,
        spec_i32_at(d, p + 4) > 0,
        spec_i32_at(d, p + 12) == 0,
    ensures
        spec_deserialize_bundle(d, p, reg) == Ok::<(Map<Seq<char>, ObjectV>, int), DecodeErrorV>(
            (Map::empty(), p + 16),
        ),
{
}

/// Law: a boolean-array whose count is negative, or larger than the number
/// of whole words left in the buffer, decodes to Null right after its count
/// word: nothing past the count is ever read.
pub proof fn lemma_boolean_array_guard(d: Seq<u8>, p: int, reg: Map<Seq<char>, ParcelableCreator>)
    requires
        can_read(d, p, 4),
        !(0 <= spec_i32_at(d, p) && spec_i32_at(d, p) <= (d.len() - (p + 4)) / 4),
    ensures
        spec_read_value(d, p, VAL_BOOLEANARRAY, reg) == Ok::<(ObjectV, int), DecodeErrorV>(
            (ObjectV::Null, p + 4),
        ),
{
}

/// Law: when the record at index `j` of a record array names a type with no
/// registered creator, decoding any count beyond `j` fails with exactly
/// that missing name: no partial record sequence is ever produced.
pub proof fn lemma_unregistered_name_fails(
    d: Seq<u8>,
    p: int,
    j: nat,
    k: nat,
    reg: Map<Seq<char>, ParcelableCreator>,
    q: int,
    name: Seq<char>,
)
    requires
        j < k,
        spec_read_records(d, p, j, reg) matches Ok(pre) && pre.1 == q,
        spec_read_plain_string(d, q) matches Ok(ns) && ns.0 == name,
        !reg.contains_key(name),
    ensures
        spec_read_records(d, p, k, reg) == Err::<(Seq<ParcelableInstanceV>, int), DecodeErrorV>(
            DecodeErrorV::NameNotFound(name),
        ),
{
    lemma_records_err(d, p, (j + 1) as nat, k, reg);
}

/// The exact byte run that carries the text bytes `b` as a String8 field:
/// the length word, the bytes themselves, and a zero run holding the NUL
/// terminator plus padding up to the next word boundary.
pub open spec fn spec_string8_encoding(b: Seq<u8>) -> Seq<u8> {
    spec_u32_to_le_bytes(b.len() as u32) + b + Seq::new(
        (pad4(b.len() as int + 1) - b.len()) as nat,
        |i: int| 0u8,
    )
}

/// Law: decoding a String8 encoding of any valid UTF-8 text, whatever
/// follows it in the buffer, recovers exactly that text, and consumes
/// exactly `4 + 4 * ceil((len + 1) / 4)` bytes.
pub proof fn lemma_string8_round_trip(b: Seq<u8>, rest: Seq<u8>)
    requires
        valid_utf8(b),
        b.len() + 1 <= u32::MAX,
    ensures
        spec_read_string8(spec_string8_encoding(b) + rest, 0) == Ok::<
            (Seq<char>, int),
            DecodeErrorV,
        >((decode_utf8(b), 4 + pad4(b.len() as int + 1))),
{
    lemma_auto_spec_u32_to_from_le_bytes();
    let d = spec_string8_encoding(b) + rest;
    let len = b.len() as int;
    assert(d.subrange(0, 4) =~= spec_u32_to_le_bytes(b.len() as u32));
    assert(spec_u32_at(d, 0) == b.len() as u32);
    assert(d.subrange(4, 4 + len) =~= b);
    assert(d[4 + len] == 0);
    assert(can_read(d, 4, pad4(len + 1)));
}

} // verus!
