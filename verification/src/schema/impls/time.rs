//! Spans of time, and points in time as spans since the epoch.
use crate::config::ConfigCore;
use crate::error::{invalid_value, ReadError, ReadResult, WriteError, WriteResult};
use crate::io::{Reader, Writer};
use crate::model::{lemma_wrote_fail, Emit, Fault, Input};
use crate::schema::impls::ints::{int_meta, type_meta_of_int};
use crate::schema::impls::tuple::{
    lemma_pair_dec, lemma_pair_emit, lemma_pair_round_trip, pair_dec, pair_emit, pair_meta,
    size_of_pair, type_meta_of_pair, write_pair,
};
use crate::schema::int_encoding::IntWidth;
use crate::schema::{Model, RoundTrip, SchemaRead, SchemaWrite, TypeMeta};
use vstd::prelude::*;

verus! {

broadcast use {
    crate::model::lemma_follows_transitive,
    crate::model::lemma_follows_reflexive,
};

/// The number of nanoseconds in a second.
pub const NANOS_PER_SEC: u32 = 1_000_000_000;

/// The last second after the epoch for which there is a [`SystemTime`] to be read.
pub const LAST_SECOND: u64 = 0x7fff_ffff_ffff_ffff;

/// A span of time: whole seconds, and less than a second on top.
#[derive(Debug, PartialEq, Eq)]
pub struct Duration {
    secs: u64,
    nanos: u32,
}

impl Duration {
    #[verifier::type_invariant]
    spec fn wf(self) -> bool {
        self.nanos < NANOS_PER_SEC
    }

    /// The whole seconds.
    pub closed spec fn secs(self) -> u64 {
        self.secs
    }

    /// The nanoseconds beyond the whole seconds.
    pub closed spec fn nanos(self) -> u32 {
        self.nanos
    }

    /// `secs` seconds and `nanos` nanoseconds, of which a billion make up a second.
    pub fn new(secs: u64, nanos: u32) -> (d: Duration)
        requires
            secs + nanos / NANOS_PER_SEC <= u64::MAX,
        ensures
            d.secs() == secs + nanos / NANOS_PER_SEC,
            d.nanos() == nanos % NANOS_PER_SEC,
    {
        Duration { secs: secs + (nanos / NANOS_PER_SEC) as u64, nanos: nanos % NANOS_PER_SEC }
    }

    /// The whole seconds.
    pub fn as_secs(&self) -> (secs: u64)
        ensures
            secs == self.secs(),
    {
        self.secs
    }

    /// The nanoseconds beyond the whole seconds.
    pub fn subsec_nanos(&self) -> (nanos: u32)
        ensures
            nanos == self.nanos(),
            nanos < NANOS_PER_SEC,
    {
        proof {
            use_type_invariant(self);
        }
        self.nanos
    }
}

/// What is known of the layout of a span of time.
pub open spec fn duration_meta<C: ConfigCore>() -> TypeMeta {
    pair_meta(int_meta::<C>(IntWidth::W64), int_meta::<C>(IntWidth::W32))
}

/// See [`duration_meta`].
fn type_meta_of_duration<C: ConfigCore>() -> (m: TypeMeta)
    ensures
        m == duration_meta::<C>(),
{
    type_meta_of_pair(
        type_meta_of_int::<C>(IntWidth::W64),
        type_meta_of_int::<C>(IntWidth::W32),
    )
}

/// Writing a span of time.
pub open spec fn duration_emit<C: ConfigCore>(d: Duration) -> Emit {
    pair_emit::<u64, u32, C>(&d.secs(), &d.nanos())
}

impl Model for Duration {
    /// The seconds, and the nanoseconds beyond them.
    type Val = (u64, u32);
}

/// A span of time is its seconds and the nanoseconds beyond them.
impl<C: ConfigCore> SchemaWrite<C> for Duration {
    type Src = Duration;

    open spec fn src_val(src: &Duration) -> (u64, u32) {
        (src.secs(), src.nanos())
    }

    open spec fn emit(src: &Duration) -> Emit {
        duration_emit::<C>(*src)
    }

    open spec fn size_err(src: &Duration) -> Option<WriteError> {
        None
    }

    open spec fn write_meta() -> TypeMeta {
        duration_meta::<C>()
    }

    open spec fn write_lawful() -> bool {
        true
    }

    proof fn lemma_emit(src: &Duration) {
        lemma_pair_emit::<u64, u32, C>(&src.secs(), &src.nanos());
    }

    fn type_meta() -> (m: TypeMeta) {
        type_meta_of_duration::<C>()
    }

    fn size_of(src: &Duration) -> (r: WriteResult<usize>) {
        if let TypeMeta::Static { size, .. } = type_meta_of_duration::<C>() {
            proof {
                lemma_pair_emit::<u64, u32, C>(&src.secs(), &src.nanos());
            }
            return Ok(size);
        }
        size_of_pair::<u64, u32, C>(&src.secs, &src.nanos)
    }

    fn write<W: Writer>(writer: &mut W, src: &Duration) -> (r: WriteResult<()>) {
        write_pair::<u64, u32, C, W>(writer, &src.secs, &src.nanos)
    }
}

/// A span of time that was read, with a billion nanoseconds counted as a second.
pub open spec fn duration_of(secs: u64, nanos: u32) -> Result<(u64, u32), ReadError> {
    if secs + nanos / NANOS_PER_SEC <= u64::MAX {
        Ok(((secs + nanos / NANOS_PER_SEC) as u64, nanos % NANOS_PER_SEC))
    } else {
        Err(ReadError::InvalidValue("Duration overflow"))
    }
}

/// Reading a span of time.
pub open spec fn duration_dec<C: ConfigCore>(inp: Input) -> Result<((u64, u32), Input), Fault> {
    match pair_dec::<u64, u32, C>(inp) {
        Ok(((secs, nanos), rest)) => match duration_of(secs, nanos) {
            Ok(d) => Ok((d, rest)),
            Err(e) => Err(rest.fault(e)),
        },
        Err(e) => Err(e),
    }
}

/// Reads a span of time.
fn read_duration<'de, C: ConfigCore, R: Reader<'de>>(reader: &mut R) -> (r: ReadResult<Duration>)
    ensures
        final(reader).input().follows(old(reader).input()),
        match duration_dec::<C>(old(reader).input()) {
            Ok((v, rest)) => {
                &&& r is Ok
                &&& (r->Ok_0.secs(), r->Ok_0.nanos()) == v
                &&& final(reader).input() == rest
            },
            Err(f) => r is Err && r->Err_0 == f.err && final(reader).input() == f.left,
        },
{
    let secs: u64 = <u64 as SchemaRead<'de, C>>::get(reader)?;
    let nanos: u32 = <u32 as SchemaRead<'de, C>>::get(reader)?;
    match secs.checked_add((nanos / NANOS_PER_SEC) as u64) {
        Some(_) => Ok(Duration::new(secs, nanos)),
        None => Err(invalid_value("Duration overflow")),
    }
}

impl<'de, C: ConfigCore> SchemaRead<'de, C> for Duration {
    type Dst = Duration;

    open spec fn dst_val(dst: &Duration) -> (u64, u32) {
        (dst.secs(), dst.nanos())
    }

    open spec fn dec(inp: Input) -> Result<((u64, u32), Input), Fault> {
        duration_dec::<C>(inp)
    }

    open spec fn read_meta() -> TypeMeta {
        duration_meta::<C>()
    }

    open spec fn read_lawful() -> bool {
        true
    }

    proof fn lemma_dec(inp: Input) {
        lemma_pair_dec::<u64, u32, C>(inp);
    }

    fn type_meta() -> (m: TypeMeta) {
        type_meta_of_duration::<C>()
    }

    fn get<R: Reader<'de>>(reader: &mut R) -> (r: ReadResult<Duration>) {
        read_duration::<C, R>(reader)
    }
}

impl<'de, C: ConfigCore> RoundTrip<'de, C> for Duration {
    open spec fn round_trips() -> bool {
        true
    }

    open spec fn src_valid(src: &Duration) -> bool {
        src.nanos() < NANOS_PER_SEC
    }

    open spec fn needs_backing() -> bool {
        false
    }

    proof fn lemma_round_trip(src: &Duration, rest: Input) {
        lemma_pair_round_trip::<u64, u32, C>(&src.secs(), &src.nanos(), rest);
    }
}

/// A point in time, as the span from the epoch to it.
#[derive(Debug, PartialEq, Eq)]
pub struct SystemTime {
    /// How long after the epoch, or `None` if it was before.
    pub since_epoch: Option<Duration>,
}

impl Model for SystemTime {
    /// The span from the epoch, unless that lies ahead.
    type Val = Option<(u64, u32)>;
}

/// The error of a time that lies before the epoch.
pub open spec fn before_epoch() -> WriteError {
    WriteError::Custom("SystemTime before UNIX_EPOCH")
}

/// A point in time is the span from the epoch to it. One before the epoch cannot be written.
impl<C: ConfigCore> SchemaWrite<C> for SystemTime {
    type Src = SystemTime;

    open spec fn src_val(src: &SystemTime) -> Option<(u64, u32)> {
        match src.since_epoch {
            Some(d) => Some((d.secs(), d.nanos())),
            None => None,
        }
    }

    open spec fn emit(src: &SystemTime) -> Emit {
        match src.since_epoch {
            Some(d) => duration_emit::<C>(d),
            None => Emit::fail(
                before_epoch(),
                match duration_meta::<C>() {
                    TypeMeta::Static { size, .. } => size as nat,
                    TypeMeta::Dynamic => 0,
                },
            ),
        }
    }

    open spec fn size_err(src: &SystemTime) -> Option<WriteError> {
        match src.since_epoch {
            Some(d) => None,
            None => Some(before_epoch()),
        }
    }

    open spec fn write_meta() -> TypeMeta {
        duration_meta::<C>()
    }

    open spec fn write_lawful() -> bool {
        true
    }

    proof fn lemma_emit(src: &SystemTime) {
        if let Some(d) = src.since_epoch {
            lemma_pair_emit::<u64, u32, C>(&d.secs(), &d.nanos());
        }
    }

    fn type_meta() -> (m: TypeMeta) {
        type_meta_of_duration::<C>()
    }

    fn size_of(src: &SystemTime) -> (r: WriteResult<usize>) {
        match &src.since_epoch {
            Some(d) => <Duration as SchemaWrite<C>>::size_of(d),
            None => Err(WriteError::Custom("SystemTime before UNIX_EPOCH")),
        }
    }

    fn write<W: Writer>(writer: &mut W, src: &SystemTime) -> (r: WriteResult<()>) {
        match &src.since_epoch {
            Some(d) => <Duration as SchemaWrite<C>>::write(writer, d),
            None => {
                proof {
                    lemma_wrote_fail(
                        before_epoch(),
                        <SystemTime as SchemaWrite<C>>::emit(src).weight,
                        old(writer).output(),
                    );
                }
                Err(WriteError::Custom("SystemTime before UNIX_EPOCH"))
            },
        }
    }
}

/// Reading a point in time: a span, unless no time is that late.
pub open spec fn system_time_dec<C: ConfigCore>(inp: Input) -> Result<
    (Option<(u64, u32)>, Input),
    Fault,
> {
    match duration_dec::<C>(inp) {
        Ok((d, rest)) => if d.0 > LAST_SECOND {
            Err(rest.fault(ReadError::InvalidValue("SystemTime overflow")))
        } else {
            Ok((Some(d), rest))
        },
        Err(e) => Err(e),
    }
}

/// A point in time is read as the span from the epoch to it, up to [`LAST_SECOND`] on every
/// machine. See [`read_system_time`] for a read that asks the clock.
impl<'de, C: ConfigCore> SchemaRead<'de, C> for SystemTime {
    type Dst = SystemTime;

    open spec fn dst_val(dst: &SystemTime) -> Option<(u64, u32)> {
        match dst.since_epoch {
            Some(d) => Some((d.secs(), d.nanos())),
            None => None,
        }
    }

    open spec fn dec(inp: Input) -> Result<(Option<(u64, u32)>, Input), Fault> {
        system_time_dec::<C>(inp)
    }

    open spec fn read_meta() -> TypeMeta {
        duration_meta::<C>()
    }

    open spec fn read_lawful() -> bool {
        true
    }

    proof fn lemma_dec(inp: Input) {
        lemma_pair_dec::<u64, u32, C>(inp);
    }

    fn type_meta() -> (m: TypeMeta) {
        type_meta_of_duration::<C>()
    }

    fn get<R: Reader<'de>>(reader: &mut R) -> (r: ReadResult<SystemTime>) {
        let d = read_duration::<C, R>(reader)?;
        let sum = if d.secs > LAST_SECOND {
            None
        } else {
            Some(SystemTime { since_epoch: Some(d) })
        };
        system_time_at(sum)
    }
}

impl<'de, C: ConfigCore> RoundTrip<'de, C> for SystemTime {
    open spec fn round_trips() -> bool {
        true
    }

    open spec fn src_valid(src: &SystemTime) -> bool {
        src.since_epoch matches Some(d) ==> d.nanos() < NANOS_PER_SEC && d.secs() <= LAST_SECOND
    }

    open spec fn needs_backing() -> bool {
        false
    }

    proof fn lemma_round_trip(src: &SystemTime, rest: Input) {
        let d = src.since_epoch->Some_0;
        lemma_pair_round_trip::<u64, u32, C>(&d.secs(), &d.nanos(), rest);
    }
}

/// The time that comes of adding a span that was read to the epoch, unless no time is that late.
pub fn system_time_at<T>(sum: Option<T>) -> (r: ReadResult<T>)
    ensures
        match sum {
            Some(t) => r == Ok::<T, ReadError>(t),
            None => r == Err::<T, ReadError>(ReadError::InvalidValue("SystemTime overflow")),
        },
{
    match sum {
        Some(t) => Ok(t),
        None => Err(invalid_value("SystemTime overflow")),
    }
}

/// A point in time of the clock of this machine.
#[verifier::external_type_specification]
#[verifier::external_body]
pub struct ExSystemTime(std::time::SystemTime);

/// `std::time::SystemTime::checked_add`, on the epoch: the time so long after it, if the clock of
/// this machine reaches that far. The epoch itself is always there. How far the clock reaches
/// beyond it depends on the machine, and nothing is claimed of that, nor of which time comes back.
#[verifier::external_body]
fn add_to_epoch(secs: u64, nanos: u32) -> (sum: Option<std::time::SystemTime>)
    requires
        nanos < NANOS_PER_SEC,
    ensures
        secs == 0 && nanos == 0 ==> sum is Some,
{
    std::time::UNIX_EPOCH.checked_add(std::time::Duration::new(secs, nanos))
}

/// Reads a point in time, and fails if the clock of this machine does not reach that far.
pub fn read_system_time<'de, C: ConfigCore, R: Reader<'de>>(reader: &mut R) -> (r: ReadResult<
    SystemTime,
>)
    ensures
        final(reader).input().follows(old(reader).input()),
        match duration_dec::<C>(old(reader).input()) {
            Ok((v, rest)) => {
                &&& final(reader).input() == rest
                &&& r matches Ok(t) ==> <SystemTime as SchemaRead<'de, C>>::dst_val(&t) == Some(v)
                &&& r matches Err(e) ==> e == ReadError::InvalidValue("SystemTime overflow")
                &&& v == (0u64, 0u32) ==> r is Ok
            },
            Err(f) => r is Err && r->Err_0 == f.err && final(reader).input() == f.left,
        },
{
    let d = read_duration::<C, R>(reader)?;
    let sum = match add_to_epoch(d.as_secs(), d.subsec_nanos()) {
        Some(_) => Some(SystemTime { since_epoch: Some(d) }),
        None => None,
    };
    system_time_at(sum)
}

} // verus!
