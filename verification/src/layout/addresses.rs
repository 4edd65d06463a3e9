//! What the bytes of network addresses and of times are.
use crate::config::{Config, ConfigCore};
use crate::error::{ReadError, WriteError};
use crate::model::{Fault, Input};
use crate::schema::impls::addr::{
    IpAddr, Ipv4Addr, Ipv6Addr, SocketAddr, SocketAddrV4, SocketAddrV6,
};
use crate::schema::impls::time::{Duration, SystemTime};
use crate::schema::tag_encoding::TagEncoding;
use crate::schema::{Model, RoundTrip, SchemaRead, SchemaWrite, TypeMeta};
use vstd::prelude::*;

verus! {

/// The bytes of an address are its four bytes, in order, whatever the byte order.
pub proof fn law_ipv4addr_is_its_bytes<'de, C: ConfigCore>(v: Ipv4Addr, inp: Input)
    ensures
        <Ipv4Addr as SchemaWrite<C>>::emit(&v).err is None,
        <Ipv4Addr as SchemaWrite<C>>::emit(&v).bytes == v.octets@,
        inp.bytes.len() < 4 ==> <Ipv4Addr as SchemaRead<'de, C>>::dec(inp) == Err::<
            (Seq<u8>, Input),
            Fault,
        >((Fault { err: ReadError::Io(crate::io::ReadError::ReadSizeLimit(4)), left: inp })),
        inp.bytes.len() >= 4 ==> <Ipv4Addr as SchemaRead<'de, C>>::dec(inp) == Ok::<
            (Seq<u8>, Input),
            Fault,
        >(
            (inp.bytes.take(4), Input { bytes: inp.bytes.skip(4), backing: inp.backing }),
        ),
        <Ipv4Addr as SchemaRead<'de, C>>::dst_val(&v) == v.octets@,
        <Ipv4Addr as SchemaWrite<C>>::src_val(&v) == v.octets@,
        <Ipv4Addr as SchemaWrite<C>>::size_err(&v) is None,
        <Ipv4Addr as SchemaWrite<C>>::write_lawful(),
        <Ipv4Addr as SchemaRead<'de, C>>::read_lawful(),
        <Ipv4Addr as RoundTrip<'de, C>>::round_trips(),
        <Ipv4Addr as RoundTrip<'de, C>>::src_valid(&v),
        !<Ipv4Addr as RoundTrip<'de, C>>::needs_backing(),
        <Ipv4Addr as SchemaWrite<C>>::write_meta()
            == (TypeMeta::Static { size: 4, zero_copy: false }),
        <Ipv4Addr as SchemaRead<'de, C>>::read_meta()
            == (TypeMeta::Static { size: 4, zero_copy: false }),
{
}

/// The bytes of an address are its sixteen bytes, in order, whatever the byte order.
pub proof fn law_ipv6addr_is_its_bytes<'de, C: ConfigCore>(v: Ipv6Addr, inp: Input)
    ensures
        <Ipv6Addr as SchemaWrite<C>>::emit(&v).err is None,
        <Ipv6Addr as SchemaWrite<C>>::emit(&v).bytes == v.octets@,
        inp.bytes.len() < 16 ==> <Ipv6Addr as SchemaRead<'de, C>>::dec(inp) == Err::<
            (Seq<u8>, Input),
            Fault,
        >((Fault { err: ReadError::Io(crate::io::ReadError::ReadSizeLimit(16)), left: inp })),
        inp.bytes.len() >= 16 ==> <Ipv6Addr as SchemaRead<'de, C>>::dec(inp) == Ok::<
            (Seq<u8>, Input),
            Fault,
        >(
            (inp.bytes.take(16), Input { bytes: inp.bytes.skip(16), backing: inp.backing }),
        ),
        <Ipv6Addr as SchemaRead<'de, C>>::dst_val(&v) == v.octets@,
        <Ipv6Addr as SchemaWrite<C>>::src_val(&v) == v.octets@,
        <Ipv6Addr as SchemaWrite<C>>::size_err(&v) is None,
        <Ipv6Addr as SchemaWrite<C>>::write_lawful(),
        <Ipv6Addr as SchemaRead<'de, C>>::read_lawful(),
        <Ipv6Addr as RoundTrip<'de, C>>::round_trips(),
        <Ipv6Addr as RoundTrip<'de, C>>::src_valid(&v),
        !<Ipv6Addr as RoundTrip<'de, C>>::needs_backing(),
        <Ipv6Addr as SchemaWrite<C>>::write_meta()
            == (TypeMeta::Static { size: 16, zero_copy: false }),
        <Ipv6Addr as SchemaRead<'de, C>>::read_meta()
            == (TypeMeta::Static { size: 16, zero_copy: false }),
{
}

/// A socket address begins with the four bytes of its address, and what `u16` is laid out
/// as for its port comes behind them. It is read in that order.
pub proof fn law_socketaddrv4_is_address_and_port<'de, C: ConfigCore>(v: SocketAddrV4, inp: Input)
    ensures
        <SocketAddrV4 as SchemaWrite<C>>::emit(&v).err is None,
        <SocketAddrV4 as SchemaWrite<C>>::emit(&v).bytes.take(4) == v.ip.octets@,
        <SocketAddrV4 as SchemaWrite<C>>::emit(&v).bytes.skip(4) == <u16 as SchemaWrite<C>>::emit(
            &v.port,
        ).bytes,
        inp.bytes.len() < 4 ==> <SocketAddrV4 as SchemaRead<'de, C>>::dec(inp) == Err::<
            ((Seq<u8>, u16), Input),
            Fault,
        >((Fault { err: ReadError::Io(crate::io::ReadError::ReadSizeLimit(4)), left: inp })),
        inp.bytes.len() >= 4 ==> <SocketAddrV4 as SchemaRead<'de, C>>::dec(inp)
            == match <u16 as SchemaRead<'de, C>>::dec(
            Input { bytes: inp.bytes.skip(4), backing: inp.backing },
        ) {
            Ok((port, rest)) => Ok::<((Seq<u8>, u16), Input), Fault>(
                ((inp.bytes.take(4), port), rest),
            ),
            Err(f) => Err(f),
        },
        <SocketAddrV4 as SchemaRead<'de, C>>::dst_val(&v) == (v.ip.octets@, v.port),
        <SocketAddrV4 as SchemaWrite<C>>::src_val(&v) == (v.ip.octets@, v.port),
        <SocketAddrV4 as SchemaWrite<C>>::size_err(&v) is None,
        <SocketAddrV4 as SchemaWrite<C>>::write_lawful(),
        <SocketAddrV4 as SchemaRead<'de, C>>::read_lawful(),
        <SocketAddrV4 as RoundTrip<'de, C>>::round_trips(),
        <SocketAddrV4 as RoundTrip<'de, C>>::src_valid(&v),
        !<SocketAddrV4 as RoundTrip<'de, C>>::needs_backing(),
        <SocketAddrV4 as SchemaWrite<C>>::write_meta()
            == match <u16 as SchemaWrite<C>>::write_meta() {
            TypeMeta::Static { size, .. } => TypeMeta::Static {
                size: (size + 4) as usize,
                zero_copy: false,
            },
            TypeMeta::Dynamic => TypeMeta::Dynamic,
        },
        <SocketAddrV4 as SchemaRead<'de, C>>::read_meta()
            == <SocketAddrV4 as SchemaWrite<C>>::write_meta(),
{
    let head = v.ip.octets@;
    let tail = <u16 as SchemaWrite<C>>::emit(&v.port).bytes;
    assert(head.len() == 4);
    assert((head + tail).take(4) =~= head);
    assert((head + tail).skip(4) =~= tail);
}

/// A socket address begins with the sixteen bytes of its address, and what `u16` is laid out
/// as for its port comes behind them. It is read in that order. The flow information and
/// the scope are not among the bytes, and are zero when read.
pub proof fn law_socketaddrv6_is_address_and_port<'de, C: ConfigCore>(v: SocketAddrV6, inp: Input)
    ensures
        <SocketAddrV6 as SchemaWrite<C>>::emit(&v).err is None,
        <SocketAddrV6 as SchemaWrite<C>>::emit(&v).bytes.take(16) == v.ip.octets@,
        <SocketAddrV6 as SchemaWrite<C>>::emit(&v).bytes.skip(16) == <u16 as SchemaWrite<C>>::emit(
            &v.port,
        ).bytes,
        inp.bytes.len() < 16 ==> <SocketAddrV6 as SchemaRead<'de, C>>::dec(inp) == Err::<
            ((Seq<u8>, u16, u32, u32), Input),
            Fault,
        >((Fault { err: ReadError::Io(crate::io::ReadError::ReadSizeLimit(16)), left: inp })),
        inp.bytes.len() >= 16 ==> <SocketAddrV6 as SchemaRead<'de, C>>::dec(inp)
            == match <u16 as SchemaRead<'de, C>>::dec(
            Input { bytes: inp.bytes.skip(16), backing: inp.backing },
        ) {
            Ok((port, rest)) => Ok::<((Seq<u8>, u16, u32, u32), Input), Fault>(
                ((inp.bytes.take(16), port, 0u32, 0u32), rest),
            ),
            Err(f) => Err(f),
        },
        <SocketAddrV6 as SchemaRead<'de, C>>::dst_val(&v)
            == (v.ip.octets@, v.port, v.flowinfo, v.scope_id),
        <SocketAddrV6 as SchemaWrite<C>>::src_val(&v)
            == (v.ip.octets@, v.port, v.flowinfo, v.scope_id),
        <SocketAddrV6 as SchemaWrite<C>>::size_err(&v) is None,
        <SocketAddrV6 as SchemaWrite<C>>::write_lawful(),
        <SocketAddrV6 as SchemaRead<'de, C>>::read_lawful(),
        <SocketAddrV6 as RoundTrip<'de, C>>::round_trips(),
        <SocketAddrV6 as RoundTrip<'de, C>>::src_valid(&v) == (v.flowinfo == 0 && v.scope_id == 0),
        !<SocketAddrV6 as RoundTrip<'de, C>>::needs_backing(),
        <SocketAddrV6 as SchemaWrite<C>>::write_meta()
            == match <u16 as SchemaWrite<C>>::write_meta() {
            TypeMeta::Static { size, .. } => TypeMeta::Static {
                size: (size + 16) as usize,
                zero_copy: false,
            },
            TypeMeta::Dynamic => TypeMeta::Dynamic,
        },
        <SocketAddrV6 as SchemaRead<'de, C>>::read_meta()
            == <SocketAddrV6 as SchemaWrite<C>>::write_meta(),
{
    let head = v.ip.octets@;
    let tail = <u16 as SchemaWrite<C>>::emit(&v.port).bytes;
    assert(head.len() == 16);
    assert((head + tail).take(16) =~= head);
    assert((head + tail).skip(16) =~= tail);
}

/// An address of either kind is the tag `0` and the one, or the tag `1` and the other. Any other
/// tag is an error.
pub proof fn law_ipaddr_is_tagged<'de, C: Config>(v: IpAddr, inp: Input)
    ensures
        v matches IpAddr::V4(a) ==> {
            let e = <IpAddr as SchemaWrite<C>>::emit(&v);
            &&& e.bytes == match C::TagEncoding::tag_emit(0).err {
                Some(_) => C::TagEncoding::tag_emit(0).bytes,
                None => C::TagEncoding::tag_emit(0).bytes
                    + <Ipv4Addr as SchemaWrite<C>>::emit(&a).bytes,
            }
            &&& e.err == C::TagEncoding::tag_emit(0).err
            &&& <IpAddr as SchemaWrite<C>>::size_err(&v) == C::TagEncoding::tag_emit(0).err
            &&& <IpAddr as SchemaWrite<C>>::src_val(&v) == Ok::<
                <Ipv4Addr as Model>::Val,
                <Ipv6Addr as Model>::Val,
            >(<Ipv4Addr as SchemaWrite<C>>::src_val(&a))
            &&& <IpAddr as SchemaRead<'de, C>>::dst_val(&v)
                == <IpAddr as SchemaWrite<C>>::src_val(&v)
            &&& <IpAddr as RoundTrip<'de, C>>::src_valid(&v)
                == <Ipv4Addr as RoundTrip<'de, C>>::src_valid(&a)
        },
        v matches IpAddr::V6(a) ==> {
            let e = <IpAddr as SchemaWrite<C>>::emit(&v);
            &&& e.bytes == match C::TagEncoding::tag_emit(1).err {
                Some(_) => C::TagEncoding::tag_emit(1).bytes,
                None => C::TagEncoding::tag_emit(1).bytes
                    + <Ipv6Addr as SchemaWrite<C>>::emit(&a).bytes,
            }
            &&& e.err == C::TagEncoding::tag_emit(1).err
            &&& <IpAddr as SchemaWrite<C>>::size_err(&v) == C::TagEncoding::tag_emit(1).err
            &&& <IpAddr as SchemaWrite<C>>::src_val(&v) == Err::<
                <Ipv4Addr as Model>::Val,
                <Ipv6Addr as Model>::Val,
            >(<Ipv6Addr as SchemaWrite<C>>::src_val(&a))
            &&& <IpAddr as SchemaRead<'de, C>>::dst_val(&v)
                == <IpAddr as SchemaWrite<C>>::src_val(&v)
            &&& <IpAddr as RoundTrip<'de, C>>::src_valid(&v)
                == <Ipv6Addr as RoundTrip<'de, C>>::src_valid(&a)
        },
        <IpAddr as SchemaRead<'de, C>>::dec(inp) == match C::TagEncoding::tag_dec(inp) {
            Ok((tag, mid)) => if tag == 0 {
                match <Ipv4Addr as SchemaRead<'de, C>>::dec(mid) {
                    Ok((a, rest)) => Ok::<
                        (Result<<Ipv4Addr as Model>::Val, <Ipv6Addr as Model>::Val>, Input),
                            Fault>((Ok(a), rest)),
                    Err(f) => Err(f),
                }
            } else if tag == 1 {
                match <Ipv6Addr as SchemaRead<'de, C>>::dec(mid) {
                    Ok((a, rest)) => Ok::<
                        (Result<<Ipv4Addr as Model>::Val, <Ipv6Addr as Model>::Val>, Input),
                            Fault>((Err(a), rest)),
                    Err(f) => Err(f),
                }
            } else {
                Err((Fault { err: ReadError::InvalidTagEncoding(tag as usize), left: mid }))
            },
            Err(f) => Err(f),
        },
        <IpAddr as SchemaWrite<C>>::write_lawful(),
        <IpAddr as SchemaRead<'de, C>>::read_lawful(),
        <IpAddr as RoundTrip<'de, C>>::round_trips(),
        !<IpAddr as RoundTrip<'de, C>>::needs_backing(),
        <IpAddr as SchemaWrite<C>>::write_meta() is Dynamic,
        <IpAddr as SchemaRead<'de, C>>::read_meta() is Dynamic,
{
}

/// An address of either kind is the tag `0` and the one, or the tag `1` and the other. Any other
/// tag is an error.
pub proof fn law_socketaddr_is_tagged<'de, C: Config>(v: SocketAddr, inp: Input)
    ensures
        v matches SocketAddr::V4(a) ==> {
            let e = <SocketAddr as SchemaWrite<C>>::emit(&v);
            &&& e.bytes == match C::TagEncoding::tag_emit(0).err {
                Some(_) => C::TagEncoding::tag_emit(0).bytes,
                None => C::TagEncoding::tag_emit(0).bytes
                    + <SocketAddrV4 as SchemaWrite<C>>::emit(&a).bytes,
            }
            &&& e.err == C::TagEncoding::tag_emit(0).err
            &&& <SocketAddr as SchemaWrite<C>>::size_err(&v) == C::TagEncoding::tag_emit(0).err
            &&& <SocketAddr as SchemaWrite<C>>::src_val(&v) == Ok::<
                <SocketAddrV4 as Model>::Val,
                <SocketAddrV6 as Model>::Val,
            >(<SocketAddrV4 as SchemaWrite<C>>::src_val(&a))
            &&& <SocketAddr as SchemaRead<'de, C>>::dst_val(&v)
                == <SocketAddr as SchemaWrite<C>>::src_val(&v)
            &&& <SocketAddr as RoundTrip<'de, C>>::src_valid(&v)
                == <SocketAddrV4 as RoundTrip<'de, C>>::src_valid(&a)
        },
        v matches SocketAddr::V6(a) ==> {
            let e = <SocketAddr as SchemaWrite<C>>::emit(&v);
            &&& e.bytes == match C::TagEncoding::tag_emit(1).err {
                Some(_) => C::TagEncoding::tag_emit(1).bytes,
                None => C::TagEncoding::tag_emit(1).bytes
                    + <SocketAddrV6 as SchemaWrite<C>>::emit(&a).bytes,
            }
            &&& e.err == C::TagEncoding::tag_emit(1).err
            &&& <SocketAddr as SchemaWrite<C>>::size_err(&v) == C::TagEncoding::tag_emit(1).err
            &&& <SocketAddr as SchemaWrite<C>>::src_val(&v) == Err::<
                <SocketAddrV4 as Model>::Val,
                <SocketAddrV6 as Model>::Val,
            >(<SocketAddrV6 as SchemaWrite<C>>::src_val(&a))
            &&& <SocketAddr as SchemaRead<'de, C>>::dst_val(&v)
                == <SocketAddr as SchemaWrite<C>>::src_val(&v)
            &&& <SocketAddr as RoundTrip<'de, C>>::src_valid(&v)
                == <SocketAddrV6 as RoundTrip<'de, C>>::src_valid(&a)
        },
        <SocketAddr as SchemaRead<'de, C>>::dec(inp) == match C::TagEncoding::tag_dec(inp) {
            Ok((tag, mid)) => if tag == 0 {
                match <SocketAddrV4 as SchemaRead<'de, C>>::dec(mid) {
                    Ok((a, rest)) => Ok::<
                        (Result<<SocketAddrV4 as Model>::Val, <SocketAddrV6 as Model>::Val>,
                            Input), Fault>((Ok(a), rest)),
                    Err(f) => Err(f),
                }
            } else if tag == 1 {
                match <SocketAddrV6 as SchemaRead<'de, C>>::dec(mid) {
                    Ok((a, rest)) => Ok::<
                        (Result<<SocketAddrV4 as Model>::Val, <SocketAddrV6 as Model>::Val>,
                            Input), Fault>((Err(a), rest)),
                    Err(f) => Err(f),
                }
            } else {
                Err((Fault { err: ReadError::InvalidTagEncoding(tag as usize), left: mid }))
            },
            Err(f) => Err(f),
        },
        <SocketAddr as SchemaWrite<C>>::write_lawful(),
        <SocketAddr as SchemaRead<'de, C>>::read_lawful(),
        <SocketAddr as RoundTrip<'de, C>>::round_trips(),
        !<SocketAddr as RoundTrip<'de, C>>::needs_backing(),
        <SocketAddr as SchemaWrite<C>>::write_meta() is Dynamic,
        <SocketAddr as SchemaRead<'de, C>>::read_meta() is Dynamic,
{
}

/// A span of time is its seconds as `u64` and then the nanoseconds beyond them as `u32`. When it is
/// read, a billion nanoseconds make up a second, and a span that has more seconds than `u64` holds
/// is an error.
pub proof fn law_duration_is_seconds_and_nanos<'de, C: ConfigCore>(v: Duration, inp: Input)
    ensures
        <Duration as SchemaWrite<C>>::emit(&v).err is None,
        <Duration as SchemaWrite<C>>::emit(&v).bytes == <u64 as SchemaWrite<C>>::emit(
            &v.secs(),
        ).bytes + <u32 as SchemaWrite<C>>::emit(&v.nanos()).bytes,
        <Duration as SchemaRead<'de, C>>::dec(inp) == match <u64 as SchemaRead<'de, C>>::dec(inp) {
            Ok((secs, mid)) => match <u32 as SchemaRead<'de, C>>::dec(mid) {
                Ok((nanos, rest)) => if secs + nanos / 1_000_000_000 <= 0xffff_ffff_ffff_ffff {
                    Ok::<((u64, u32), Input), Fault>(
                        (
                            ((secs + nanos / 1_000_000_000) as u64, nanos % 1_000_000_000),
                            rest,
                        ),
                    )
                } else {
                    Err((Fault { err: ReadError::InvalidValue("Duration overflow"), left: rest }))
                },
                Err(f) => Err(f),
            },
            Err(f) => Err(f),
        },
        <Duration as SchemaRead<'de, C>>::dst_val(&v) == (v.secs(), v.nanos()),
        <Duration as SchemaWrite<C>>::src_val(&v) == (v.secs(), v.nanos()),
        <Duration as SchemaWrite<C>>::size_err(&v) is None,
        <Duration as SchemaWrite<C>>::write_lawful(),
        <Duration as SchemaRead<'de, C>>::read_lawful(),
        <Duration as RoundTrip<'de, C>>::round_trips(),
        <Duration as RoundTrip<'de, C>>::src_valid(&v) == (v.nanos() < 1_000_000_000),
        !<Duration as RoundTrip<'de, C>>::needs_backing(),
        <Duration as SchemaWrite<C>>::write_meta() == match (
            <u64 as SchemaWrite<C>>::write_meta(),
            <u32 as SchemaWrite<C>>::write_meta(),
        ) {
            (
                TypeMeta::Static { size: s, .. },
                TypeMeta::Static { size: n, .. },
            ) => TypeMeta::Static { size: (s + n) as usize, zero_copy: false },
            _ => TypeMeta::Dynamic,
        },
        <Duration as SchemaRead<'de, C>>::read_meta() == <Duration as SchemaWrite<C>>::write_meta(),
{
}

/// A point in time is the span from the epoch to it. One before the epoch cannot be written, and
/// one that lies `2^63` seconds or more after it cannot be read.
pub proof fn law_system_time_is_since_the_epoch<'de, C: ConfigCore>(v: SystemTime, inp: Input)
    ensures
        v.since_epoch matches Some(d) ==> {
            &&& <SystemTime as SchemaWrite<C>>::emit(&v) == <Duration as SchemaWrite<C>>::emit(&d)
            &&& <SystemTime as SchemaWrite<C>>::size_err(&v) is None
            &&& <SystemTime as SchemaWrite<C>>::src_val(&v) == Some((d.secs(), d.nanos()))
            &&& <SystemTime as RoundTrip<'de, C>>::src_valid(&v) == (d.nanos() < 1_000_000_000
                && d.secs() <= 0x7fff_ffff_ffff_ffff)
        },
        v.since_epoch is None ==> {
            let e = WriteError::Custom("SystemTime before UNIX_EPOCH");
            &&& <SystemTime as SchemaWrite<C>>::emit(&v).err == Some(e)
            &&& <SystemTime as SchemaWrite<C>>::emit(&v).bytes.len() == 0
            &&& <SystemTime as SchemaWrite<C>>::size_err(&v) == Some(e)
            &&& <SystemTime as SchemaWrite<C>>::src_val(&v) is None
        },
        <SystemTime as SchemaRead<'de, C>>::dst_val(&v) == <SystemTime as SchemaWrite<C>>::src_val(
            &v,
        ),
        <SystemTime as SchemaRead<'de, C>>::dec(inp) == match <Duration as SchemaRead<
            'de,
            C,
        >>::dec(inp) {
            Ok((d, rest)) => if d.0 <= 0x7fff_ffff_ffff_ffff {
                Ok::<(Option<(u64, u32)>, Input), Fault>((Some(d), rest))
            } else {
                Err((Fault { err: ReadError::InvalidValue("SystemTime overflow"), left: rest }))
            },
            Err(f) => Err(f),
        },
        <SystemTime as SchemaWrite<C>>::write_lawful(),
        <SystemTime as SchemaRead<'de, C>>::read_lawful(),
        <SystemTime as RoundTrip<'de, C>>::round_trips(),
        !<SystemTime as RoundTrip<'de, C>>::needs_backing(),
        <SystemTime as SchemaWrite<C>>::write_meta() == <Duration as SchemaWrite<C>>::write_meta(),
        <SystemTime as SchemaRead<'de, C>>::read_meta()
            == <Duration as SchemaWrite<C>>::write_meta(),
{
}

} // verus!
