//! Network addresses.
use crate::config::{Config, ConfigCore};
use crate::error::{invalid_tag_encoding, ReadError, ReadResult, WriteError, WriteResult};
use crate::io::{write_bytes, Reader, Writer};
use crate::model::{
    lemma_prepend_prepend, lemma_prepend_skip, lemma_skip_follows, Emit, Fault, Input,
};
use crate::schema::impls::array::array_from_vec;
use crate::schema::impls::ints::{int_meta, type_meta_of_int};
use crate::schema::impls::tagged::{
    lemma_tagged_emit, size_of_tagged, tagged_emit, tagged_size_err, write_tagged,
};
use crate::schema::impls::tuple::{
    lemma_pair_dec, lemma_pair_emit, lemma_pair_round_trip, pair_dec, pair_emit, pair_meta,
    size_of_pair, type_meta_of_pair, write_pair,
};
use crate::schema::int_encoding::IntWidth;
use crate::schema::tag_encoding::TagEncoding;
use crate::schema::{Model, RoundTrip, SchemaRead, SchemaWrite, TypeMeta};
use vstd::prelude::*;

verus! {

broadcast use {
    crate::model::lemma_follows_transitive,
    crate::model::lemma_follows_reflexive,
    crate::model::lemma_then_consistent,
};

/// What is known of the layout of an address of `n` bytes.
pub open spec fn octets_meta(n: usize) -> TypeMeta {
    TypeMeta::Static { size: n, zero_copy: false }
}

/// See [`octets_meta`].
fn type_meta_of_octets(n: usize) -> (m: TypeMeta)
    ensures
        m == octets_meta(n),
{
    TypeMeta::Static { size: n, zero_copy: false }
}

/// Reading `n` bytes as they are.
pub open spec fn octets_dec(n: nat, inp: Input) -> Result<(Seq<u8>, Input), Fault> {
    if inp.bytes.len() < n {
        Err(inp.fault(ReadError::Io(crate::io::ReadError::ReadSizeLimit(n as usize))))
    } else {
        Ok((inp.bytes.take(n as int), inp.skip(n as int)))
    }
}

/// Reads `N` bytes as they are.
fn read_octets<'de, R: Reader<'de>, const N: usize>(reader: &mut R) -> (r: ReadResult<[u8; N]>)
    ensures
        final(reader).input().follows(old(reader).input()),
        match octets_dec(N as nat, old(reader).input()) {
            Ok((bytes, rest)) => {
                &&& r is Ok
                &&& (r->Ok_0)@ == bytes
                &&& final(reader).input() == rest
            },
            Err(f) => r is Err && r->Err_0 == f.err && final(reader).input() == f.left,
        },
{
    proof {
        if N <= old(reader).input().bytes.len() {
            lemma_skip_follows(old(reader).input(), N as int);
        }
    }
    match reader.take_vec(N) {
        Ok(bytes) => Ok(array_from_vec(bytes)),
        Err(e) => Err(ReadError::Io(e)),
    }
}

/// An IPv4 address.
#[derive(Debug, Clone, Copy, PartialEq, Eq)]
pub struct Ipv4Addr {
    pub octets: [u8; 4],
}

impl Model for Ipv4Addr {
    type Val = Seq<u8>;
}

/// An IPv4 address is its four bytes.
impl<C: ConfigCore> SchemaWrite<C> for Ipv4Addr {
    type Src = Ipv4Addr;

    open spec fn src_val(src: &Ipv4Addr) -> Seq<u8> {
        src.octets@
    }

    open spec fn emit(src: &Ipv4Addr) -> Emit {
        Emit::done(src.octets@)
    }

    open spec fn size_err(src: &Ipv4Addr) -> Option<WriteError> {
        None
    }

    open spec fn write_meta() -> TypeMeta {
        octets_meta(4)
    }

    open spec fn write_lawful() -> bool {
        true
    }

    proof fn lemma_emit(src: &Ipv4Addr) {
        assert(src.octets@.len() == 4);
    }

    fn type_meta() -> (m: TypeMeta) {
        type_meta_of_octets(4)
    }

    fn size_of(src: &Ipv4Addr) -> (r: WriteResult<usize>) {
        assert(src.octets@.len() == 4);
        Ok(4)
    }

    fn write<W: Writer>(writer: &mut W, src: &Ipv4Addr) -> (r: WriteResult<()>) {
        write_bytes(writer, src.octets.as_slice())
    }
}

impl<'de, C: ConfigCore> SchemaRead<'de, C> for Ipv4Addr {
    type Dst = Ipv4Addr;

    open spec fn dst_val(dst: &Ipv4Addr) -> Seq<u8> {
        dst.octets@
    }

    open spec fn dec(inp: Input) -> Result<(Seq<u8>, Input), Fault> {
        octets_dec(4, inp)
    }

    open spec fn read_meta() -> TypeMeta {
        octets_meta(4)
    }

    open spec fn read_lawful() -> bool {
        true
    }

    proof fn lemma_dec(inp: Input) {
        if inp.bytes.len() >= 4 {
            lemma_skip_follows(inp, 4);
        }
    }

    fn type_meta() -> (m: TypeMeta) {
        type_meta_of_octets(4)
    }

    fn get<R: Reader<'de>>(reader: &mut R) -> (r: ReadResult<Ipv4Addr>) {
        let octets: [u8; 4] = read_octets(reader)?;
        Ok(Ipv4Addr { octets })
    }
}

impl<'de, C: ConfigCore> RoundTrip<'de, C> for Ipv4Addr {
    open spec fn round_trips() -> bool {
        true
    }

    open spec fn src_valid(src: &Ipv4Addr) -> bool {
        true
    }

    open spec fn needs_backing() -> bool {
        false
    }

    proof fn lemma_round_trip(src: &Ipv4Addr, rest: Input) {
        assert(src.octets@.len() == 4);
        lemma_prepend_skip(rest, src.octets@);
    }
}

/// An IPv6 address.
#[derive(Debug, Clone, Copy, PartialEq, Eq)]
pub struct Ipv6Addr {
    pub octets: [u8; 16],
}

impl Model for Ipv6Addr {
    type Val = Seq<u8>;
}

/// An IPv6 address is its sixteen bytes.
impl<C: ConfigCore> SchemaWrite<C> for Ipv6Addr {
    type Src = Ipv6Addr;

    open spec fn src_val(src: &Ipv6Addr) -> Seq<u8> {
        src.octets@
    }

    open spec fn emit(src: &Ipv6Addr) -> Emit {
        Emit::done(src.octets@)
    }

    open spec fn size_err(src: &Ipv6Addr) -> Option<WriteError> {
        None
    }

    open spec fn write_meta() -> TypeMeta {
        octets_meta(16)
    }

    open spec fn write_lawful() -> bool {
        true
    }

    proof fn lemma_emit(src: &Ipv6Addr) {
        assert(src.octets@.len() == 16);
    }

    fn type_meta() -> (m: TypeMeta) {
        type_meta_of_octets(16)
    }

    fn size_of(src: &Ipv6Addr) -> (r: WriteResult<usize>) {
        assert(src.octets@.len() == 16);
        Ok(16)
    }

    fn write<W: Writer>(writer: &mut W, src: &Ipv6Addr) -> (r: WriteResult<()>) {
        write_bytes(writer, src.octets.as_slice())
    }
}

impl<'de, C: ConfigCore> SchemaRead<'de, C> for Ipv6Addr {
    type Dst = Ipv6Addr;

    open spec fn dst_val(dst: &Ipv6Addr) -> Seq<u8> {
        dst.octets@
    }

    open spec fn dec(inp: Input) -> Result<(Seq<u8>, Input), Fault> {
        octets_dec(16, inp)
    }

    open spec fn read_meta() -> TypeMeta {
        octets_meta(16)
    }

    open spec fn read_lawful() -> bool {
        true
    }

    proof fn lemma_dec(inp: Input) {
        if inp.bytes.len() >= 16 {
            lemma_skip_follows(inp, 16);
        }
    }

    fn type_meta() -> (m: TypeMeta) {
        type_meta_of_octets(16)
    }

    fn get<R: Reader<'de>>(reader: &mut R) -> (r: ReadResult<Ipv6Addr>) {
        let octets: [u8; 16] = read_octets(reader)?;
        Ok(Ipv6Addr { octets })
    }
}

impl<'de, C: ConfigCore> RoundTrip<'de, C> for Ipv6Addr {
    open spec fn round_trips() -> bool {
        true
    }

    open spec fn src_valid(src: &Ipv6Addr) -> bool {
        true
    }

    open spec fn needs_backing() -> bool {
        false
    }

    proof fn lemma_round_trip(src: &Ipv6Addr, rest: Input) {
        assert(src.octets@.len() == 16);
        lemma_prepend_skip(rest, src.octets@);
    }
}

/// An address of either kind.
#[derive(Debug, Clone, Copy, PartialEq, Eq)]
pub enum IpAddr {
    V4(Ipv4Addr),
    V6(Ipv6Addr),
}

impl Model for IpAddr {
    /// The value of the one kind or of the other.
    type Val = Result<<Ipv4Addr as Model>::Val, <Ipv6Addr as Model>::Val>;
}

/// The tag `0` and an IPv4 address, or the tag `1` and an IPv6 address.
impl<C: Config> SchemaWrite<C> for IpAddr {
    type Src = IpAddr;

    open spec fn src_val(
        src: &IpAddr,
    ) -> Result<<Ipv4Addr as Model>::Val, <Ipv6Addr as Model>::Val> {
        match *src {
            IpAddr::V4(addr) => Ok(<Ipv4Addr as SchemaWrite<C>>::src_val(&addr)),
            IpAddr::V6(addr) => Err(<Ipv6Addr as SchemaWrite<C>>::src_val(&addr)),
        }
    }

    open spec fn emit(src: &IpAddr) -> Emit {
        match *src {
            IpAddr::V4(addr) => tagged_emit::<Ipv4Addr, C>(0, &addr),
            IpAddr::V6(addr) => tagged_emit::<Ipv6Addr, C>(1, &addr),
        }
    }

    open spec fn size_err(src: &IpAddr) -> Option<WriteError> {
        match *src {
            IpAddr::V4(addr) => tagged_size_err::<Ipv4Addr, C>(0, &addr),
            IpAddr::V6(addr) => tagged_size_err::<Ipv6Addr, C>(1, &addr),
        }
    }

    open spec fn write_meta() -> TypeMeta {
        TypeMeta::Dynamic
    }

    open spec fn write_lawful() -> bool {
        true
    }

    proof fn lemma_emit(src: &IpAddr) {
        match *src {
            IpAddr::V4(addr) => {
                lemma_tagged_emit::<Ipv4Addr, C>(0, &addr);
            },
            IpAddr::V6(addr) => {
                lemma_tagged_emit::<Ipv6Addr, C>(1, &addr);
            },
        }
    }

    fn type_meta() -> (m: TypeMeta) {
        TypeMeta::Dynamic
    }

    fn size_of(src: &IpAddr) -> (r: WriteResult<usize>) {
        match src {
            IpAddr::V4(addr) => size_of_tagged::<Ipv4Addr, C>(0, addr),
            IpAddr::V6(addr) => size_of_tagged::<Ipv6Addr, C>(1, addr),
        }
    }

    fn write<W: Writer>(writer: &mut W, src: &IpAddr) -> (r: WriteResult<()>) {
        match src {
            IpAddr::V4(addr) => write_tagged::<Ipv4Addr, C, W>(writer, 0, addr),
            IpAddr::V6(addr) => write_tagged::<Ipv6Addr, C, W>(writer, 1, addr),
        }
    }
}

impl<'de, C: Config> SchemaRead<'de, C> for IpAddr {
    type Dst = IpAddr;

    open spec fn dst_val(
        dst: &IpAddr,
    ) -> Result<<Ipv4Addr as Model>::Val, <Ipv6Addr as Model>::Val> {
        match *dst {
            IpAddr::V4(addr) => Ok(<Ipv4Addr as SchemaRead<'de, C>>::dst_val(&addr)),
            IpAddr::V6(addr) => Err(<Ipv6Addr as SchemaRead<'de, C>>::dst_val(&addr)),
        }
    }

    open spec fn dec(inp: Input) -> Result<
        (Result<<Ipv4Addr as Model>::Val, <Ipv6Addr as Model>::Val>, Input),
        Fault,
    > {
        match C::TagEncoding::tag_dec(inp) {
            Ok((tag, mid)) => if tag == 0 {
                match <Ipv4Addr as SchemaRead<'de, C>>::dec(mid) {
                    Ok((v, rest)) => Ok((Ok(v), rest)),
                    Err(e) => Err(e),
                }
            } else if tag == 1 {
                match <Ipv6Addr as SchemaRead<'de, C>>::dec(mid) {
                    Ok((v, rest)) => Ok((Err(v), rest)),
                    Err(e) => Err(e),
                }
            } else {
                Err(mid.fault(ReadError::InvalidTagEncoding(tag as usize)))
            },
            Err(e) => Err(e),
        }
    }

    open spec fn read_meta() -> TypeMeta {
        TypeMeta::Dynamic
    }

    open spec fn read_lawful() -> bool {
        true
    }

    proof fn lemma_dec(inp: Input) {
        C::TagEncoding::lemma_tag_dec(inp);
        if let Ok((tag, mid)) = C::TagEncoding::tag_dec(inp) {
            <Ipv4Addr as SchemaRead<'de, C>>::lemma_dec(mid);
            <Ipv6Addr as SchemaRead<'de, C>>::lemma_dec(mid);
        }
    }

    fn type_meta() -> (m: TypeMeta) {
        TypeMeta::Dynamic
    }

    fn get<R: Reader<'de>>(reader: &mut R) -> (r: ReadResult<IpAddr>) {
        let tag: u32 = C::TagEncoding::read_into_u32(reader)?;
        match tag {
            0 => {
                let addr = <Ipv4Addr as SchemaRead<'de, C>>::get(reader)?;
                Ok(IpAddr::V4(addr))
            },
            1 => {
                let addr = <Ipv6Addr as SchemaRead<'de, C>>::get(reader)?;
                Ok(IpAddr::V6(addr))
            },
            _ => Err(invalid_tag_encoding(tag as usize)),
        }
    }
}

impl<'de, C: Config> RoundTrip<'de, C> for IpAddr {
    open spec fn round_trips() -> bool {
        true
    }

    open spec fn src_valid(src: &IpAddr) -> bool {
        match *src {
            IpAddr::V4(addr) => <Ipv4Addr as RoundTrip<'de, C>>::src_valid(&addr),
            IpAddr::V6(addr) => <Ipv6Addr as RoundTrip<'de, C>>::src_valid(&addr),
        }
    }

    open spec fn needs_backing() -> bool {
        false
    }

    proof fn lemma_round_trip(src: &IpAddr, rest: Input) {
        match *src {
            IpAddr::V4(addr) => {
                let body = <Ipv4Addr as SchemaWrite<C>>::emit(&addr).bytes;
                lemma_prepend_prepend(rest, C::TagEncoding::tag_emit(0).bytes, body);
                C::TagEncoding::lemma_tag_round_trip(0, rest.prepend(body));
                <Ipv4Addr as RoundTrip<'de, C>>::lemma_round_trip(&addr, rest);
            },
            IpAddr::V6(addr) => {
                let body = <Ipv6Addr as SchemaWrite<C>>::emit(&addr).bytes;
                lemma_prepend_prepend(rest, C::TagEncoding::tag_emit(1).bytes, body);
                C::TagEncoding::lemma_tag_round_trip(1, rest.prepend(body));
                <Ipv6Addr as RoundTrip<'de, C>>::lemma_round_trip(&addr, rest);
            },
        }
    }
}

/// An IPv4 address and a port.
#[derive(Debug, Clone, Copy, PartialEq, Eq)]
pub struct SocketAddrV4 {
    pub ip: Ipv4Addr,
    pub port: u16,
}

impl Model for SocketAddrV4 {
    type Val = (Seq<u8>, u16);
}

/// A socket address is the address and the port.
impl<C: ConfigCore> SchemaWrite<C> for SocketAddrV4 {
    type Src = SocketAddrV4;

    open spec fn src_val(src: &SocketAddrV4) -> (Seq<u8>, u16) {
        (src.ip.octets@, src.port)
    }

    open spec fn emit(src: &SocketAddrV4) -> Emit {
        pair_emit::<Ipv4Addr, u16, C>(&src.ip, &src.port)
    }

    open spec fn size_err(src: &SocketAddrV4) -> Option<WriteError> {
        None
    }

    open spec fn write_meta() -> TypeMeta {
        pair_meta(octets_meta(4), int_meta::<C>(IntWidth::W16))
    }

    open spec fn write_lawful() -> bool {
        true
    }

    proof fn lemma_emit(src: &SocketAddrV4) {
        lemma_pair_emit::<Ipv4Addr, u16, C>(&src.ip, &src.port);
    }

    fn type_meta() -> (m: TypeMeta) {
        type_meta_of_pair(type_meta_of_octets(4), type_meta_of_int::<C>(IntWidth::W16))
    }

    fn size_of(src: &SocketAddrV4) -> (r: WriteResult<usize>) {
        size_of_pair::<Ipv4Addr, u16, C>(&src.ip, &src.port)
    }

    fn write<W: Writer>(writer: &mut W, src: &SocketAddrV4) -> (r: WriteResult<()>) {
        write_pair::<Ipv4Addr, u16, C, W>(writer, &src.ip, &src.port)
    }
}

impl<'de, C: ConfigCore> SchemaRead<'de, C> for SocketAddrV4 {
    type Dst = SocketAddrV4;

    open spec fn dst_val(dst: &SocketAddrV4) -> (Seq<u8>, u16) {
        (dst.ip.octets@, dst.port)
    }

    open spec fn dec(inp: Input) -> Result<((Seq<u8>, u16), Input), Fault> {
        pair_dec::<Ipv4Addr, u16, C>(inp)
    }

    open spec fn read_meta() -> TypeMeta {
        pair_meta(octets_meta(4), int_meta::<C>(IntWidth::W16))
    }

    open spec fn read_lawful() -> bool {
        true
    }

    proof fn lemma_dec(inp: Input) {
        lemma_pair_dec::<Ipv4Addr, u16, C>(inp);
    }

    fn type_meta() -> (m: TypeMeta) {
        type_meta_of_pair(type_meta_of_octets(4), type_meta_of_int::<C>(IntWidth::W16))
    }

    fn get<R: Reader<'de>>(reader: &mut R) -> (r: ReadResult<SocketAddrV4>) {
        let ip = <Ipv4Addr as SchemaRead<'de, C>>::get(reader)?;
        let port = <u16 as SchemaRead<'de, C>>::get(reader)?;
        Ok(SocketAddrV4 { ip, port })
    }
}

impl<'de, C: ConfigCore> RoundTrip<'de, C> for SocketAddrV4 {
    open spec fn round_trips() -> bool {
        true
    }

    open spec fn src_valid(src: &SocketAddrV4) -> bool {
        true
    }

    open spec fn needs_backing() -> bool {
        false
    }

    proof fn lemma_round_trip(src: &SocketAddrV4, rest: Input) {
        lemma_pair_round_trip::<Ipv4Addr, u16, C>(&src.ip, &src.port, rest);
    }
}

/// An IPv6 address and a port, with flow information and a scope.
#[derive(Debug, Clone, Copy, PartialEq, Eq)]
pub struct SocketAddrV6 {
    pub ip: Ipv6Addr,
    pub port: u16,
    pub flowinfo: u32,
    pub scope_id: u32,
}

impl Model for SocketAddrV6 {
    type Val = (Seq<u8>, u16, u32, u32);
}

/// A socket address is the address and the port. The flow information and the scope
/// are not written, and read back as zero.
impl<C: ConfigCore> SchemaWrite<C> for SocketAddrV6 {
    type Src = SocketAddrV6;

    open spec fn src_val(src: &SocketAddrV6) -> (Seq<u8>, u16, u32, u32) {
        (src.ip.octets@, src.port, src.flowinfo, src.scope_id)
    }

    open spec fn emit(src: &SocketAddrV6) -> Emit {
        pair_emit::<Ipv6Addr, u16, C>(&src.ip, &src.port)
    }

    open spec fn size_err(src: &SocketAddrV6) -> Option<WriteError> {
        None
    }

    open spec fn write_meta() -> TypeMeta {
        pair_meta(octets_meta(16), int_meta::<C>(IntWidth::W16))
    }

    open spec fn write_lawful() -> bool {
        true
    }

    proof fn lemma_emit(src: &SocketAddrV6) {
        lemma_pair_emit::<Ipv6Addr, u16, C>(&src.ip, &src.port);
    }

    fn type_meta() -> (m: TypeMeta) {
        type_meta_of_pair(type_meta_of_octets(16), type_meta_of_int::<C>(IntWidth::W16))
    }

    fn size_of(src: &SocketAddrV6) -> (r: WriteResult<usize>) {
        size_of_pair::<Ipv6Addr, u16, C>(&src.ip, &src.port)
    }

    fn write<W: Writer>(writer: &mut W, src: &SocketAddrV6) -> (r: WriteResult<()>) {
        write_pair::<Ipv6Addr, u16, C, W>(writer, &src.ip, &src.port)
    }
}

impl<'de, C: ConfigCore> SchemaRead<'de, C> for SocketAddrV6 {
    type Dst = SocketAddrV6;

    open spec fn dst_val(dst: &SocketAddrV6) -> (Seq<u8>, u16, u32, u32) {
        (dst.ip.octets@, dst.port, dst.flowinfo, dst.scope_id)
    }

    open spec fn dec(inp: Input) -> Result<((Seq<u8>, u16, u32, u32), Input), Fault> {
        match pair_dec::<Ipv6Addr, u16, C>(inp) {
            Ok(((ip, port), rest)) => Ok(((ip, port, 0, 0), rest)),
            Err(e) => Err(e),
        }
    }

    open spec fn read_meta() -> TypeMeta {
        pair_meta(octets_meta(16), int_meta::<C>(IntWidth::W16))
    }

    open spec fn read_lawful() -> bool {
        true
    }

    proof fn lemma_dec(inp: Input) {
        lemma_pair_dec::<Ipv6Addr, u16, C>(inp);
    }

    fn type_meta() -> (m: TypeMeta) {
        type_meta_of_pair(type_meta_of_octets(16), type_meta_of_int::<C>(IntWidth::W16))
    }

    fn get<R: Reader<'de>>(reader: &mut R) -> (r: ReadResult<SocketAddrV6>) {
        let ip = <Ipv6Addr as SchemaRead<'de, C>>::get(reader)?;
        let port = <u16 as SchemaRead<'de, C>>::get(reader)?;
        Ok(SocketAddrV6 { ip, port, flowinfo: 0, scope_id: 0 })
    }
}

impl<'de, C: ConfigCore> RoundTrip<'de, C> for SocketAddrV6 {
    open spec fn round_trips() -> bool {
        true
    }

    open spec fn src_valid(src: &SocketAddrV6) -> bool {
        src.flowinfo == 0 && src.scope_id == 0
    }

    open spec fn needs_backing() -> bool {
        false
    }

    proof fn lemma_round_trip(src: &SocketAddrV6, rest: Input) {
        lemma_pair_round_trip::<Ipv6Addr, u16, C>(&src.ip, &src.port, rest);
    }
}

/// A socket address of either kind.
#[derive(Debug, Clone, Copy, PartialEq, Eq)]
pub enum SocketAddr {
    V4(SocketAddrV4),
    V6(SocketAddrV6),
}

impl Model for SocketAddr {
    /// The value of the one kind or of the other.
    type Val = Result<<SocketAddrV4 as Model>::Val, <SocketAddrV6 as Model>::Val>;
}

/// The tag `0` and an IPv4 address, or the tag `1` and an IPv6 address.
impl<C: Config> SchemaWrite<C> for SocketAddr {
    type Src = SocketAddr;

    open spec fn src_val(
        src: &SocketAddr,
    ) -> Result<<SocketAddrV4 as Model>::Val, <SocketAddrV6 as Model>::Val> {
        match *src {
            SocketAddr::V4(addr) => Ok(<SocketAddrV4 as SchemaWrite<C>>::src_val(&addr)),
            SocketAddr::V6(addr) => Err(<SocketAddrV6 as SchemaWrite<C>>::src_val(&addr)),
        }
    }

    open spec fn emit(src: &SocketAddr) -> Emit {
        match *src {
            SocketAddr::V4(addr) => tagged_emit::<SocketAddrV4, C>(0, &addr),
            SocketAddr::V6(addr) => tagged_emit::<SocketAddrV6, C>(1, &addr),
        }
    }

    open spec fn size_err(src: &SocketAddr) -> Option<WriteError> {
        match *src {
            SocketAddr::V4(addr) => tagged_size_err::<SocketAddrV4, C>(0, &addr),
            SocketAddr::V6(addr) => tagged_size_err::<SocketAddrV6, C>(1, &addr),
        }
    }

    open spec fn write_meta() -> TypeMeta {
        TypeMeta::Dynamic
    }

    open spec fn write_lawful() -> bool {
        true
    }

    proof fn lemma_emit(src: &SocketAddr) {
        match *src {
            SocketAddr::V4(addr) => {
                lemma_tagged_emit::<SocketAddrV4, C>(0, &addr);
            },
            SocketAddr::V6(addr) => {
                lemma_tagged_emit::<SocketAddrV6, C>(1, &addr);
            },
        }
    }

    fn type_meta() -> (m: TypeMeta) {
        TypeMeta::Dynamic
    }

    fn size_of(src: &SocketAddr) -> (r: WriteResult<usize>) {
        match src {
            SocketAddr::V4(addr) => size_of_tagged::<SocketAddrV4, C>(0, addr),
            SocketAddr::V6(addr) => size_of_tagged::<SocketAddrV6, C>(1, addr),
        }
    }

    fn write<W: Writer>(writer: &mut W, src: &SocketAddr) -> (r: WriteResult<()>) {
        match src {
            SocketAddr::V4(addr) => write_tagged::<SocketAddrV4, C, W>(writer, 0, addr),
            SocketAddr::V6(addr) => write_tagged::<SocketAddrV6, C, W>(writer, 1, addr),
        }
    }
}

impl<'de, C: Config> SchemaRead<'de, C> for SocketAddr {
    type Dst = SocketAddr;

    open spec fn dst_val(
        dst: &SocketAddr,
    ) -> Result<<SocketAddrV4 as Model>::Val, <SocketAddrV6 as Model>::Val> {
        match *dst {
            SocketAddr::V4(addr) => Ok(<SocketAddrV4 as SchemaRead<'de, C>>::dst_val(&addr)),
            SocketAddr::V6(addr) => Err(<SocketAddrV6 as SchemaRead<'de, C>>::dst_val(&addr)),
        }
    }

    open spec fn dec(inp: Input) -> Result<
        (Result<<SocketAddrV4 as Model>::Val, <SocketAddrV6 as Model>::Val>, Input),
        Fault,
    > {
        match C::TagEncoding::tag_dec(inp) {
            Ok((tag, mid)) => if tag == 0 {
                match <SocketAddrV4 as SchemaRead<'de, C>>::dec(mid) {
                    Ok((v, rest)) => Ok((Ok(v), rest)),
                    Err(e) => Err(e),
                }
            } else if tag == 1 {
                match <SocketAddrV6 as SchemaRead<'de, C>>::dec(mid) {
                    Ok((v, rest)) => Ok((Err(v), rest)),
                    Err(e) => Err(e),
                }
            } else {
                Err(mid.fault(ReadError::InvalidTagEncoding(tag as usize)))
            },
            Err(e) => Err(e),
        }
    }

    open spec fn read_meta() -> TypeMeta {
        TypeMeta::Dynamic
    }

    open spec fn read_lawful() -> bool {
        true
    }

    proof fn lemma_dec(inp: Input) {
        C::TagEncoding::lemma_tag_dec(inp);
        if let Ok((tag, mid)) = C::TagEncoding::tag_dec(inp) {
            <SocketAddrV4 as SchemaRead<'de, C>>::lemma_dec(mid);
            <SocketAddrV6 as SchemaRead<'de, C>>::lemma_dec(mid);
        }
    }

    fn type_meta() -> (m: TypeMeta) {
        TypeMeta::Dynamic
    }

    fn get<R: Reader<'de>>(reader: &mut R) -> (r: ReadResult<SocketAddr>) {
        let tag: u32 = C::TagEncoding::read_into_u32(reader)?;
        match tag {
            0 => {
                let addr = <SocketAddrV4 as SchemaRead<'de, C>>::get(reader)?;
                Ok(SocketAddr::V4(addr))
            },
            1 => {
                let addr = <SocketAddrV6 as SchemaRead<'de, C>>::get(reader)?;
                Ok(SocketAddr::V6(addr))
            },
            _ => Err(invalid_tag_encoding(tag as usize)),
        }
    }
}

impl<'de, C: Config> RoundTrip<'de, C> for SocketAddr {
    open spec fn round_trips() -> bool {
        true
    }

    open spec fn src_valid(src: &SocketAddr) -> bool {
        match *src {
            SocketAddr::V4(addr) => <SocketAddrV4 as RoundTrip<'de, C>>::src_valid(&addr),
            SocketAddr::V6(addr) => <SocketAddrV6 as RoundTrip<'de, C>>::src_valid(&addr),
        }
    }

    open spec fn needs_backing() -> bool {
        false
    }

    proof fn lemma_round_trip(src: &SocketAddr, rest: Input) {
        match *src {
            SocketAddr::V4(addr) => {
                let body = <SocketAddrV4 as SchemaWrite<C>>::emit(&addr).bytes;
                lemma_prepend_prepend(rest, C::TagEncoding::tag_emit(0).bytes, body);
                C::TagEncoding::lemma_tag_round_trip(0, rest.prepend(body));
                <SocketAddrV4 as RoundTrip<'de, C>>::lemma_round_trip(&addr, rest);
            },
            SocketAddr::V6(addr) => {
                let body = <SocketAddrV6 as SchemaWrite<C>>::emit(&addr).bytes;
                lemma_prepend_prepend(rest, C::TagEncoding::tag_emit(1).bytes, body);
                C::TagEncoding::lemma_tag_round_trip(1, rest.prepend(body));
                <SocketAddrV6 as RoundTrip<'de, C>>::lemma_round_trip(&addr, rest);
            },
        }
    }
}

} // verus!
