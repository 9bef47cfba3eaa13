//! DHCPv6 options: their types, their mathematical views, and their codecs.

use vstd::prelude::*;

use vstd::slice::{slice_subrange, slice_to_vec};

use crate::addr::Ipv6Addr;
use crate::buffer::{be16, be32, Buffer};
use crate::wire::{
    addrs_bytes, classes_bytes, duid_bytes, option_bytes, option_code, options_bytes,
    options_bytes_upto, parse_classes, parse_duid, parse_options as parse_options_spec,
    parse_payload as parse_payload_spec, payload_bytes, u16_be, u16s_bytes, u32_be,
};
use crate::{agrees, Error, ErrorKind, Result, StatusCode};

verus! {

/// Codes for each of the supported DHCPv6 option types.
pub const OPTION_CLIENTID: u16 = 1;
pub const OPTION_SERVERID: u16 = 2;
pub const OPTION_IA_NA: u16 = 3;
pub const OPTION_IA_TA: u16 = 4;
pub const OPTION_IAADDR: u16 = 5;
pub const OPTION_ORO: u16 = 6;
pub const OPTION_PREFERENCE: u16 = 7;
pub const OPTION_ELAPSED_TIME: u16 = 8;
pub const OPTION_RELAY_MSG: u16 = 9;
pub const OPTION_AUTH: u16 = 11;
pub const OPTION_UNICAST: u16 = 12;
pub const OPTION_STATUS_CODE: u16 = 13;
pub const OPTION_RAPID_COMMIT: u16 = 14;
pub const OPTION_USER_CLASS: u16 = 15;
pub const OPTION_VENDOR_CLASS: u16 = 16;
pub const OPTION_VENDOR_OPTS: u16 = 17;
pub const OPTION_INTERFACE_ID: u16 = 18;
pub const OPTION_RECONF_MSG: u16 = 19;
pub const OPTION_RECONF_ACCEPT: u16 = 20;
pub const OPTION_DNS_SERVERS: u16 = 23;
pub const OPTION_DOMAIN_LIST: u16 = 24;

/// All the supported DHCPv6 option types.
#[derive(Debug, PartialEq)]
pub enum Dhcpv6Option {
    ClientId(Duid),
    ServerId(Duid),
    IaNa(IaNaOption),
    IaTa(IaTaOption),
    IaAddr(IaAddrOption),
    Oro(Vec<u16>),
    Preference(u8),
    ElapsedTime(u16),
    RelayMsg(Vec<u8>),
    Auth,
    Unicast(Ipv6Addr),
    StatusCode(StatusCodeOption),
    RapidCommit,
    UserClass(Vec<ClassData>),
    VendorClass(VendorClassOption),
    VendorOpts(VendorOption),
    InterfaceId(Vec<u8>),
    ReconfMsg(u8),
    ReconfAccept,
    DnsServers(Vec<Ipv6Addr>),
    DomainList(Vec<String>),
    Other(OtherOption),
}

/// DUID based on a link-layer address plus time.
#[derive(Debug, PartialEq, Eq, Hash, Clone)]
pub struct DuidLLT {
    pub type_code: u16,
    pub hw_type: u16,
    pub time: u32,
    pub link_layer: Vec<u8>,
}

/// DUID assigned by a vendor, based on its enterprise number.
#[derive(Debug, PartialEq, Eq, Hash, Clone)]
pub struct DuidEn {
    pub type_code: u16,
    pub enterprise_code: u32,
    pub identifier: Vec<u8>,
}

/// DUID based on a link-layer address.
#[derive(Debug, PartialEq, Eq, Hash, Clone)]
pub struct DuidLL {
    pub type_code: u16,
    pub hw_type: u16,
    pub link_layer: Vec<u8>,
}

/// A DHCP unique identifier, in one of its three encodings.
#[derive(Debug, PartialEq, Eq, Hash, Clone)]
pub enum Duid {
    Llt(DuidLLT),
    En(DuidEn),
    Ll(DuidLL),
}

/// Identity association for non-temporary addresses.
#[derive(Debug)]
pub struct IaNaOption {
    pub iaid: u32,
    pub t1: u32,
    pub t2: u32,
    pub options: Vec<Dhcpv6Option>,
}

/// Identity association for temporary addresses.
#[derive(Debug)]
pub struct IaTaOption {
    pub iaid: u32,
    pub options: Vec<Dhcpv6Option>,
}

/// An address leased within an identity association.
#[derive(Debug)]
pub struct IaAddrOption {
    pub addr: Ipv6Addr,
    pub preferred_lifetime: u32,
    pub valid_lifetime: u32,
    pub options: Vec<Dhcpv6Option>,
}

/// A status code with its message.
#[derive(Debug, PartialEq)]
pub struct StatusCodeOption {
    pub code: StatusCode,
    pub msg: Vec<u8>,
}

/// One opaque block of a user or vendor class option.
#[derive(Debug, PartialEq)]
pub struct ClassData {
    pub len: usize,
    pub data: Vec<u8>,
}

/// Vendor class: an enterprise number and its class blocks.
#[derive(Debug, PartialEq)]
pub struct VendorClassOption {
    pub enterprise_number: u32,
    pub data: Vec<ClassData>,
}

/// Vendor-specific information: an enterprise number and opaque data.
#[derive(Debug, PartialEq)]
pub struct VendorOption {
    pub enterprise_number: u32,
    pub data: Vec<u8>,
}

/// An option whose code this library does not know, kept as it came.
#[derive(Debug, PartialEq)]
pub struct OtherOption {
    pub code: u16,
    pub len: usize,
    pub data: Vec<u8>,
}

/// The mathematical value of a DUID.
pub enum DuidView {
    Llt { type_code: u16, hw_type: u16, time: u32, link_layer: Seq<u8> },
    En { type_code: u16, enterprise_code: u32, identifier: Seq<u8> },
    Ll { type_code: u16, hw_type: u16, link_layer: Seq<u8> },
}

/// The mathematical value of an option. Addresses are their sixteen octets,
/// class blocks their declared length and data, and domain names their text.
pub enum OptionView {
    ClientId(DuidView),
    ServerId(DuidView),
    IaNa(u32, u32, u32, Seq<OptionView>),
    IaTa(u32, Seq<OptionView>),
    IaAddr(Seq<u8>, u32, u32, Seq<OptionView>),
    Oro(Seq<u16>),
    Preference(u8),
    ElapsedTime(u16),
    RelayMsg(Seq<u8>),
    Auth,
    Unicast(Seq<u8>),
    StatusCode(StatusCode, Seq<u8>),
    RapidCommit,
    UserClass(Seq<(nat, Seq<u8>)>),
    VendorClass(u32, Seq<(nat, Seq<u8>)>),
    VendorOpts(u32, Seq<u8>),
    InterfaceId(Seq<u8>),
    ReconfMsg(u8),
    ReconfAccept,
    DnsServers(Seq<Seq<u8>>),
    DomainList(Seq<Seq<char>>),
    Other(u16, nat, Seq<u8>),
}

impl View for Duid {
    type V = DuidView;

    open spec fn view(&self) -> DuidView {
        match self {
            Duid::Llt(x) => DuidView::Llt {
                type_code: x.type_code,
                hw_type: x.hw_type,
                time: x.time,
                link_layer: x.link_layer@,
            },
            Duid::En(x) => DuidView::En {
                type_code: x.type_code,
                enterprise_code: x.enterprise_code,
                identifier: x.identifier@,
            },
            Duid::Ll(x) => DuidView::Ll {
                type_code: x.type_code,
                hw_type: x.hw_type,
                link_layer: x.link_layer@,
            },
        }
    }
}

/// The view of each class block.
pub open spec fn classes_view(s: Seq<ClassData>) -> Seq<(nat, Seq<u8>)> {
    Seq::new(s.len(), |i: int| (s[i].len as nat, s[i].data@))
}

/// The view of each address.
pub open spec fn addrs_view(s: Seq<Ipv6Addr>) -> Seq<Seq<u8>> {
    Seq::new(s.len(), |i: int| s[i]@)
}

/// The text of each string.
pub open spec fn strings_view(s: Seq<String>) -> Seq<Seq<char>> {
    Seq::new(s.len(), |i: int| s[i]@)
}

/// The view of an option.
pub open spec fn option_view(o: Dhcpv6Option) -> OptionView
    decreases o,
{
    match o {
        Dhcpv6Option::ClientId(d) => OptionView::ClientId(d@),
        Dhcpv6Option::ServerId(d) => OptionView::ServerId(d@),
        Dhcpv6Option::IaNa(x) => OptionView::IaNa(
            x.iaid,
            x.t1,
            x.t2,
            views_upto(x.options@, x.options@.len()),
        ),
        Dhcpv6Option::IaTa(x) => OptionView::IaTa(x.iaid, views_upto(x.options@, x.options@.len())),
        Dhcpv6Option::IaAddr(x) => OptionView::IaAddr(
            x.addr@,
            x.preferred_lifetime,
            x.valid_lifetime,
            views_upto(x.options@, x.options@.len()),
        ),
        Dhcpv6Option::Oro(v) => OptionView::Oro(v@),
        Dhcpv6Option::Preference(p) => OptionView::Preference(p),
        Dhcpv6Option::ElapsedTime(t) => OptionView::ElapsedTime(t),
        Dhcpv6Option::RelayMsg(v) => OptionView::RelayMsg(v@),
        Dhcpv6Option::Auth => OptionView::Auth,
        Dhcpv6Option::Unicast(a) => OptionView::Unicast(a@),
        Dhcpv6Option::StatusCode(s) => OptionView::StatusCode(s.code, s.msg@),
        Dhcpv6Option::RapidCommit => OptionView::RapidCommit,
        Dhcpv6Option::UserClass(v) => OptionView::UserClass(classes_view(v@)),
        Dhcpv6Option::VendorClass(x) => OptionView::VendorClass(
            x.enterprise_number,
            classes_view(x.data@),
        ),
        Dhcpv6Option::VendorOpts(x) => OptionView::VendorOpts(x.enterprise_number, x.data@),
        Dhcpv6Option::InterfaceId(v) => OptionView::InterfaceId(v@),
        Dhcpv6Option::ReconfMsg(m) => OptionView::ReconfMsg(m),
        Dhcpv6Option::ReconfAccept => OptionView::ReconfAccept,
        Dhcpv6Option::DnsServers(v) => OptionView::DnsServers(addrs_view(v@)),
        Dhcpv6Option::DomainList(v) => OptionView::DomainList(strings_view(v@)),
        Dhcpv6Option::Other(x) => OptionView::Other(x.code, x.len as nat, x.data@),
    }
}

/// The views of the first `n` options of `s`.
pub open spec fn views_upto(s: Seq<Dhcpv6Option>, n: nat) -> Seq<OptionView>
    decreases s, n,
{
    if n == 0 || n > s.len() {
        Seq::empty()
    } else {
        views_upto(s, (n - 1) as nat).push(option_view(s[n - 1]))
    }
}

/// The views of all options of `s`.
pub open spec fn views(s: Seq<Dhcpv6Option>) -> Seq<OptionView> {
    views_upto(s, s.len())
}

impl View for Dhcpv6Option {
    type V = OptionView;

    open spec fn view(&self) -> OptionView {
        option_view(*self)
    }
}

proof fn lemma_views_upto(s: Seq<Dhcpv6Option>, n: nat)
    requires
        n <= s.len(),
    ensures
        views_upto(s, n).len() == n,
        forall|i: int| 0 <= i < n ==> #[trigger] views_upto(s, n)[i] == option_view(s[i]),
    decreases n,
{
    if n > 0 {
        lemma_views_upto(s, (n - 1) as nat);
    }
}

/// Each option's view stands at its index.
pub broadcast proof fn lemma_views(s: Seq<Dhcpv6Option>)
    ensures
        #[trigger] views(s).len() == s.len(),
        forall|i: int| 0 <= i < s.len() ==> #[trigger] views(s)[i] == option_view(s[i]),
{
    lemma_views_upto(s, s.len());
}

} // verus!

verus! {

impl PartialEq for IaNaOption {
    fn eq(&self, other: &Self) -> (r: bool) {
        self.iaid == other.iaid && self.t1 == other.t1 && self.t2 == other.t2
            && crate::compare::compare_options(self.options.as_slice(), other.options.as_slice()).is_ok()
    }
}

impl vstd::std_specs::cmp::PartialEqSpecImpl for IaNaOption {
    open spec fn obeys_eq_spec() -> bool {
        true
    }

    open spec fn eq_spec(&self, other: &IaNaOption) -> bool {
        self.iaid == other.iaid && self.t1 == other.t1 && self.t2 == other.t2
            && crate::compare::options_match(views(self.options@), views(other.options@))
    }
}

impl PartialEq for IaTaOption {
    fn eq(&self, other: &Self) -> (r: bool) {
        self.iaid == other.iaid
            && crate::compare::compare_options(self.options.as_slice(), other.options.as_slice()).is_ok()
    }
}

impl vstd::std_specs::cmp::PartialEqSpecImpl for IaTaOption {
    open spec fn obeys_eq_spec() -> bool {
        true
    }

    open spec fn eq_spec(&self, other: &IaTaOption) -> bool {
        self.iaid == other.iaid
            && crate::compare::options_match(views(self.options@), views(other.options@))
    }
}

impl PartialEq for IaAddrOption {
    fn eq(&self, other: &Self) -> (r: bool) {
        self.addr.same(&other.addr) && self.preferred_lifetime == other.preferred_lifetime
            && self.valid_lifetime == other.valid_lifetime
            && crate::compare::compare_options(self.options.as_slice(), other.options.as_slice()).is_ok()
    }
}

impl vstd::std_specs::cmp::PartialEqSpecImpl for IaAddrOption {
    open spec fn obeys_eq_spec() -> bool {
        true
    }

    open spec fn eq_spec(&self, other: &IaAddrOption) -> bool {
        self.addr@ == other.addr@ && self.preferred_lifetime == other.preferred_lifetime
            && self.valid_lifetime == other.valid_lifetime
            && crate::compare::options_match(views(self.options@), views(other.options@))
    }
}

} // verus!

verus! {

/// Reads the big-endian 16-bit value at `i`.
fn read_16(p: &[u8], i: usize) -> (r: u16)
    requires
        i + 2 <= p@.len(),
    ensures
        r == be16(p@, i as int),
{
    (p[i] as u16) * 0x100 + (p[i + 1] as u16)
}

/// Reads the big-endian 32-bit value at `i`.
fn read_32(p: &[u8], i: usize) -> (r: u32)
    requires
        i + 4 <= p@.len(),
    ensures
        r == be32(p@, i as int),
{
    (p[i] as u32) * 0x1000000 + (p[i + 1] as u32) * 0x10000 + (p[i + 2] as u32) * 0x100 + (p[i
        + 3] as u32)
}

/// The bytes of `p` from `i` to `j`.
fn sub_bytes(p: &[u8], i: usize, j: usize) -> (r: Vec<u8>)
    requires
        i <= j <= p@.len(),
    ensures
        r@ == p@.subrange(i as int, j as int),
{
    slice_to_vec(slice_subrange(p, i, j))
}

/// Appends a 16-bit value, high byte first.
fn put_16(v: &mut Vec<u8>, x: u16)
    ensures
        final(v)@ == old(v)@ + u16_be(x as int),
{
    v.push((x / 0x100) as u8);
    v.push((x % 0x100) as u8);
    assert(final(v)@ =~= old(v)@ + u16_be(x as int));
}

/// Appends a 32-bit value, high byte first.
fn put_32(v: &mut Vec<u8>, x: u32)
    ensures
        final(v)@ == old(v)@ + u32_be(x as int),
{
    v.push((x / 0x1000000) as u8);
    v.push(((x / 0x10000) % 0x100) as u8);
    v.push(((x / 0x100) % 0x100) as u8);
    v.push((x % 0x100) as u8);
    assert(final(v)@ =~= old(v)@ + u32_be(x as int));
}

/// Appends bytes.
fn put_bytes(v: &mut Vec<u8>, b: &[u8])
    ensures
        final(v)@ == old(v)@ + b@,
{
    v.extend_from_slice(b);
}

impl Duid {
    /// Reads a DUID from an option's payload.
    fn parse(p: &[u8]) -> (r: Result<Duid>)
        ensures
            agrees(r, parse_duid(p@)),
    {
        if p.len() < 2 {
            return Err(Error::TooShort);
        }
        if p.len() - 2 > 128 {
            return Err(Error::BadOption("duid too long".to_string()));
        }
        let type_code = read_16(p, 0);
        let remaining = p.len() - 2;
        if type_code == 1 {
            if remaining < 7 {
                return Err(Error::TooShort);
            }
            Ok(
                Duid::Llt(
                    DuidLLT {
                        type_code: 1,
                        hw_type: read_16(p, 2),
                        time: read_32(p, 4),
                        link_layer: sub_bytes(p, 8, p.len()),
                    },
                ),
            )
        } else if type_code == 2 {
            if remaining < 5 {
                return Err(Error::TooShort);
            }
            Ok(
                Duid::En(
                    DuidEn {
                        type_code: 2,
                        enterprise_code: read_32(p, 2),
                        identifier: sub_bytes(p, 6, p.len()),
                    },
                ),
            )
        } else if type_code == 3 {
            if remaining < 3 {
                return Err(Error::TooShort);
            }
            Ok(
                Duid::Ll(
                    DuidLL {
                        type_code: 3,
                        hw_type: read_16(p, 2),
                        link_layer: sub_bytes(p, 4, p.len()),
                    },
                ),
            )
        } else {
            Err(Error::BadOption("invalid DUID type".to_string()))
        }
    }

    /// The body of the DUID: its type code, then the fields of its kind.
    fn encode(&self) -> (r: Vec<u8>)
        ensures
            r@ == duid_bytes(self@),
    {
        let mut v: Vec<u8> = Vec::new();
        match self {
            Duid::Llt(x) => {
                put_16(&mut v, x.type_code);
                put_16(&mut v, x.hw_type);
                put_32(&mut v, x.time);
                put_bytes(&mut v, x.link_layer.as_slice());
            },
            Duid::En(x) => {
                put_16(&mut v, x.type_code);
                put_32(&mut v, x.enterprise_code);
                put_bytes(&mut v, x.identifier.as_slice());
            },
            Duid::Ll(x) => {
                put_16(&mut v, x.type_code);
                put_16(&mut v, x.hw_type);
                put_bytes(&mut v, x.link_layer.as_slice());
            },
        }
        assert(v@ =~= duid_bytes(self@));
        v
    }
}

impl DuidLLT {
    /// A link-layer-plus-time DUID; the link-layer address may hold at most
    /// 120 bytes.
    pub fn new(hw_type: u16, time: u32, ll: &[u8]) -> (r: Result<DuidLLT>)
        ensures
            r is Ok <==> ll@.len() <= 120,
            r is Ok ==> r->Ok_0.type_code == 1 && r->Ok_0.hw_type == hw_type && r->Ok_0.time
                == time && r->Ok_0.link_layer@ == ll@,
            r is Err ==> r->Err_0.kind() == ErrorKind::BadOption,
    {
        if ll.len() <= 120 {
            Ok(DuidLLT { type_code: 1, hw_type, time, link_layer: slice_to_vec(ll) })
        } else {
            Err(Error::BadOption("link-layer address too long".to_string()))
        }
    }
}

impl DuidEn {
    /// An enterprise-number DUID; the identifier may hold at most 120 bytes.
    pub fn new(enterprise_code: u32, id: &[u8]) -> (r: Result<DuidEn>)
        ensures
            r is Ok <==> id@.len() <= 120,
            r is Ok ==> r->Ok_0.type_code == 2 && r->Ok_0.enterprise_code == enterprise_code
                && r->Ok_0.identifier@ == id@,
            r is Err ==> r->Err_0.kind() == ErrorKind::BadOption,
    {
        if id.len() <= 120 {
            Ok(DuidEn { type_code: 2, enterprise_code, identifier: slice_to_vec(id) })
        } else {
            Err(Error::BadOption("identifier too long".to_string()))
        }
    }
}

impl DuidLL {
    /// A link-layer DUID; the link-layer address may hold at most 124 bytes.
    pub fn new(hw_type: u16, ll: &[u8]) -> (r: Result<DuidLL>)
        ensures
            r is Ok <==> ll@.len() <= 124,
            r is Ok ==> r->Ok_0.type_code == 3 && r->Ok_0.hw_type == hw_type
                && r->Ok_0.link_layer@ == ll@,
            r is Err ==> r->Err_0.kind() == ErrorKind::BadOption,
    {
        if ll.len() <= 124 {
            Ok(DuidLL { type_code: 3, hw_type, link_layer: slice_to_vec(ll) })
        } else {
            Err(Error::BadOption("link-layer address too long".to_string()))
        }
    }
}

/// Reads class blocks, each a 16-bit length and its data.
fn parse_class_data(p: &[u8]) -> (r: Result<Vec<ClassData>>)
    ensures
        r is Ok <==> parse_classes(p@) is Ok,
        r is Ok ==> classes_view(r->Ok_0@) == parse_classes(p@)->Ok_0,
        r is Err ==> r->Err_0.kind() == parse_classes(p@)->Err_0,
{
    let mut v: Vec<ClassData> = Vec::new();
    let mut i: usize = 0;
    assert(p@.subrange(0, p@.len() as int) =~= p@);
    assert forall|r: Seq<(nat, Seq<u8>)>| classes_view(v@) + r =~= r by {}
    while i < p.len()
        invariant
            i <= p@.len(),
            parse_classes(p@) == match parse_classes(p@.subrange(i as int, p@.len() as int)) {
                Err(e) => Err(e),
                Ok(rest) => Ok(classes_view(v@) + rest),
            },
        decreases p@.len() - i,
    {
        let ghost rest = p@.subrange(i as int, p@.len() as int);
        if p.len() - i < 2 {
            return Err(Error::TooShort);
        }
        let n = read_16(p, i) as usize;
        assert(be16(rest, 0) == n);
        if n > p.len() - i - 2 {
            return Err(Error::TooShort);
        }
        let data = sub_bytes(p, i + 2, i + 2 + n);
        assert(rest.subrange(2, 2 + n) =~= data@);
        assert(rest.subrange(2 + n, rest.len() as int) =~= p@.subrange(
            i + 2 + n,
            p@.len() as int,
        ));
        let ghost before = v@;
        v.push(ClassData { len: n, data });
        assert(classes_view(v@) =~= classes_view(before).push((n as nat, data@)));
        assert forall|r: Seq<(nat, Seq<u8>)>| classes_view(before) + (seq![(n as nat, data@)] + r)
            =~= classes_view(v@) + r by {}
        i = i + 2 + n;
    }
    assert(p@.subrange(i as int, p@.len() as int) =~= Seq::<u8>::empty());
    assert(classes_view(v@) + Seq::<(nat, Seq<u8>)>::empty() =~= classes_view(v@));
    Ok(v)
}

/// Writes class blocks, each a 16-bit length and its data.
fn encode_class_data(classes: &[ClassData], v: &mut Vec<u8>) -> (r: Result<()>)
    ensures
        r is Ok <==> classes_bytes(classes_view(classes@)) is Ok,
        r is Ok ==> final(v)@ == old(v)@ + classes_bytes(classes_view(classes@))->Ok_0,
        r is Err ==> r->Err_0.kind() == classes_bytes(classes_view(classes@))->Err_0,
{
    let ghost cs = classes_view(classes@);
    let mut i: usize = 0;
    while i < classes.len()
        invariant
            i <= classes@.len(),
            cs == classes_view(classes@),
            classes_bytes(cs.subrange(0, i as int)) is Ok,
            v@ == old(v)@ + classes_bytes(cs.subrange(0, i as int))->Ok_0,
        decreases classes@.len() - i,
    {
        let class = &classes[i];
        assert(cs.subrange(0, i + 1).drop_last() =~= cs.subrange(0, i as int));
        assert(cs.subrange(0, i + 1).last() == (class.len as nat, class.data@));
        if class.len != class.data.len() || class.len > 0xffff {
            proof {
                lemma_classes_bytes_err(cs, i + 1);
            }
            return Err(Error::BadOption("class data length mismatch".to_string()));
        }
        put_16(v, class.len as u16);
        put_bytes(v, class.data.as_slice());
        assert(v@ =~= old(v)@ + classes_bytes(cs.subrange(0, i + 1))->Ok_0);
        i += 1;
    }
    assert(cs.subrange(0, classes@.len() as int) =~= cs);
    Ok(())
}

proof fn lemma_classes_bytes_err(cs: Seq<(nat, Seq<u8>)>, n: int)
    requires
        0 < n <= cs.len(),
        classes_bytes(cs.subrange(0, n)) is Err,
    ensures
        classes_bytes(cs) == classes_bytes(cs.subrange(0, n)),
    decreases cs.len() - n,
{
    if n < cs.len() {
        assert(cs.subrange(0, n + 1).drop_last() =~= cs.subrange(0, n));
        lemma_classes_bytes_err(cs, n + 1);
    } else {
        assert(cs.subrange(0, n) =~= cs);
    }
}

} // verus!

verus! {

proof fn lemma_options_bytes_err(s: Seq<OptionView>, n: int)
    requires
        0 < n <= s.len(),
        options_bytes_upto(s, n) is Err,
    ensures
        options_bytes(s) == options_bytes_upto(s, n),
    decreases s.len() - n,
{
    if n < s.len() {
        lemma_options_bytes_err(s, n + 1);
    }
}

/// Encodes options one after another, in order.
pub fn encode_options(opts: &[Dhcpv6Option]) -> (r: Result<Vec<u8>>)
    ensures
        agrees(r, options_bytes(views(opts@))),
    decreases opts@, 2int,
{
    let ghost vs = views(opts@);
    proof {
        lemma_views(opts@);
    }
    let mut v: Vec<u8> = Vec::new();
    let mut i: usize = 0;
    while i < opts.len()
        invariant
            i <= opts@.len(),
            vs == views(opts@),
            vs.len() == opts@.len(),
            forall|k: int| 0 <= k < opts@.len() ==> #[trigger] vs[k] == opts@[k]@,
            options_bytes_upto(vs, i as int) == Ok::<Seq<u8>, ErrorKind>(v@),
        decreases opts@.len() - i,
    {
        assert(vs[i as int] == opts@[i as int]@);
        match encode_one(&opts[i]) {
            Err(e) => {
                proof {
                    lemma_options_bytes_err(vs, i + 1);
                }
                return Err(e);
            },
            Ok(b) => {
                let ghost before = v@;
                v.extend_from_slice(b.as_slice());
                assert(v@ == before + b@);
                assert(options_bytes_upto(vs, i + 1) == Ok::<Seq<u8>, ErrorKind>(before + b@));
            },
        }
        i += 1;
    }
    Ok(v)
}

/// Encodes one option as its code, its length and its payload.
fn encode_one(opt: &Dhcpv6Option) -> (r: Result<Vec<u8>>)
    ensures
        agrees(r, option_bytes(opt@)),
    decreases *opt, 1int,
{
    let data = encode_payload(opt)?;
    if data.len() > 0xffff {
        return Err(Error::BadOption("option too long".to_string()));
    }
    let mut v: Vec<u8> = Vec::new();
    put_16(&mut v, option_number(opt));
    put_16(&mut v, data.len() as u16);
    put_bytes(&mut v, data.as_slice());
    Ok(v)
}

/// The code of an option on the wire.
pub fn option_number(opt: &Dhcpv6Option) -> (r: u16)
    ensures
        r == option_code(opt@),
{
    match opt {
        Dhcpv6Option::ClientId(_) => OPTION_CLIENTID,
        Dhcpv6Option::ServerId(_) => OPTION_SERVERID,
        Dhcpv6Option::IaNa(_) => OPTION_IA_NA,
        Dhcpv6Option::IaTa(_) => OPTION_IA_TA,
        Dhcpv6Option::IaAddr(_) => OPTION_IAADDR,
        Dhcpv6Option::Oro(_) => OPTION_ORO,
        Dhcpv6Option::Preference(_) => OPTION_PREFERENCE,
        Dhcpv6Option::ElapsedTime(_) => OPTION_ELAPSED_TIME,
        Dhcpv6Option::RelayMsg(_) => OPTION_RELAY_MSG,
        Dhcpv6Option::Auth => OPTION_AUTH,
        Dhcpv6Option::Unicast(_) => OPTION_UNICAST,
        Dhcpv6Option::StatusCode(_) => OPTION_STATUS_CODE,
        Dhcpv6Option::RapidCommit => OPTION_RAPID_COMMIT,
        Dhcpv6Option::UserClass(_) => OPTION_USER_CLASS,
        Dhcpv6Option::VendorClass(_) => OPTION_VENDOR_CLASS,
        Dhcpv6Option::VendorOpts(_) => OPTION_VENDOR_OPTS,
        Dhcpv6Option::InterfaceId(_) => OPTION_INTERFACE_ID,
        Dhcpv6Option::ReconfMsg(_) => OPTION_RECONF_MSG,
        Dhcpv6Option::ReconfAccept => OPTION_RECONF_ACCEPT,
        Dhcpv6Option::DnsServers(_) => OPTION_DNS_SERVERS,
        Dhcpv6Option::DomainList(_) => OPTION_DOMAIN_LIST,
        Dhcpv6Option::Other(x) => x.code,
    }
}

/// Each value as two bytes, high byte first.
fn encode_u16s(x: &Vec<u16>) -> (r: Vec<u8>)
    ensures
        r@ == u16s_bytes(x@),
{
    let mut v: Vec<u8> = Vec::new();
    let mut i: usize = 0;
    while i < x.len()
        invariant
            i <= x@.len(),
            v@ == u16s_bytes(x@.subrange(0, i as int)),
        decreases x@.len() - i,
    {
        assert(x@.subrange(0, i + 1).drop_last() =~= x@.subrange(0, i as int));
        put_16(&mut v, x[i]);
        i += 1;
    }
    assert(x@.subrange(0, x@.len() as int) =~= x@);
    v
}

/// The octets of each address, one address after another.
fn encode_addrs(x: &Vec<Ipv6Addr>) -> (r: Vec<u8>)
    ensures
        r@ == addrs_bytes(addrs_view(x@)),
{
    let mut v: Vec<u8> = Vec::new();
    let mut i: usize = 0;
    while i < x.len()
        invariant
            i <= x@.len(),
            v@ == addrs_bytes(addrs_view(x@).subrange(0, i as int)),
        decreases x@.len() - i,
    {
        assert(addrs_view(x@).subrange(0, i + 1).drop_last() =~= addrs_view(x@).subrange(
            0,
            i as int,
        ));
        put_bytes(&mut v, x[i].octets.as_slice());
        i += 1;
    }
    assert(addrs_view(x@).subrange(0, x@.len() as int) =~= addrs_view(x@));
    v
}

/// Encodes the payload of an option.
#[verifier::rlimit(100)]
fn encode_payload(opt: &Dhcpv6Option) -> (r: Result<Vec<u8>>)
    ensures
        agrees(r, payload_bytes(opt@)),
    decreases *opt, 0int,
{
    let mut v: Vec<u8> = Vec::new();
    match opt {
        Dhcpv6Option::ClientId(x) => Ok(x.encode()),
        Dhcpv6Option::ServerId(x) => Ok(x.encode()),
        Dhcpv6Option::IaNa(x) => x.encode(),
        Dhcpv6Option::IaTa(x) => x.encode(),
        Dhcpv6Option::IaAddr(x) => x.encode(),
        Dhcpv6Option::Oro(x) => Ok(encode_u16s(x)),
        Dhcpv6Option::Preference(x) => {
            v.push(*x);
            assert(v@ =~= seq![*x]);
            Ok(v)
        },
        Dhcpv6Option::ElapsedTime(x) => {
            put_16(&mut v, *x);
            assert(v@ =~= u16_be(*x as int));
            Ok(v)
        },
        Dhcpv6Option::RelayMsg(x) => Ok(slice_to_vec(x.as_slice())),
        Dhcpv6Option::Auth => Err(Error::Unimplemented("Authentication option".to_string())),
        Dhcpv6Option::Unicast(x) => Ok(slice_to_vec(x.octets.as_slice())),
        Dhcpv6Option::StatusCode(x) => Ok(x.encode()),
        Dhcpv6Option::RapidCommit => Ok(v),
        Dhcpv6Option::UserClass(x) => {
            encode_class_data(x.as_slice(), &mut v)?;
            assert(v@ =~= Seq::<u8>::empty() + classes_bytes(classes_view(x@))->Ok_0);
            Ok(v)
        },
        Dhcpv6Option::VendorClass(x) => x.encode(),
        Dhcpv6Option::VendorOpts(x) => Ok(x.encode()),
        Dhcpv6Option::InterfaceId(x) => Ok(slice_to_vec(x.as_slice())),
        Dhcpv6Option::ReconfMsg(x) => {
            v.push(*x);
            assert(v@ =~= seq![*x]);
            Ok(v)
        },
        Dhcpv6Option::ReconfAccept => Ok(v),
        Dhcpv6Option::DnsServers(x) => Ok(encode_addrs(x)),
        Dhcpv6Option::DomainList(x) => {
            proof {
                crate::domain::lemma_domains_bytes_errors(strings_view(x@));
            }
            crate::domain::domain_list_encode(x.as_slice())
        },
        Dhcpv6Option::Other(x) => Ok(slice_to_vec(x.data.as_slice())),
    }
}

impl IaNaOption {
    /// An IA_NA with the given identifier, no timers and no options.
    pub fn new(iaid: u32) -> (r: Self)
        ensures
            r.iaid == iaid,
            r.t1 == 0,
            r.t2 == 0,
            r.options@.len() == 0,
    {
        IaNaOption { iaid, t1: 0, t2: 0, options: Vec::new() }
    }

    fn encode(&self) -> (r: Result<Vec<u8>>)
        ensures
            agrees(r, payload_bytes(OptionView::IaNa(self.iaid, self.t1, self.t2, views(self.options@)))),
        decreases *self, 0int,
    {
        let mut v: Vec<u8> = Vec::new();
        put_32(&mut v, self.iaid);
        put_32(&mut v, self.t1);
        put_32(&mut v, self.t2);
        let nested = encode_options(self.options.as_slice())?;
        put_bytes(&mut v, nested.as_slice());
        Ok(v)
    }

    fn parse(p: &[u8]) -> (r: Result<IaNaOption>)
        ensures
            match parse_payload_spec(OPTION_IA_NA, p@) {
                Ok(o) => r is Ok && Dhcpv6Option::IaNa(r->Ok_0)@ == o,
                Err(e) => r is Err && r->Err_0.kind() == e,
            },
        decreases p@.len(), 1int,
    {
        if p.len() < 12 {
            return Err(Error::TooShort);
        }
        let iaid = read_32(p, 0);
        let t1 = read_32(p, 4);
        let t2 = read_32(p, 8);
        let options = parse_nested_options(slice_subrange(p, 12, p.len()))?;
        Ok(IaNaOption { iaid, t1, t2, options })
    }
}

impl IaTaOption {
    /// An IA_TA with the given identifier and no options.
    pub fn new(iaid: u32) -> (r: Self)
        ensures
            r.iaid == iaid,
            r.options@.len() == 0,
    {
        IaTaOption { iaid, options: Vec::new() }
    }

    fn encode(&self) -> (r: Result<Vec<u8>>)
        ensures
            agrees(r, payload_bytes(OptionView::IaTa(self.iaid, views(self.options@)))),
        decreases *self, 0int,
    {
        let mut v: Vec<u8> = Vec::new();
        put_32(&mut v, self.iaid);
        let nested = encode_options(self.options.as_slice())?;
        put_bytes(&mut v, nested.as_slice());
        Ok(v)
    }

    fn parse(p: &[u8]) -> (r: Result<IaTaOption>)
        ensures
            match parse_payload_spec(OPTION_IA_TA, p@) {
                Ok(o) => r is Ok && Dhcpv6Option::IaTa(r->Ok_0)@ == o,
                Err(e) => r is Err && r->Err_0.kind() == e,
            },
        decreases p@.len(), 1int,
    {
        if p.len() < 4 {
            return Err(Error::TooShort);
        }
        let iaid = read_32(p, 0);
        let options = parse_nested_options(slice_subrange(p, 4, p.len()))?;
        Ok(IaTaOption { iaid, options })
    }
}

impl IaAddrOption {
    /// An IAADDR for the given address, with zero lifetimes and no options.
    pub fn new(addr: Ipv6Addr) -> (r: Self)
        ensures
            r.addr == addr,
            r.preferred_lifetime == 0,
            r.valid_lifetime == 0,
            r.options@.len() == 0,
    {
        IaAddrOption { addr, preferred_lifetime: 0, valid_lifetime: 0, options: Vec::new() }
    }

    fn encode(&self) -> (r: Result<Vec<u8>>)
        ensures
            agrees(
                r,
                payload_bytes(
                    OptionView::IaAddr(
                        self.addr@,
                        self.preferred_lifetime,
                        self.valid_lifetime,
                        views(self.options@),
                    ),
                ),
            ),
        decreases *self, 0int,
    {
        let mut v: Vec<u8> = Vec::new();
        put_bytes(&mut v, self.addr.octets.as_slice());
        put_32(&mut v, self.preferred_lifetime);
        put_32(&mut v, self.valid_lifetime);
        let nested = encode_options(self.options.as_slice())?;
        put_bytes(&mut v, nested.as_slice());
        Ok(v)
    }

    fn parse(p: &[u8]) -> (r: Result<IaAddrOption>)
        ensures
            match parse_payload_spec(OPTION_IAADDR, p@) {
                Ok(o) => r is Ok && Dhcpv6Option::IaAddr(r->Ok_0)@ == o,
                Err(e) => r is Err && r->Err_0.kind() == e,
            },
        decreases p@.len(), 1int,
    {
        if p.len() < 24 {
            return Err(Error::TooShort);
        }
        let addr = Ipv6Addr::from_slice(p);
        let preferred_lifetime = read_32(p, 16);
        let valid_lifetime = read_32(p, 20);
        let options = parse_nested_options(slice_subrange(p, 24, p.len()))?;
        Ok(IaAddrOption { addr, preferred_lifetime, valid_lifetime, options })
    }
}

impl StatusCodeOption {
    fn encode(&self) -> (r: Vec<u8>)
        ensures
            r@ == u16_be(crate::status_value(self.code) as int) + self.msg@,
    {
        let mut v: Vec<u8> = Vec::new();
        put_16(&mut v, self.code.value());
        put_bytes(&mut v, self.msg.as_slice());
        v
    }
}

impl VendorClassOption {
    fn encode(&self) -> (r: Result<Vec<u8>>)
        ensures
            agrees(r, payload_bytes(OptionView::VendorClass(self.enterprise_number, classes_view(self.data@)))),
    {
        let mut v: Vec<u8> = Vec::new();
        put_32(&mut v, self.enterprise_number);
        encode_class_data(self.data.as_slice(), &mut v)?;
        Ok(v)
    }
}

impl VendorOption {
    fn encode(&self) -> (r: Vec<u8>)
        ensures
            r@ == u32_be(self.enterprise_number as int) + self.data@,
    {
        let mut v: Vec<u8> = Vec::new();
        put_32(&mut v, self.enterprise_number);
        put_bytes(&mut v, self.data.as_slice());
        v
    }
}

/// Reads the options of a nested region, which holds nothing else.
fn parse_nested_options(data: &[u8]) -> (r: Result<Vec<Dhcpv6Option>>)
    ensures
        match parse_options_spec(data@) {
            Ok(s) => r is Ok && views(r->Ok_0@) == s,
            Err(e) => r is Err && r->Err_0.kind() == e,
        },
    decreases data@.len(), 5int,
{
    let mut buf = Buffer::new_from_slice(data);
    assert(buf.bytes().subrange(0, buf.bytes().len() as int) =~= data@);
    parse_options(&mut buf)
}

/// Reads options until the buffer is used up.
pub fn parse_options(buf: &mut Buffer) -> (r: Result<Vec<Dhcpv6Option>>)
    requires
        old(buf).wf(),
    ensures
        final(buf).wf(),
        final(buf).bytes() == old(buf).bytes(),
        match parse_options_spec(old(buf).bytes().subrange(old(buf).pos(), old(buf).bytes().len() as int)) {
            Ok(s) => r is Ok && views(r->Ok_0@) == s && final(buf).pos() == final(buf).bytes().len(),
            Err(e) => r is Err && r->Err_0.kind() == e,
        },
    decreases old(buf).remaining(), 4int,
{
    let ghost d0 = old(buf).bytes().subrange(old(buf).pos(), old(buf).bytes().len() as int);
    let ghost all = old(buf).bytes();
    let mut opts: Vec<Dhcpv6Option> = Vec::new();
    proof {
        lemma_views(opts@);
        old(buf).lemma_bounds();
    }
    assert forall|s: Seq<OptionView>| views(opts@) + s =~= s by {}
    while buf.left() > 0
        invariant
            buf.wf(),
            buf.bytes() == all,
            all == old(buf).bytes(),
            buf.remaining() <= old(buf).remaining(),
            d0 == old(buf).bytes().subrange(old(buf).pos(), old(buf).bytes().len() as int),
            parse_options_spec(d0) == match parse_options_spec(all.subrange(buf.pos(), all.len() as int)) {
                Err(e) => Err(e),
                Ok(rest) => Ok(views(opts@) + rest),
            },
        decreases buf.remaining(),
    {
        proof {
            buf.lemma_bounds();
        }
        let ghost d = all.subrange(buf.pos(), all.len() as int);
        let ghost pos = buf.pos();
        let o = parse_one(buf)?;
        proof {
            buf.lemma_bounds();
        }
        let ghost k = buf.pos() - pos;
        assert(d.subrange(k, d.len() as int) =~= all.subrange(buf.pos(), all.len() as int));
        let ghost before = opts@;
        opts.push(o);
        proof {
            lemma_views(before);
            lemma_views(opts@);
            assert(views(opts@) =~= views(before).push(o@));
            assert forall|s: Seq<OptionView>| views(before) + (seq![o@] + s) =~= views(opts@) + s by {}
        }
    }
    proof {
        buf.lemma_bounds();
    }
    assert(all.subrange(buf.pos(), all.len() as int) =~= Seq::<u8>::empty());
    assert(views(opts@) + Seq::<OptionView>::empty() =~= views(opts@));
    Ok(opts)
}

/// Reads one option: its code, its length, and a payload of that length,
/// which its parser reads in isolation.
fn parse_one(buf: &mut Buffer) -> (r: Result<Dhcpv6Option>)
    requires
        old(buf).wf(),
        old(buf).remaining() > 0,
    ensures
        final(buf).wf(),
        final(buf).bytes() == old(buf).bytes(),
        ({
            let d = old(buf).bytes().subrange(old(buf).pos(), old(buf).bytes().len() as int);
            if d.len() < 4 || 4 + be16(d, 2) > d.len() {
                r is Err && r->Err_0.kind() == ErrorKind::TooShort
            } else {
                match parse_payload_spec(be16(d, 0) as u16, d.subrange(4, 4 + be16(d, 2))) {
                    Ok(o) => r is Ok && r->Ok_0@ == o && final(buf).pos() == old(buf).pos() + 4
                        + be16(d, 2),
                    Err(e) => r is Err && r->Err_0.kind() == e,
                }
            }
        }),
    decreases old(buf).remaining(), 3int,
{
    let ghost d = old(buf).bytes().subrange(old(buf).pos(), old(buf).bytes().len() as int);
    proof {
        old(buf).lemma_bounds();
    }
    assert(d.len() == old(buf).remaining());
    let code = buf.get_16()?;
    assert(code == be16(d, 0));
    let len = buf.get_16()? as usize;
    assert(len == be16(d, 2));
    let payload = buf.get_bytes(len)?;
    assert(payload@ =~= d.subrange(4, 4 + len));
    parse_payload(code, payload.as_slice())
}

/// Reads the option with code `code` from its payload.
fn parse_payload(code: u16, p: &[u8]) -> (r: Result<Dhcpv6Option>)
    ensures
        agrees(r, parse_payload_spec(code, p@)),
    decreases p@.len(), 2int,
{
    if code == OPTION_CLIENTID {
        Ok(Dhcpv6Option::ClientId(Duid::parse(p)?))
    } else if code == OPTION_SERVERID {
        Ok(Dhcpv6Option::ServerId(Duid::parse(p)?))
    } else if code == OPTION_IA_NA {
        Ok(Dhcpv6Option::IaNa(IaNaOption::parse(p)?))
    } else if code == OPTION_IA_TA {
        Ok(Dhcpv6Option::IaTa(IaTaOption::parse(p)?))
    } else if code == OPTION_IAADDR {
        Ok(Dhcpv6Option::IaAddr(IaAddrOption::parse(p)?))
    } else if code == OPTION_ORO {
        let plen = p.len();
        let cnt = plen / 2;
        let mut v: Vec<u16> = Vec::new();
        let mut i: usize = 0;
        while i < cnt
            invariant
                plen == p@.len(),
                cnt == p@.len() / 2,
                i <= cnt,
                v@ == Seq::new(i as nat, |k: int| be16(p@, 2 * k) as u16),
            decreases cnt - i,
        {
            assert(2 * i + 2 <= p@.len()) by (nonlinear_arith)
                requires
                    i < cnt,
                    cnt == p@.len() / 2,
            ;
            v.push(read_16(p, 2 * i));
            i += 1;
            assert(v@ =~= Seq::new(i as nat, |k: int| be16(p@, 2 * k) as u16));
        }
        Ok(Dhcpv6Option::Oro(v))
    } else if code == OPTION_PREFERENCE {
        if p.len() < 1 {
            return Err(Error::TooShort);
        }
        Ok(Dhcpv6Option::Preference(p[0]))
    } else if code == OPTION_ELAPSED_TIME {
        if p.len() < 2 {
            return Err(Error::TooShort);
        }
        Ok(Dhcpv6Option::ElapsedTime(read_16(p, 0)))
    } else if code == OPTION_RELAY_MSG {
        Ok(Dhcpv6Option::RelayMsg(slice_to_vec(p)))
    } else if code == OPTION_AUTH {
        Err(Error::Unimplemented("Authentication option".to_string()))
    } else if code == OPTION_UNICAST {
        if p.len() < 16 {
            return Err(Error::TooShort);
        }
        Ok(Dhcpv6Option::Unicast(Ipv6Addr::from_slice(p)))
    } else if code == OPTION_STATUS_CODE {
        if p.len() < 2 {
            return Err(Error::TooShort);
        }
        let code = match StatusCode::try_from(read_16(p, 0)) {
            Ok(c) => c,
            Err(()) => return Err(Error::BadOption("invalid status code".to_string())),
        };
        Ok(Dhcpv6Option::StatusCode(StatusCodeOption { code, msg: sub_bytes(p, 2, p.len()) }))
    } else if code == OPTION_RAPID_COMMIT {
        Ok(Dhcpv6Option::RapidCommit)
    } else if code == OPTION_USER_CLASS {
        Ok(Dhcpv6Option::UserClass(parse_class_data(p)?))
    } else if code == OPTION_VENDOR_CLASS {
        if p.len() < 4 {
            return Err(Error::TooShort);
        }
        let enterprise_number = read_32(p, 0);
        let data = parse_class_data(slice_subrange(p, 4, p.len()))?;
        Ok(Dhcpv6Option::VendorClass(VendorClassOption { enterprise_number, data }))
    } else if code == OPTION_VENDOR_OPTS {
        if p.len() < 4 {
            return Err(Error::TooShort);
        }
        Ok(
            Dhcpv6Option::VendorOpts(
                VendorOption { enterprise_number: read_32(p, 0), data: sub_bytes(p, 4, p.len()) },
            ),
        )
    } else if code == OPTION_INTERFACE_ID {
        Ok(Dhcpv6Option::InterfaceId(slice_to_vec(p)))
    } else if code == OPTION_RECONF_MSG {
        if p.len() < 1 {
            return Err(Error::TooShort);
        }
        Ok(Dhcpv6Option::ReconfMsg(p[0]))
    } else if code == OPTION_RECONF_ACCEPT {
        Ok(Dhcpv6Option::ReconfAccept)
    } else if code == OPTION_DNS_SERVERS {
        if p.len() % 16 != 0 {
            return Err(Error::TooShort);
        }
        let plen = p.len();
        let cnt = plen / 16;
        let mut v: Vec<Ipv6Addr> = Vec::new();
        let mut i: usize = 0;
        while i < cnt
            invariant
                plen == p@.len(),
                cnt == p@.len() / 16,
                p@.len() % 16 == 0,
                i <= cnt,
                addrs_view(v@) == Seq::new(i as nat, |k: int| p@.subrange(16 * k, 16 * k + 16)),
            decreases cnt - i,
        {
            assert(16 * i + 16 <= p@.len()) by (nonlinear_arith)
                requires
                    i < cnt,
                    cnt == p@.len() / 16,
            ;
            let a = Ipv6Addr::from_slice(slice_subrange(p, 16 * i, 16 * i + 16));
            assert(a@ =~= p@.subrange(16 * i, 16 * i + 16));
            let ghost before = addrs_view(v@);
            v.push(a);
            assert(addrs_view(v@) =~= before.push(a@));
            i += 1;
            assert forall|k: int| 0 <= k < i implies #[trigger] addrs_view(v@)[k] == p@.subrange(
                16 * k,
                16 * k + 16,
            ) by {
                if k < i - 1 {
                    assert(before[k] == p@.subrange(16 * k, 16 * k + 16));
                }
            }
            assert(addrs_view(v@) =~= Seq::new(i as nat, |k: int| p@.subrange(16 * k, 16 * k + 16)));
        }
        Ok(Dhcpv6Option::DnsServers(v))
    } else if code == OPTION_DOMAIN_LIST {
        proof {
            crate::domain::lemma_domain_errors(p@);
        }
        Ok(Dhcpv6Option::DomainList(crate::domain::domain_list_parse(p)?))
    } else {
        Ok(Dhcpv6Option::Other(OtherOption { code, len: p.len(), data: slice_to_vec(p) }))
    }
}

} // verus!
