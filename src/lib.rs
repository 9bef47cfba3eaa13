//! Encoding and decoding of DHCPv6 client/server messages and their options.

use vstd::prelude::*;

use crate::addr::Ipv6Addr;
use crate::buffer::{be24, Buffer};
use crate::options::{option_number, views, Dhcpv6Option, OptionView};
use crate::wire::{option_code, options_bytes, parse_options};

pub mod addr;
pub mod buffer;
pub mod compare;
pub mod domain;
pub mod laws;
pub mod options;
pub mod params;
pub mod roundtrip;
pub mod wire;

verus! {

/// The ways in which decoding or encoding can fail.
#[derive(Debug, PartialEq, Eq, Clone)]
pub enum Error {
    UnknownMsgCode(u8),
    BadOption(String),
    Unimplemented(String),
    TooShort,
    Other(String),
}

/// What kind of failure an `Error` is, without its text.
pub enum ErrorKind {
    UnknownMsgCode(u8),
    BadOption,
    Unimplemented,
    TooShort,
    Other,
}

impl Error {
    pub open spec fn kind(&self) -> ErrorKind {
        match self {
            Error::UnknownMsgCode(c) => ErrorKind::UnknownMsgCode(*c),
            Error::BadOption(_) => ErrorKind::BadOption,
            Error::Unimplemented(_) => ErrorKind::Unimplemented,
            Error::TooShort => ErrorKind::TooShort,
            Error::Other(_) => ErrorKind::Other,
        }
    }
}

pub type Result<T> = core::result::Result<T, Error>;

/// An outcome agrees with a modelled outcome: both succeed with the same
/// value, or both fail with the same kind of error.
pub open spec fn agrees<T: View>(r: Result<T>, s: core::result::Result<T::V, ErrorKind>) -> bool {
    match r {
        Ok(v) => s is Ok && v@ == s->Ok_0,
        Err(e) => s is Err && e.kind() == s->Err_0,
    }
}

} // verus!

verus! {

/// All of the DHCPv6 message types.
#[derive(Debug, Clone, Copy, PartialEq, Eq, Structural)]
pub enum MsgType {
    Solicit,
    Advertise,
    Request,
    Confirm,
    Renew,
    Rebind,
    Reply,
    Release,
    Decline,
    Reconfigure,
    InformationRequest,
    RelayForw,
    RelayRepl,
}

/// The wire code of a message type.
pub open spec fn msg_code(t: MsgType) -> u8 {
    match t {
        MsgType::Solicit => 1,
        MsgType::Advertise => 2,
        MsgType::Request => 3,
        MsgType::Confirm => 4,
        MsgType::Renew => 5,
        MsgType::Rebind => 6,
        MsgType::Reply => 7,
        MsgType::Release => 8,
        MsgType::Decline => 9,
        MsgType::Reconfigure => 10,
        MsgType::InformationRequest => 11,
        MsgType::RelayForw => 12,
        MsgType::RelayRepl => 13,
    }
}

/// The message type with the given wire code, if there is one.
pub open spec fn msg_type_of(code: u8) -> Option<MsgType> {
    if code == 1 {
        Some(MsgType::Solicit)
    } else if code == 2 {
        Some(MsgType::Advertise)
    } else if code == 3 {
        Some(MsgType::Request)
    } else if code == 4 {
        Some(MsgType::Confirm)
    } else if code == 5 {
        Some(MsgType::Renew)
    } else if code == 6 {
        Some(MsgType::Rebind)
    } else if code == 7 {
        Some(MsgType::Reply)
    } else if code == 8 {
        Some(MsgType::Release)
    } else if code == 9 {
        Some(MsgType::Decline)
    } else if code == 10 {
        Some(MsgType::Reconfigure)
    } else if code == 11 {
        Some(MsgType::InformationRequest)
    } else if code == 12 {
        Some(MsgType::RelayForw)
    } else if code == 13 {
        Some(MsgType::RelayRepl)
    } else {
        None
    }
}

/// The name of a message type.
pub open spec fn msg_type_name(t: MsgType) -> &'static str {
    match t {
        MsgType::Solicit => "solicit",
        MsgType::Advertise => "advertise",
        MsgType::Request => "request",
        MsgType::Confirm => "confirm",
        MsgType::Renew => "renew",
        MsgType::Rebind => "rebind",
        MsgType::Reply => "reply",
        MsgType::Release => "release",
        MsgType::Decline => "decline",
        MsgType::Reconfigure => "reconfigure",
        MsgType::InformationRequest => "infoRequest",
        MsgType::RelayForw => "relayForw",
        MsgType::RelayRepl => "relayReply",
    }
}

impl MsgType {
    /// The message type with wire code `code`; `Err(())` for a code that names none.
    pub fn try_from(code: u8) -> (r: core::result::Result<MsgType, ()>)
        ensures
            r is Ok <==> 1 <= code <= 13,
            r is Ok ==> Some(r->Ok_0) == msg_type_of(code) && msg_code(r->Ok_0) == code,
    {
        match code {
            1 => Ok(MsgType::Solicit),
            2 => Ok(MsgType::Advertise),
            3 => Ok(MsgType::Request),
            4 => Ok(MsgType::Confirm),
            5 => Ok(MsgType::Renew),
            6 => Ok(MsgType::Rebind),
            7 => Ok(MsgType::Reply),
            8 => Ok(MsgType::Release),
            9 => Ok(MsgType::Decline),
            10 => Ok(MsgType::Reconfigure),
            11 => Ok(MsgType::InformationRequest),
            12 => Ok(MsgType::RelayForw),
            13 => Ok(MsgType::RelayRepl),
            _ => Err(()),
        }
    }

    /// The name of this message type.
    pub fn name(&self) -> (r: &'static str)
        ensures
            r@ == msg_type_name(*self)@,
    {
        match self {
            MsgType::Solicit => "solicit",
            MsgType::Advertise => "advertise",
            MsgType::Request => "request",
            MsgType::Confirm => "confirm",
            MsgType::Renew => "renew",
            MsgType::Rebind => "rebind",
            MsgType::Reply => "reply",
            MsgType::Release => "release",
            MsgType::Decline => "decline",
            MsgType::Reconfigure => "reconfigure",
            MsgType::InformationRequest => "infoRequest",
            MsgType::RelayForw => "relayForw",
            MsgType::RelayRepl => "relayReply",
        }
    }

    /// The wire code of this message type.
    pub fn code(&self) -> (r: u8)
        ensures
            r == msg_code(*self),
            msg_type_of(r) == Some(*self),
    {
        match self {
            MsgType::Solicit => 1,
            MsgType::Advertise => 2,
            MsgType::Request => 3,
            MsgType::Confirm => 4,
            MsgType::Renew => 5,
            MsgType::Rebind => 6,
            MsgType::Reply => 7,
            MsgType::Release => 8,
            MsgType::Decline => 9,
            MsgType::Reconfigure => 10,
            MsgType::InformationRequest => 11,
            MsgType::RelayForw => 12,
            MsgType::RelayRepl => 13,
        }
    }
}

/// All of the DHCPv6 status codes.
#[derive(Debug, Clone, Copy, PartialEq, Eq, Structural)]
pub enum StatusCode {
    Success,
    UnspecFail,
    NoAddrsAvail,
    NoBinding,
    NotOnLink,
    UseMulticast,
}

/// The wire value of a status code.
pub open spec fn status_value(c: StatusCode) -> u16 {
    match c {
        StatusCode::Success => 0,
        StatusCode::UnspecFail => 1,
        StatusCode::NoAddrsAvail => 2,
        StatusCode::NoBinding => 3,
        StatusCode::NotOnLink => 4,
        StatusCode::UseMulticast => 5,
    }
}

/// The status code with the given wire value, for values up to 5.
pub open spec fn status_of(v: u16) -> StatusCode
    recommends
        v <= 5,
{
    if v == 0 {
        StatusCode::Success
    } else if v == 1 {
        StatusCode::UnspecFail
    } else if v == 2 {
        StatusCode::NoAddrsAvail
    } else if v == 3 {
        StatusCode::NoBinding
    } else if v == 4 {
        StatusCode::NotOnLink
    } else {
        StatusCode::UseMulticast
    }
}

/// The name of a status code.
pub open spec fn status_name(c: StatusCode) -> &'static str {
    match c {
        StatusCode::Success => "Success",
        StatusCode::UnspecFail => "UnspecFail",
        StatusCode::NoAddrsAvail => "noAddrsAvail",
        StatusCode::NoBinding => "NoBinding",
        StatusCode::NotOnLink => "NotOnLink",
        StatusCode::UseMulticast => "UseMulticast",
    }
}

impl StatusCode {
    /// The status code with wire value `code`; `Err(())` for a value above 5.
    pub fn try_from(code: u16) -> (r: core::result::Result<StatusCode, ()>)
        ensures
            r is Ok <==> code <= 5,
            r is Ok ==> r->Ok_0 == status_of(code) && status_value(r->Ok_0) == code,
    {
        match code {
            0 => Ok(StatusCode::Success),
            1 => Ok(StatusCode::UnspecFail),
            2 => Ok(StatusCode::NoAddrsAvail),
            3 => Ok(StatusCode::NoBinding),
            4 => Ok(StatusCode::NotOnLink),
            5 => Ok(StatusCode::UseMulticast),
            _ => Err(()),
        }
    }

    /// The name of this status code.
    pub fn name(&self) -> (r: &'static str)
        ensures
            r@ == status_name(*self)@,
    {
        match self {
            StatusCode::Success => "Success",
            StatusCode::UnspecFail => "UnspecFail",
            StatusCode::NoAddrsAvail => "noAddrsAvail",
            StatusCode::NoBinding => "NoBinding",
            StatusCode::NotOnLink => "NotOnLink",
            StatusCode::UseMulticast => "UseMulticast",
        }
    }

    /// The wire value of this status code.
    pub fn value(&self) -> (r: u16)
        ensures
            r == status_value(*self),
            r <= 5,
            status_of(r) == *self,
    {
        match self {
            StatusCode::Success => 0,
            StatusCode::UnspecFail => 1,
            StatusCode::NoAddrsAvail => 2,
            StatusCode::NoBinding => 3,
            StatusCode::NotOnLink => 4,
            StatusCode::UseMulticast => 5,
        }
    }
}

} // verus!

verus! {

/// RFC-defined parameters governing how frequently, and for how long, a
/// message should be retransmitted before accepting that no one is listening.
#[derive(Debug, Clone, Copy, PartialEq, Eq, Structural)]
pub struct RetransmitParams {
    /// Initial retransmission time
    pub irt: u32,
    /// Maximum retransmission time
    pub mrt: u32,
    /// Maximum retransmission count
    pub mrc: u32,
    /// Maximum retransmission duration
    pub mrd: u32,
}

/// The table of retransmission parameters: none for messages that are not
/// retransmitted.
pub open spec fn retransmit_table(t: MsgType) -> Option<RetransmitParams> {
    match t {
        MsgType::Solicit => Some(
            RetransmitParams { irt: params::SOL_TIMEOUT, mrt: params::SOL_MAX_RT, mrc: 0, mrd: 0 },
        ),
        MsgType::Request => Some(
            RetransmitParams {
                irt: params::REQ_TIMEOUT,
                mrt: params::REQ_MAX_RT,
                mrc: params::REQ_MAX_RC,
                mrd: 0,
            },
        ),
        MsgType::Confirm => Some(
            RetransmitParams {
                irt: params::CNF_TIMEOUT,
                mrt: params::CNF_MAX_RT,
                mrc: 0,
                mrd: params::CNF_MAX_RD,
            },
        ),
        MsgType::Renew => Some(
            RetransmitParams { irt: params::REN_TIMEOUT, mrt: params::REN_MAX_RT, mrc: 0, mrd: 0 },
        ),
        MsgType::Rebind => Some(
            RetransmitParams { irt: params::REB_TIMEOUT, mrt: params::REB_MAX_RT, mrc: 0, mrd: 0 },
        ),
        MsgType::Release => Some(
            RetransmitParams { irt: params::REL_TIMEOUT, mrt: 0, mrc: params::REL_MAX_RC, mrd: 0 },
        ),
        MsgType::Decline => Some(
            RetransmitParams { irt: params::DEC_TIMEOUT, mrt: 0, mrc: params::DEC_MAX_RC, mrd: 0 },
        ),
        MsgType::InformationRequest => Some(
            RetransmitParams { irt: params::INF_TIMEOUT, mrt: params::INF_MAX_RT, mrc: 0, mrd: 0 },
        ),
        _ => None,
    }
}

/// Returns the retransmit parameters for the given message type, or `None`
/// for messages that are not retransmitted. Renew and Rebind have a maximum
/// duration that depends on the lease; it is given here as 0.
pub fn retransmit_params(msg_type: MsgType) -> (r: Option<RetransmitParams>)
    ensures
        r == retransmit_table(msg_type),
{
    match msg_type {
        MsgType::Solicit => Some(
            RetransmitParams { irt: params::SOL_TIMEOUT, mrt: params::SOL_MAX_RT, mrc: 0, mrd: 0 },
        ),
        MsgType::Request => Some(
            RetransmitParams {
                irt: params::REQ_TIMEOUT,
                mrt: params::REQ_MAX_RT,
                mrc: params::REQ_MAX_RC,
                mrd: 0,
            },
        ),
        MsgType::Confirm => Some(
            RetransmitParams {
                irt: params::CNF_TIMEOUT,
                mrt: params::CNF_MAX_RT,
                mrc: 0,
                mrd: params::CNF_MAX_RD,
            },
        ),
        MsgType::Renew => Some(
            RetransmitParams { irt: params::REN_TIMEOUT, mrt: params::REN_MAX_RT, mrc: 0, mrd: 0 },
        ),
        MsgType::Rebind => Some(
            RetransmitParams { irt: params::REB_TIMEOUT, mrt: params::REB_MAX_RT, mrc: 0, mrd: 0 },
        ),
        MsgType::Release => Some(
            RetransmitParams { irt: params::REL_TIMEOUT, mrt: 0, mrc: params::REL_MAX_RC, mrd: 0 },
        ),
        MsgType::Decline => Some(
            RetransmitParams { irt: params::DEC_TIMEOUT, mrt: 0, mrc: params::DEC_MAX_RC, mrd: 0 },
        ),
        MsgType::InformationRequest => Some(
            RetransmitParams { irt: params::INF_TIMEOUT, mrt: params::INF_MAX_RT, mrc: 0, mrd: 0 },
        ),
        _ => None,
    }
}

/// Client-Server DHCPv6 message.
#[derive(Debug, PartialEq)]
pub struct ClientMsg {
    pub msg_type: MsgType,
    pub tx_id: u32,
    pub options: Vec<Dhcpv6Option>,
}

/// The mathematical value of a client-server message.
pub struct MessageView {
    pub msg_type: MsgType,
    pub tx_id: u32,
    pub options: Seq<OptionView>,
}

impl View for ClientMsg {
    type V = MessageView;

    open spec fn view(&self) -> MessageView {
        MessageView { msg_type: self.msg_type, tx_id: self.tx_id, options: views(self.options@) }
    }
}

/// The three bytes of the low 24 bits of a transaction id, high byte first.
pub open spec fn tx_id_bytes(x: u32) -> Seq<u8> {
    seq![((x / 0x10000) % 0x100) as u8, ((x / 0x100) % 0x100) as u8, (x % 0x100) as u8]
}

/// A message on the wire: its type code, its transaction id, its options.
pub open spec fn message_bytes(m: MessageView) -> core::result::Result<Seq<u8>, ErrorKind> {
    match options_bytes(m.options) {
        Err(e) => Err(e),
        Ok(o) => Ok(seq![msg_code(m.msg_type)] + tx_id_bytes(m.tx_id) + o),
    }
}

/// The message that a run of bytes holds: a type code, a 24-bit
/// transaction id, and options until the end.
pub open spec fn parse_message(b: Seq<u8>) -> core::result::Result<MessageView, ErrorKind> {
    if b.len() < 1 {
        Err(ErrorKind::TooShort)
    } else {
        match msg_type_of(b[0]) {
            None => Err(ErrorKind::UnknownMsgCode(b[0])),
            Some(t) => if b.len() < 4 {
                Err(ErrorKind::TooShort)
            } else {
                match parse_options(b.subrange(4, b.len() as int)) {
                    Err(e) => Err(e),
                    Ok(opts) => Ok(MessageView { msg_type: t, tx_id: be24(b, 1) as u32, options: opts }),
                }
            },
        }
    }
}

/// The index of the first option with code `t`, or the length if none has it.
pub open spec fn first_with_code(s: Seq<Dhcpv6Option>, t: u16, k: int) -> int
    decreases s.len() - k,
{
    if k < 0 || k >= s.len() {
        s.len() as int
    } else if option_code(s[k]@) == t {
        k
    } else {
        first_with_code(s, t, k + 1)
    }
}

/// Whether an option has code `t`.
pub open spec fn has_code(t: u16) -> spec_fn(Dhcpv6Option) -> bool {
    |o: Dhcpv6Option| option_code(o@) == t
}

/// Finds the first option of the given type in the option list.
pub fn find_one_option(list: &[Dhcpv6Option], opt_type: u16) -> (r: Option<&Dhcpv6Option>)
    ensures
        first_with_code(list@, opt_type, 0) < list@.len() ==> r == Some(
            &list@[first_with_code(list@, opt_type, 0)],
        ),
        first_with_code(list@, opt_type, 0) >= list@.len() ==> r is None,
{
    let mut i: usize = 0;
    while i < list.len()
        invariant
            i <= list@.len(),
            first_with_code(list@, opt_type, 0) == first_with_code(list@, opt_type, i as int),
        decreases list@.len() - i,
    {
        if option_number(&list[i]) == opt_type {
            return Some(&list[i]);
        }
        i += 1;
    }
    None
}

/// Finds all options of the given type in the option list, in order.
pub fn find_all_options(list: &[Dhcpv6Option], opt_type: u16) -> (r: Vec<&Dhcpv6Option>)
    ensures
        r@.map_values(|o: &Dhcpv6Option| *o) == list@.filter(has_code(opt_type)),
{
    let mut v: Vec<&Dhcpv6Option> = Vec::new();
    let mut i: usize = 0;
    while i < list.len()
        invariant
            i <= list@.len(),
            v@.map_values(|o: &Dhcpv6Option| *o) == list@.subrange(0, i as int).filter(
                has_code(opt_type),
            ),
        decreases list@.len() - i,
    {
        proof {
            list@.subrange(0, i as int).lemma_filter_push(list@[i as int], has_code(opt_type));
            assert(list@.subrange(0, i + 1) =~= list@.subrange(0, i as int).push(list@[i as int]));
        }
        let ghost before = v@;
        if option_number(&list[i]) == opt_type {
            v.push(&list[i]);
            assert(v@.map_values(|o: &Dhcpv6Option| *o) =~= before.map_values(
                |o: &Dhcpv6Option| *o,
            ).push(list@[i as int]));
        }
        i += 1;
    }
    assert(list@.subrange(0, list@.len() as int) =~= list@);
    v
}

/// A transaction id drawn at random. Relies on `rand::random::<u32>`, which
/// may return any `u32`: nothing is promised of its value.
#[verifier::external_body]
fn random_u32() -> (r: u32) {
    rand::random::<u32>()
}

impl ClientMsg {
    /// A message of the given type with no options, whose transaction id is
    /// the low 24 bits of `tx_id`.
    pub fn with_tx_id(msg_type: MsgType, tx_id: u32) -> (r: ClientMsg)
        ensures
            r.msg_type == msg_type,
            r.tx_id == tx_id % 0x1000000,
            r.options@.len() == 0,
    {
        ClientMsg { msg_type, tx_id: tx_id % 0x1000000, options: Vec::new() }
    }

    /// A message of the given type with no options. Its transaction id is the
    /// low 24 bits of `tx_id`, or of a random number where `tx_id` is `None`.
    pub fn new(msg_type: MsgType, tx_id: Option<u32>) -> (r: ClientMsg)
        ensures
            r.msg_type == msg_type,
            r.tx_id < 0x1000000,
            tx_id is Some ==> r.tx_id == tx_id->0 % 0x1000000,
            r.options@.len() == 0,
    {
        let tx_id = match tx_id {
            Some(x) => x,
            None => random_u32(),
        };
        ClientMsg::with_tx_id(msg_type, tx_id)
    }

    /// Decodes a client-server message from its bytes.
    pub fn decode(buf: &[u8]) -> (r: Result<ClientMsg>)
        ensures
            agrees(r, parse_message(buf@)),
    {
        let mut buf = Buffer::new_from_slice(buf);
        let code = buf.get_8()?;
        let msg_type = match MsgType::try_from(code) {
            Ok(t) => t,
            Err(()) => return Err(Error::UnknownMsgCode(code)),
        };
        let tx_id = buf.get_24()?;
        assert(buf.bytes().subrange(4, buf.bytes().len() as int) =~= buf.bytes().subrange(
            buf.pos(),
            buf.bytes().len() as int,
        ));
        let options = crate::options::parse_options(&mut buf)?;
        Ok(ClientMsg { msg_type, tx_id, options })
    }

    /// Encodes the message: type code, transaction id, options.
    pub fn encode(&self) -> (r: Result<Vec<u8>>)
        ensures
            agrees(r, message_bytes(self@)),
    {
        let mut buf: Vec<u8> = Vec::new();
        buf.push(self.msg_type.code());
        buf.push(((self.tx_id / 0x10000) % 0x100) as u8);
        buf.push(((self.tx_id / 0x100) % 0x100) as u8);
        buf.push((self.tx_id % 0x100) as u8);
        let opts = crate::options::encode_options(self.options.as_slice())?;
        let ghost head = buf@;
        buf.extend_from_slice(opts.as_slice());
        assert(head =~= seq![msg_code(self.msg_type)] + tx_id_bytes(self.tx_id));
        assert(buf@ =~= seq![msg_code(self.msg_type)] + tx_id_bytes(self.tx_id) + opts@);
        Ok(buf)
    }

    /// Finds the first option of the given type in the message's option list.
    pub fn find_one_option(&self, opt_type: u16) -> (r: Option<&Dhcpv6Option>)
        ensures
            first_with_code(self.options@, opt_type, 0) < self.options@.len() ==> r == Some(
                &self.options@[first_with_code(self.options@, opt_type, 0)],
            ),
            first_with_code(self.options@, opt_type, 0) >= self.options@.len() ==> r is None,
    {
        find_one_option(self.options.as_slice(), opt_type)
    }

    /// Finds all options of the given type in the message's option list.
    pub fn find_all_options(&self, opt_type: u16) -> (r: Vec<&Dhcpv6Option>)
        ensures
            r@.map_values(|o: &Dhcpv6Option| *o) == self.options@.filter(has_code(opt_type)),
    {
        find_all_options(self.options.as_slice(), opt_type)
    }

    /// Whether the message's option list holds an option of the given type.
    pub fn has_option(&self, opt_type: u16) -> (r: bool)
        ensures
            r == exists|i: int| 0 <= i < self.options@.len() && option_code(#[trigger] self.options@[i]@) == opt_type,
    {
        let mut i: usize = 0;
        while i < self.options.len()
            invariant
                i <= self.options@.len(),
                forall|k: int| 0 <= k < i ==> option_code(#[trigger] self.options@[k]@) != opt_type,
            decreases self.options@.len() - i,
        {
            if option_number(&self.options[i]) == opt_type {
                return true;
            }
            i += 1;
        }
        false
    }
}

/// Relay message. Decoding and encoding it are not implemented.
pub struct RelayMsg {
    pub msg_type: MsgType,
    pub hop_count: u8,
    pub link_addr: Ipv6Addr,
    pub peer_addr: Ipv6Addr,
    pub option: Vec<Dhcpv6Option>,
}

impl RelayMsg {
    /// Always fails: relay messages are not implemented.
    pub fn decode(_buf: &[u8]) -> (r: Result<RelayMsg>)
        ensures
            r is Err && r->Err_0.kind() == ErrorKind::Unimplemented,
    {
        Err(Error::Unimplemented("RelayMsg decode".to_string()))
    }

    /// Always fails: relay messages are not implemented.
    pub fn encode(_msg: &RelayMsg) -> (r: Result<Vec<u8>>)
        ensures
            r is Err && r->Err_0.kind() == ErrorKind::Unimplemented,
    {
        Err(Error::Unimplemented("RelayMsg encode".to_string()))
    }
}

} // verus!
