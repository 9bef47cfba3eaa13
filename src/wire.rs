//! The wire format of options, stated as spec functions: what each option
//! encodes to, and what a run of bytes decodes to.

use vstd::prelude::*;

use crate::buffer::{be16, be32};
use crate::domain::{domains_bytes, parse_domains};
use crate::options::{DuidView, OptionView};
use crate::{status_of, status_value, ErrorKind};

verus! {

/// The two bytes of a 16-bit value, high byte first.
pub open spec fn u16_be(x: int) -> Seq<u8> {
    seq![(x / 0x100) as u8, (x % 0x100) as u8]
}

/// The four bytes of a 32-bit value, high byte first.
pub open spec fn u32_be(x: int) -> Seq<u8> {
    seq![
        (x / 0x1000000) as u8,
        ((x / 0x10000) % 0x100) as u8,
        ((x / 0x100) % 0x100) as u8,
        (x % 0x100) as u8,
    ]
}

/// The code of an option on the wire.
pub open spec fn option_code(o: OptionView) -> u16 {
    match o {
        OptionView::ClientId(_) => 1,
        OptionView::ServerId(_) => 2,
        OptionView::IaNa(..) => 3,
        OptionView::IaTa(..) => 4,
        OptionView::IaAddr(..) => 5,
        OptionView::Oro(_) => 6,
        OptionView::Preference(_) => 7,
        OptionView::ElapsedTime(_) => 8,
        OptionView::RelayMsg(_) => 9,
        OptionView::Auth => 11,
        OptionView::Unicast(_) => 12,
        OptionView::StatusCode(..) => 13,
        OptionView::RapidCommit => 14,
        OptionView::UserClass(_) => 15,
        OptionView::VendorClass(..) => 16,
        OptionView::VendorOpts(..) => 17,
        OptionView::InterfaceId(_) => 18,
        OptionView::ReconfMsg(_) => 19,
        OptionView::ReconfAccept => 20,
        OptionView::DnsServers(_) => 23,
        OptionView::DomainList(_) => 24,
        OptionView::Other(code, _, _) => code,
    }
}

/// The body of a DUID: its type code, then the fields of its kind.
pub open spec fn duid_bytes(d: DuidView) -> Seq<u8> {
    match d {
        DuidView::Llt { type_code, hw_type, time, link_layer } => u16_be(type_code as int) + u16_be(
            hw_type as int,
        ) + u32_be(time as int) + link_layer,
        DuidView::En { type_code, enterprise_code, identifier } => u16_be(type_code as int)
            + u32_be(enterprise_code as int) + identifier,
        DuidView::Ll { type_code, hw_type, link_layer } => u16_be(type_code as int) + u16_be(
            hw_type as int,
        ) + link_layer,
    }
}

/// Each value as two bytes, in order.
pub open spec fn u16s_bytes(s: Seq<u16>) -> Seq<u8>
    decreases s.len(),
{
    if s.len() == 0 {
        Seq::empty()
    } else {
        u16s_bytes(s.drop_last()) + u16_be(s.last() as int)
    }
}

/// Addresses one after another.
pub open spec fn addrs_bytes(s: Seq<Seq<u8>>) -> Seq<u8>
    decreases s.len(),
{
    if s.len() == 0 {
        Seq::empty()
    } else {
        addrs_bytes(s.drop_last()) + s.last()
    }
}

/// Class blocks, each a 16-bit length and its data; `BadOption` where a
/// block's declared length is not that of its data or does not fit 16 bits.
pub open spec fn classes_bytes(s: Seq<(nat, Seq<u8>)>) -> Result<Seq<u8>, ErrorKind>
    decreases s.len(),
{
    if s.len() == 0 {
        Ok(Seq::empty())
    } else {
        match classes_bytes(s.drop_last()) {
            Err(e) => Err(e),
            Ok(b) => {
                let (n, d) = s.last();
                if n != d.len() || n > 0xffff {
                    Err(ErrorKind::BadOption)
                } else {
                    Ok(b + u16_be(n as int) + d)
                }
            },
        }
    }
}

/// The payload of an option, or the error that encoding it meets first.
pub open spec fn payload_bytes(o: OptionView) -> Result<Seq<u8>, ErrorKind>
    decreases o, 0int,
{
    match o {
        OptionView::ClientId(d) => Ok(duid_bytes(d)),
        OptionView::ServerId(d) => Ok(duid_bytes(d)),
        OptionView::IaNa(iaid, t1, t2, opts) => match options_bytes_upto(opts, opts.len() as int) {
            Err(e) => Err(e),
            Ok(b) => Ok(u32_be(iaid as int) + u32_be(t1 as int) + u32_be(t2 as int) + b),
        },
        OptionView::IaTa(iaid, opts) => match options_bytes_upto(opts, opts.len() as int) {
            Err(e) => Err(e),
            Ok(b) => Ok(u32_be(iaid as int) + b),
        },
        OptionView::IaAddr(addr, preferred, valid, opts) => match options_bytes_upto(
            opts,
            opts.len() as int,
        ) {
            Err(e) => Err(e),
            Ok(b) => Ok(addr + u32_be(preferred as int) + u32_be(valid as int) + b),
        },
        OptionView::Oro(codes) => Ok(u16s_bytes(codes)),
        OptionView::Preference(p) => Ok(seq![p]),
        OptionView::ElapsedTime(t) => Ok(u16_be(t as int)),
        OptionView::RelayMsg(m) => Ok(m),
        OptionView::Auth => Err(ErrorKind::Unimplemented),
        OptionView::Unicast(a) => Ok(a),
        OptionView::StatusCode(code, msg) => Ok(u16_be(status_value(code) as int) + msg),
        OptionView::RapidCommit => Ok(Seq::empty()),
        OptionView::UserClass(classes) => classes_bytes(classes),
        OptionView::VendorClass(en, classes) => match classes_bytes(classes) {
            Err(e) => Err(e),
            Ok(b) => Ok(u32_be(en as int) + b),
        },
        OptionView::VendorOpts(en, data) => Ok(u32_be(en as int) + data),
        OptionView::InterfaceId(id) => Ok(id),
        OptionView::ReconfMsg(m) => Ok(seq![m]),
        OptionView::ReconfAccept => Ok(Seq::empty()),
        OptionView::DnsServers(addrs) => Ok(addrs_bytes(addrs)),
        OptionView::DomainList(names) => domains_bytes(names),
        OptionView::Other(_, _, data) => Ok(data),
    }
}

/// An option as code, length and payload; `BadOption` where the payload does
/// not fit the 16-bit length.
pub open spec fn option_bytes(o: OptionView) -> Result<Seq<u8>, ErrorKind>
    decreases o, 1int,
{
    match payload_bytes(o) {
        Err(e) => Err(e),
        Ok(p) => if p.len() > 0xffff {
            Err(ErrorKind::BadOption)
        } else {
            Ok(u16_be(option_code(o) as int) + u16_be(p.len() as int) + p)
        },
    }
}

/// The first `n` options one after another, or the first error.
pub open spec fn options_bytes_upto(s: Seq<OptionView>, n: int) -> Result<Seq<u8>, ErrorKind>
    decreases s, n,
{
    if n <= 0 || n > s.len() {
        Ok(Seq::empty())
    } else {
        match options_bytes_upto(s, n - 1) {
            Err(e) => Err(e),
            Ok(b) => match option_bytes(s[n - 1]) {
                Err(e) => Err(e),
                Ok(c) => Ok(b + c),
            },
        }
    }
}

/// All options one after another, in order, or the first error.
pub open spec fn options_bytes(s: Seq<OptionView>) -> Result<Seq<u8>, ErrorKind> {
    options_bytes_upto(s, s.len() as int)
}

/// A DUID read from an option's payload.
pub open spec fn parse_duid(p: Seq<u8>) -> Result<DuidView, ErrorKind> {
    if p.len() < 2 {
        Err(ErrorKind::TooShort)
    } else if p.len() - 2 > 128 {
        Err(ErrorKind::BadOption)
    } else {
        let t = be16(p, 0);
        if t == 1 {
            if p.len() - 2 < 7 {
                Err(ErrorKind::TooShort)
            } else {
                Ok(
                    DuidView::Llt {
                        type_code: 1,
                        hw_type: be16(p, 2) as u16,
                        time: be32(p, 4) as u32,
                        link_layer: p.subrange(8, p.len() as int),
                    },
                )
            }
        } else if t == 2 {
            if p.len() - 2 < 5 {
                Err(ErrorKind::TooShort)
            } else {
                Ok(
                    DuidView::En {
                        type_code: 2,
                        enterprise_code: be32(p, 2) as u32,
                        identifier: p.subrange(6, p.len() as int),
                    },
                )
            }
        } else if t == 3 {
            if p.len() - 2 < 3 {
                Err(ErrorKind::TooShort)
            } else {
                Ok(
                    DuidView::Ll {
                        type_code: 3,
                        hw_type: be16(p, 2) as u16,
                        link_layer: p.subrange(4, p.len() as int),
                    },
                )
            }
        } else {
            Err(ErrorKind::BadOption)
        }
    }
}

/// Class blocks read from a payload, each a 16-bit length and its data.
pub open spec fn parse_classes(p: Seq<u8>) -> Result<Seq<(nat, Seq<u8>)>, ErrorKind>
    decreases p.len(),
{
    if p.len() == 0 {
        Ok(Seq::empty())
    } else if p.len() < 2 {
        Err(ErrorKind::TooShort)
    } else {
        let n = be16(p, 0);
        if 2 + n > p.len() {
            Err(ErrorKind::TooShort)
        } else {
            match parse_classes(p.subrange(2 + n, p.len() as int)) {
                Err(e) => Err(e),
                Ok(rest) => Ok(seq![(n as nat, p.subrange(2, 2 + n))] + rest),
            }
        }
    }
}

/// The option with code `code` whose payload is `p`.
pub open spec fn parse_payload(code: u16, p: Seq<u8>) -> Result<OptionView, ErrorKind>
    decreases p.len(), 0int,
{
    if code == 1 || code == 2 {
        match parse_duid(p) {
            Err(e) => Err(e),
            Ok(d) => Ok(if code == 1 { OptionView::ClientId(d) } else { OptionView::ServerId(d) }),
        }
    } else if code == 3 {
        if p.len() < 12 {
            Err(ErrorKind::TooShort)
        } else {
            match parse_options(p.subrange(12, p.len() as int)) {
                Err(e) => Err(e),
                Ok(opts) => Ok(
                    OptionView::IaNa(be32(p, 0) as u32, be32(p, 4) as u32, be32(p, 8) as u32, opts),
                ),
            }
        }
    } else if code == 4 {
        if p.len() < 4 {
            Err(ErrorKind::TooShort)
        } else {
            match parse_options(p.subrange(4, p.len() as int)) {
                Err(e) => Err(e),
                Ok(opts) => Ok(OptionView::IaTa(be32(p, 0) as u32, opts)),
            }
        }
    } else if code == 5 {
        if p.len() < 24 {
            Err(ErrorKind::TooShort)
        } else {
            match parse_options(p.subrange(24, p.len() as int)) {
                Err(e) => Err(e),
                Ok(opts) => Ok(
                    OptionView::IaAddr(
                        p.subrange(0, 16),
                        be32(p, 16) as u32,
                        be32(p, 20) as u32,
                        opts,
                    ),
                ),
            }
        }
    } else if code == 6 {
        Ok(OptionView::Oro(Seq::new(p.len() / 2, |i: int| be16(p, 2 * i) as u16)))
    } else if code == 7 {
        if p.len() < 1 {
            Err(ErrorKind::TooShort)
        } else {
            Ok(OptionView::Preference(p[0]))
        }
    } else if code == 8 {
        if p.len() < 2 {
            Err(ErrorKind::TooShort)
        } else {
            Ok(OptionView::ElapsedTime(be16(p, 0) as u16))
        }
    } else if code == 9 {
        Ok(OptionView::RelayMsg(p))
    } else if code == 11 {
        Err(ErrorKind::Unimplemented)
    } else if code == 12 {
        if p.len() < 16 {
            Err(ErrorKind::TooShort)
        } else {
            Ok(OptionView::Unicast(p.subrange(0, 16)))
        }
    } else if code == 13 {
        if p.len() < 2 {
            Err(ErrorKind::TooShort)
        } else if be16(p, 0) > 5 {
            Err(ErrorKind::BadOption)
        } else {
            Ok(OptionView::StatusCode(status_of(be16(p, 0) as u16), p.subrange(2, p.len() as int)))
        }
    } else if code == 14 {
        Ok(OptionView::RapidCommit)
    } else if code == 15 {
        match parse_classes(p) {
            Err(e) => Err(e),
            Ok(c) => Ok(OptionView::UserClass(c)),
        }
    } else if code == 16 {
        if p.len() < 4 {
            Err(ErrorKind::TooShort)
        } else {
            match parse_classes(p.subrange(4, p.len() as int)) {
                Err(e) => Err(e),
                Ok(c) => Ok(OptionView::VendorClass(be32(p, 0) as u32, c)),
            }
        }
    } else if code == 17 {
        if p.len() < 4 {
            Err(ErrorKind::TooShort)
        } else {
            Ok(OptionView::VendorOpts(be32(p, 0) as u32, p.subrange(4, p.len() as int)))
        }
    } else if code == 18 {
        Ok(OptionView::InterfaceId(p))
    } else if code == 19 {
        if p.len() < 1 {
            Err(ErrorKind::TooShort)
        } else {
            Ok(OptionView::ReconfMsg(p[0]))
        }
    } else if code == 20 {
        Ok(OptionView::ReconfAccept)
    } else if code == 23 {
        if p.len() % 16 != 0 {
            Err(ErrorKind::TooShort)
        } else {
            Ok(
                OptionView::DnsServers(
                    Seq::new(p.len() / 16, |i: int| p.subrange(16 * i, 16 * i + 16)),
                ),
            )
        }
    } else if code == 24 {
        match parse_domains(p) {
            Err(e) => Err(e),
            Ok(names) => Ok(OptionView::DomainList(names)),
        }
    } else {
        Ok(OptionView::Other(code, p.len(), p))
    }
}

/// A run of options, each a 16-bit code, a 16-bit length and that many
/// bytes of payload, until the bytes are used up.
pub open spec fn parse_options(d: Seq<u8>) -> Result<Seq<OptionView>, ErrorKind>
    decreases d.len(), 1int,
{
    if d.len() == 0 {
        Ok(Seq::empty())
    } else if d.len() < 4 {
        Err(ErrorKind::TooShort)
    } else {
        let len = be16(d, 2);
        if 4 + len > d.len() {
            Err(ErrorKind::TooShort)
        } else {
            match parse_payload(be16(d, 0) as u16, d.subrange(4, 4 + len)) {
                Err(e) => Err(e),
                Ok(o) => match parse_options(d.subrange(4 + len, d.len() as int)) {
                    Err(e) => Err(e),
                    Ok(rest) => Ok(seq![o] + rest),
                },
            }
        }
    }
}

} // verus!
