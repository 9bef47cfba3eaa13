//! Decoding what was encoded gives back the same value.

use vstd::prelude::*;

use crate::buffer::{be16, be24, be32};
use crate::options::{DuidView, OptionView};
use crate::wire::{
    classes_bytes, parse_classes, option_bytes, option_code, options_bytes, options_bytes_upto, parse_options, parse_payload,
    payload_bytes, u16_be, u32_be,
};
use crate::compare::options_match;
use crate::{message_bytes, msg_code, msg_type_of, parse_message, ErrorKind, MessageView, MsgType};

verus! {

/// The two bytes of `u16_be(x)` at `i` read back as `x`.
pub proof fn lemma_u16_at(x: int, s: Seq<u8>, i: int)
    requires
        0 <= x <= 0xffff,
        0 <= i,
        i + 2 <= s.len(),
        s.subrange(i, i + 2) == u16_be(x),
    ensures
        be16(s, i) == x,
{
    assert(s[i] == s.subrange(i, i + 2)[0]);
    assert(s[i + 1] == s.subrange(i, i + 2)[1]);
}

/// The four bytes of `u32_be(x)` at `i` read back as `x`.
pub proof fn lemma_u32_at(x: int, s: Seq<u8>, i: int)
    requires
        0 <= x <= 0xffff_ffff,
        0 <= i,
        i + 4 <= s.len(),
        s.subrange(i, i + 4) == u32_be(x),
    ensures
        be32(s, i) == x,
{
    let w = s.subrange(i, i + 4);
    assert(s[i] == w[0] && s[i + 1] == w[1] && s[i + 2] == w[2] && s[i + 3] == w[3]);
    let y = x as u32;
    assert(((y / 0x1000000) as u8) as u32 * 0x1000000 + (((y / 0x10000) % 0x100) as u8) as u32
        * 0x10000 + (((y / 0x100) % 0x100) as u8) as u32 * 0x100 + ((y % 0x100) as u8) as u32 == y)
        by (bit_vector);
}

/// Encoding all options that encode: the sequence encodes, and its bytes
/// are the first option's bytes followed by the rest's.
pub proof fn lemma_options_bytes_cons(s: Seq<OptionView>)
    requires
        s.len() > 0,
        options_bytes(s) is Ok,
    ensures
        option_bytes(s[0]) is Ok,
        options_bytes(s.drop_first()) is Ok,
        options_bytes(s)->Ok_0 == option_bytes(s[0])->Ok_0 + options_bytes(s.drop_first())->Ok_0,
{
    lemma_upto_cons(s, s.len() as int);
}

proof fn lemma_upto_cons(s: Seq<OptionView>, n: int)
    requires
        1 <= n <= s.len(),
        options_bytes_upto(s, n) is Ok,
    ensures
        option_bytes(s[0]) is Ok,
        options_bytes_upto(s.drop_first(), n - 1) is Ok,
        options_bytes_upto(s, n)->Ok_0 == option_bytes(s[0])->Ok_0 + options_bytes_upto(
            s.drop_first(),
            n - 1,
        )->Ok_0,
    decreases n,
{
    if n == 1 {
        assert(options_bytes_upto(s, 0) == Ok::<Seq<u8>, ErrorKind>(Seq::empty()));
        assert(option_bytes(s[0])->Ok_0 + Seq::<u8>::empty() =~= option_bytes(s[0])->Ok_0);
        assert(Seq::<u8>::empty() + option_bytes(s[0])->Ok_0 =~= option_bytes(s[0])->Ok_0);
    } else {
        lemma_upto_cons(s, n - 1);
        assert(s.drop_first()[n - 2] == s[n - 1]);
        let a = option_bytes(s[0])->Ok_0;
        let b = options_bytes_upto(s.drop_first(), n - 2)->Ok_0;
        let c = option_bytes(s[n - 1])->Ok_0;
        assert(a + b + c =~= a + (b + c));
    }
}

/// Options that each encode, encode together.
pub proof fn lemma_options_bytes_ok(s: Seq<OptionView>, n: int)
    requires
        0 <= n <= s.len(),
        forall|i: int| 0 <= i < n ==> #[trigger] option_bytes(s[i]) is Ok,
    ensures
        options_bytes_upto(s, n) is Ok,
    decreases n,
{
    if n > 0 {
        lemma_options_bytes_ok(s, n - 1);
        assert(option_bytes(s[n - 1]) is Ok);
    }
}

/// Reading an option that decodes to `o`, followed by more bytes.
pub proof fn lemma_parse_cons(o: OptionView, rest: Seq<u8>)
    requires
        option_bytes(o) is Ok,
        parse_payload(option_code(o), payload_bytes(o)->Ok_0) == Ok::<OptionView, ErrorKind>(o),
    ensures
        parse_options(option_bytes(o)->Ok_0 + rest) == match parse_options(rest) {
            Err(e) => Err(e),
            Ok(t) => Ok::<Seq<OptionView>, ErrorKind>(seq![o] + t),
        },
{
    let p = payload_bytes(o)->Ok_0;
    let d = option_bytes(o)->Ok_0 + rest;
    assert(d.subrange(0, 2) =~= u16_be(option_code(o) as int));
    assert(d.subrange(2, 4) =~= u16_be(p.len() as int));
    lemma_u16_at(option_code(o) as int, d, 0);
    lemma_u16_at(p.len() as int, d, 2);
    assert(d.subrange(4, 4 + p.len() as int) =~= p);
    assert(d.subrange(4 + p.len() as int, d.len() as int) =~= rest);
}

/// A DUID as the parser gives it back: its type code matches its kind, and
/// its address or identifier holds between 1 and the kind's bound of bytes.
pub open spec fn wf_duid(d: DuidView) -> bool {
    match d {
        DuidView::Llt { type_code, link_layer, .. } => type_code == 1 && 1 <= link_layer.len()
            <= 120,
        DuidView::En { type_code, identifier, .. } => type_code == 2 && 1 <= identifier.len()
            <= 120,
        DuidView::Ll { type_code, link_layer, .. } => type_code == 3 && 1 <= link_layer.len()
            <= 124,
    }
}

/// A well-formed option: it encodes, and its fields take only values that
/// the parser can give back.
pub open spec fn wf_option(o: OptionView) -> bool
    decreases o, 1int,
{
    &&& option_bytes(o) is Ok
    &&& match o {
        OptionView::ClientId(d) => wf_duid(d),
        OptionView::ServerId(d) => wf_duid(d),
        OptionView::IaNa(_, _, _, xs) => wf_options(xs),
        OptionView::IaTa(_, xs) => wf_options(xs),
        OptionView::IaAddr(a, _, _, xs) => a.len() == 16 && wf_options(xs),
        OptionView::Unicast(a) => a.len() == 16,
        OptionView::DnsServers(addrs) => forall|i: int|
            0 <= i < addrs.len() ==> (#[trigger] addrs[i]).len() == 16,
        OptionView::DomainList(names) => forall|i: int|
            0 <= i < names.len() ==> crate::domain::wf_name(#[trigger] names[i]),
        OptionView::Other(code, len, data) => crate::laws::is_unassigned(code) && len
            == data.len(),
        _ => true,
    }
}

/// Every option of the sequence is well-formed.
pub open spec fn wf_options(xs: Seq<OptionView>) -> bool
    decreases xs, 0int,
{
    forall|i: int| 0 <= i < xs.len() ==> wf_option(#[trigger] xs[i])
}

proof fn lemma_duid_roundtrip(d: DuidView)
    requires
        wf_duid(d),
    ensures
        crate::wire::parse_duid(crate::wire::duid_bytes(d)) == Ok::<DuidView, ErrorKind>(d),
{
    let p = crate::wire::duid_bytes(d);
    match d {
        DuidView::Llt { type_code, hw_type, time, link_layer } => {
            assert(p.subrange(0, 2) =~= u16_be(type_code as int));
            assert(p.subrange(2, 4) =~= u16_be(hw_type as int));
            assert(p.subrange(4, 8) =~= u32_be(time as int));
            assert(p.subrange(8, p.len() as int) =~= link_layer);
            lemma_u16_at(type_code as int, p, 0);
            lemma_u16_at(hw_type as int, p, 2);
            lemma_u32_at(time as int, p, 4);
        },
        DuidView::En { type_code, enterprise_code, identifier } => {
            assert(p.subrange(0, 2) =~= u16_be(type_code as int));
            assert(p.subrange(2, 6) =~= u32_be(enterprise_code as int));
            assert(p.subrange(6, p.len() as int) =~= identifier);
            lemma_u16_at(type_code as int, p, 0);
            lemma_u32_at(enterprise_code as int, p, 2);
        },
        DuidView::Ll { type_code, hw_type, link_layer } => {
            assert(p.subrange(0, 2) =~= u16_be(type_code as int));
            assert(p.subrange(2, 4) =~= u16_be(hw_type as int));
            assert(p.subrange(4, p.len() as int) =~= link_layer);
            lemma_u16_at(type_code as int, p, 0);
            lemma_u16_at(hw_type as int, p, 2);
        },
    }
}

proof fn lemma_u16s(c: Seq<u16>)
    ensures
        crate::wire::u16s_bytes(c).len() == 2 * c.len(),
        forall|i: int|
            0 <= i < c.len() ==> be16(crate::wire::u16s_bytes(c), 2 * i) == #[trigger] c[i],
    decreases c.len(),
{
    if c.len() > 0 {
        let c0 = c.drop_last();
        lemma_u16s(c0);
        let b0 = crate::wire::u16s_bytes(c0);
        let b = crate::wire::u16s_bytes(c);
        let m: int = 2 * c0.len() as int;
        assert(b.subrange(m, m + 2) =~= u16_be(c.last() as int));
        lemma_u16_at(c.last() as int, b, m);
        assert forall|i: int| 0 <= i < c.len() implies be16(b, 2 * i) == #[trigger] c[i] by {
            if i < c0.len() {
                assert(b[2 * i] == b0[2 * i] && b[2 * i + 1] == b0[2 * i + 1]);
                assert(c0[i] == c[i]);
            }
        }
    }
}

proof fn lemma_addrs(a: Seq<Seq<u8>>)
    requires
        forall|i: int| 0 <= i < a.len() ==> (#[trigger] a[i]).len() == 16,
    ensures
        crate::wire::addrs_bytes(a).len() == 16 * a.len(),
        forall|i: int|
            0 <= i < a.len() ==> crate::wire::addrs_bytes(a).subrange(16 * i, 16 * i + 16)
                == #[trigger] a[i],
    decreases a.len(),
{
    if a.len() > 0 {
        let a0 = a.drop_last();
        assert forall|i: int| 0 <= i < a0.len() implies (#[trigger] a0[i]).len() == 16 by {
            assert(a0[i] == a[i]);
        }
        lemma_addrs(a0);
        let b0 = crate::wire::addrs_bytes(a0);
        let b = crate::wire::addrs_bytes(a);
        assert forall|i: int| 0 <= i < a.len() implies b.subrange(16 * i, 16 * i + 16)
            == #[trigger] a[i] by {
            if i < a0.len() {
                assert(b.subrange(16 * i, 16 * i + 16) =~= b0.subrange(16 * i, 16 * i + 16));
                assert(a0[i] == a[i]);
            } else {
                assert(b.subrange(16 * i, 16 * i + 16) =~= a.last());
            }
        }
    }
}

#[verifier::rlimit(50)]
proof fn lemma_iana_roundtrip(iaid: u32, t1: u32, t2: u32, xs: Seq<OptionView>)
    requires
        wf_options(xs),
        option_bytes(OptionView::IaNa(iaid, t1, t2, xs)) is Ok,
    ensures
        parse_payload(3, payload_bytes(OptionView::IaNa(iaid, t1, t2, xs))->Ok_0) == Ok::<
            OptionView,
            ErrorKind,
        >(OptionView::IaNa(iaid, t1, t2, xs)),
    decreases xs, xs.len() + 1,
{
    let p = payload_bytes(OptionView::IaNa(iaid, t1, t2, xs))->Ok_0;
    lemma_options_roundtrip(xs, 0);
    assert(xs.subrange(0, xs.len() as int) =~= xs);
    assert(p.subrange(0, 4) =~= u32_be(iaid as int));
    assert(p.subrange(4, 8) =~= u32_be(t1 as int));
    assert(p.subrange(8, 12) =~= u32_be(t2 as int));
    assert(p.subrange(12, p.len() as int) =~= options_bytes(xs)->Ok_0);
    lemma_u32_at(iaid as int, p, 0);
    lemma_u32_at(t1 as int, p, 4);
    lemma_u32_at(t2 as int, p, 8);
}

#[verifier::rlimit(50)]
proof fn lemma_iata_roundtrip(iaid: u32, xs: Seq<OptionView>)
    requires
        wf_options(xs),
        option_bytes(OptionView::IaTa(iaid, xs)) is Ok,
    ensures
        parse_payload(4, payload_bytes(OptionView::IaTa(iaid, xs))->Ok_0) == Ok::<
            OptionView,
            ErrorKind,
        >(OptionView::IaTa(iaid, xs)),
    decreases xs, xs.len() + 1,
{
    let p = payload_bytes(OptionView::IaTa(iaid, xs))->Ok_0;
    lemma_options_roundtrip(xs, 0);
    assert(xs.subrange(0, xs.len() as int) =~= xs);
    assert(p.subrange(0, 4) =~= u32_be(iaid as int));
    assert(p.subrange(4, p.len() as int) =~= options_bytes(xs)->Ok_0);
    lemma_u32_at(iaid as int, p, 0);
}

#[verifier::rlimit(50)]
proof fn lemma_iaaddr_roundtrip(a: Seq<u8>, pl: u32, vl: u32, xs: Seq<OptionView>)
    requires
        wf_options(xs),
        a.len() == 16,
        option_bytes(OptionView::IaAddr(a, pl, vl, xs)) is Ok,
    ensures
        parse_payload(5, payload_bytes(OptionView::IaAddr(a, pl, vl, xs))->Ok_0) == Ok::<
            OptionView,
            ErrorKind,
        >(OptionView::IaAddr(a, pl, vl, xs)),
    decreases xs, xs.len() + 1,
{
    let p = payload_bytes(OptionView::IaAddr(a, pl, vl, xs))->Ok_0;
    lemma_options_roundtrip(xs, 0);
    assert(xs.subrange(0, xs.len() as int) =~= xs);
    assert(p.subrange(0, 16) =~= a);
    assert(p.subrange(16, 20) =~= u32_be(pl as int));
    assert(p.subrange(20, 24) =~= u32_be(vl as int));
    assert(p.subrange(24, p.len() as int) =~= options_bytes(xs)->Ok_0);
    lemma_u32_at(pl as int, p, 16);
    lemma_u32_at(vl as int, p, 20);
}

proof fn lemma_classes_bytes_cons(cs: Seq<(nat, Seq<u8>)>)
    requires
        cs.len() > 0,
        classes_bytes(cs) is Ok,
    ensures
        cs[0].0 == cs[0].1.len() <= 0xffff,
        classes_bytes(cs.drop_first()) is Ok,
        classes_bytes(cs)->Ok_0 == u16_be(cs[0].0 as int) + cs[0].1 + classes_bytes(
            cs.drop_first(),
        )->Ok_0,
    decreases cs.len(),
{
    if cs.len() == 1 {
        assert(cs.drop_last() =~= Seq::<(nat, Seq<u8>)>::empty());
        assert(cs.drop_first() =~= Seq::<(nat, Seq<u8>)>::empty());
        assert(Seq::<u8>::empty() + u16_be(cs[0].0 as int) + cs[0].1 =~= u16_be(cs[0].0 as int)
            + cs[0].1 + Seq::<u8>::empty());
    } else {
        lemma_classes_bytes_cons(cs.drop_last());
        assert(cs.drop_first().drop_last() =~= cs.drop_last().drop_first());
        assert(cs.drop_first().last() == cs.last());
        let a = u16_be(cs[0].0 as int) + cs[0].1;
        let b = classes_bytes(cs.drop_last().drop_first())->Ok_0;
        let c = u16_be(cs.last().0 as int) + cs.last().1;
        assert(a + b + u16_be(cs.last().0 as int) + cs.last().1 =~= a + (b + u16_be(
            cs.last().0 as int,
        ) + cs.last().1));
    }
}

proof fn lemma_classes_roundtrip(cs: Seq<(nat, Seq<u8>)>)
    requires
        classes_bytes(cs) is Ok,
    ensures
        parse_classes(classes_bytes(cs)->Ok_0) == Ok::<Seq<(nat, Seq<u8>)>, ErrorKind>(cs),
    decreases cs.len(),
{
    if cs.len() == 0 {
        assert(classes_bytes(cs) == Ok::<Seq<u8>, ErrorKind>(Seq::empty()));
        assert(cs =~= Seq::<(nat, Seq<u8>)>::empty());
    } else {
        lemma_classes_bytes_cons(cs);
        lemma_classes_roundtrip(cs.drop_first());
        let (n, d) = cs[0];
        let rest = classes_bytes(cs.drop_first())->Ok_0;
        let p = classes_bytes(cs)->Ok_0;
        assert(p.subrange(0, 2) =~= u16_be(n as int));
        lemma_u16_at(n as int, p, 0);
        assert(p.subrange(2, 2 + n as int) =~= d);
        assert(p.subrange(2 + n as int, p.len() as int) =~= rest);
        assert(seq![(n, d)] + cs.drop_first() =~= cs);
        assert(parse_classes(rest) == Ok::<Seq<(nat, Seq<u8>)>, ErrorKind>(cs.drop_first()));
        assert(p.len() >= 2 && be16(p, 0) == n && 2 + n <= p.len());
    }
}

proof fn lemma_scalar_roundtrip(o: OptionView)
    requires
        wf_option(o),
        !(o is IaNa || o is IaTa || o is IaAddr || o is ClientId || o is ServerId),
    ensures
        parse_payload(option_code(o), payload_bytes(o)->Ok_0) == Ok::<OptionView, ErrorKind>(o),
{
    let p = payload_bytes(o)->Ok_0;
    match o {
        OptionView::Oro(c) => {
            lemma_u16s(c);
            assert(Seq::new(p.len() / 2, |i: int| be16(p, 2 * i) as u16) =~= c);
        },
        OptionView::ElapsedTime(t) => {
            assert(p.subrange(0, 2) =~= u16_be(t as int));
            lemma_u16_at(t as int, p, 0);
        },
        OptionView::Unicast(a) => {
            assert(p.subrange(0, 16) =~= a);
        },
        OptionView::StatusCode(c, msg) => {
            assert(p.subrange(0, 2) =~= u16_be(crate::status_value(c) as int));
            lemma_u16_at(crate::status_value(c) as int, p, 0);
            assert(p.subrange(2, p.len() as int) =~= msg);
        },
        OptionView::VendorOpts(en, data) => {
            assert(p.subrange(0, 4) =~= u32_be(en as int));
            lemma_u32_at(en as int, p, 0);
            assert(p.subrange(4, p.len() as int) =~= data);
        },
        OptionView::UserClass(cs) => {
            lemma_classes_roundtrip(cs);
        },
        OptionView::VendorClass(en, cs) => {
            lemma_classes_roundtrip(cs);
            assert(p.subrange(0, 4) =~= u32_be(en as int));
            lemma_u32_at(en as int, p, 0);
            assert(p.subrange(4, p.len() as int) =~= classes_bytes(cs)->Ok_0);
        },
        OptionView::DomainList(names) => {
            crate::domain::lemma_domains_roundtrip(names);
        },
        OptionView::DnsServers(addrs) => {
            lemma_addrs(addrs);
            assert(Seq::new(p.len() / 16, |i: int| p.subrange(16 * i, 16 * i + 16)) =~= addrs);
        },
        _ => {},
    }
}

/// A well-formed option decodes from its payload to itself.
pub proof fn lemma_option_roundtrip(o: OptionView)
    requires
        wf_option(o),
    ensures
        parse_payload(option_code(o), payload_bytes(o)->Ok_0) == Ok::<OptionView, ErrorKind>(o),
    decreases o, 0int,
{
    match o {
        OptionView::ClientId(d) => lemma_duid_roundtrip(d),
        OptionView::ServerId(d) => lemma_duid_roundtrip(d),
        OptionView::IaNa(iaid, t1, t2, xs) => lemma_iana_roundtrip(iaid, t1, t2, xs),
        OptionView::IaTa(iaid, xs) => lemma_iata_roundtrip(iaid, xs),
        OptionView::IaAddr(a, pl, vl, xs) => lemma_iaaddr_roundtrip(a, pl, vl, xs),
        _ => lemma_scalar_roundtrip(o),
    }
}

/// The well-formed options from index `k` on encode, and decode back to
/// themselves.
pub proof fn lemma_options_roundtrip(xs: Seq<OptionView>, k: int)
    requires
        wf_options(xs),
        0 <= k <= xs.len(),
    ensures
        options_bytes(xs.subrange(k, xs.len() as int)) is Ok,
        parse_options(options_bytes(xs.subrange(k, xs.len() as int))->Ok_0) == Ok::<
            Seq<OptionView>,
            ErrorKind,
        >(xs.subrange(k, xs.len() as int)),
    decreases xs, xs.len() - k,
{
    let s = xs.subrange(k, xs.len() as int);
    assert forall|i: int| 0 <= i < s.len() implies #[trigger] option_bytes(s[i]) is Ok by {
        assert(wf_option(xs[k + i]));
    }
    lemma_options_bytes_ok(s, s.len() as int);
    if k < xs.len() {
        assert(wf_option(xs[k]));
        lemma_option_roundtrip(xs[k]);
        lemma_options_roundtrip(xs, k + 1);
        lemma_options_bytes_cons(s);
        assert(s.drop_first() =~= xs.subrange(k + 1, xs.len() as int));
        assert(s[0] == xs[k]);
        lemma_parse_cons(xs[k], options_bytes(s.drop_first())->Ok_0);
        assert(options_bytes(s)->Ok_0 == option_bytes(xs[k])->Ok_0 + options_bytes(
            xs.subrange(k + 1, xs.len() as int),
        )->Ok_0);
        assert(seq![xs[k]] + xs.subrange(k + 1, xs.len() as int) =~= s);
        let rest = options_bytes(xs.subrange(k + 1, xs.len() as int))->Ok_0;
        assert(parse_options(rest) == Ok::<Seq<OptionView>, ErrorKind>(
            xs.subrange(k + 1, xs.len() as int),
        ));
        assert(options_bytes(s.drop_first())->Ok_0 == rest);
        assert(parse_options(option_bytes(xs[k])->Ok_0 + rest) == Ok::<Seq<OptionView>, ErrorKind>(
            seq![xs[k]] + xs.subrange(k + 1, xs.len() as int),
        ));
    } else {
        assert(s =~= Seq::<OptionView>::empty());
        assert(options_bytes(s) == Ok::<Seq<u8>, ErrorKind>(Seq::empty()));
        assert(parse_options(Seq::<u8>::empty()) == Ok::<Seq<OptionView>, ErrorKind>(
            Seq::empty(),
        ));
    }
}

/// A well-formed message: a 24-bit transaction id and well-formed options.
pub open spec fn wf_message(m: MessageView) -> bool {
    m.tx_id < 0x1000000 && wf_options(m.options)
}

proof fn lemma_msg_code_roundtrip(t: MsgType)
    ensures
        msg_type_of(msg_code(t)) == Some(t),
{
}

/// A well-formed message encodes, and decoding its bytes gives back the
/// same message, whose options therefore also match under the comparator.
pub proof fn lemma_message_roundtrip(m: MessageView)
    requires
        wf_message(m),
    ensures
        message_bytes(m) is Ok,
        parse_message(message_bytes(m)->Ok_0) == Ok::<MessageView, ErrorKind>(m),
        options_match(parse_message(message_bytes(m)->Ok_0)->Ok_0.options, m.options),
{
    lemma_options_roundtrip(m.options, 0);
    assert(m.options.subrange(0, m.options.len() as int) =~= m.options);
    let ob = options_bytes(m.options)->Ok_0;
    let b = message_bytes(m)->Ok_0;
    lemma_msg_code_roundtrip(m.msg_type);
    assert(b[0] == msg_code(m.msg_type));
    let x = m.tx_id;
    assert(b[1] == ((x / 0x10000) % 0x100) as u8 && b[2] == ((x / 0x100) % 0x100) as u8 && b[3]
        == (x % 0x100) as u8);
    assert(x < 0x1000000 ==> (((x / 0x10000) % 0x100) as u8) as u32 * 0x10000 + (((x / 0x100)
        % 0x100) as u8) as u32 * 0x100 + ((x % 0x100) as u8) as u32 == x) by (bit_vector);
    assert(be24(b, 1) == x);
    assert(b.subrange(4, b.len() as int) =~= ob);
    crate::laws::lemma_options_match_refl(m.options);
}

/// Cutting the encoded options short, anywhere but between two options,
/// leaves bytes that fail to decode with `TooShort`.
pub proof fn lemma_truncated_options(s: Seq<OptionView>, c: int)
    requires
        wf_options(s),
        0 <= c < options_bytes(s)->Ok_0.len(),
        forall|j: int|
            0 <= j <= s.len() ==> c != (#[trigger] options_bytes(s.subrange(0, j)))->Ok_0.len(),
    ensures
        parse_options(options_bytes(s)->Ok_0.subrange(0, c)) == Err::<Seq<OptionView>, ErrorKind>(
            ErrorKind::TooShort,
        ),
    decreases s.len(),
{
    assert forall|i: int| 0 <= i < s.len() implies #[trigger] option_bytes(s[i]) is Ok by {
        assert(wf_option(s[i]));
    }
    lemma_options_bytes_ok(s, s.len() as int);
    assert(s.subrange(0, 0) =~= Seq::<OptionView>::empty());
    assert(options_bytes(s.subrange(0, 0))->Ok_0.len() == 0);
    if s.len() == 0 {
        assert(options_bytes(s) == Ok::<Seq<u8>, ErrorKind>(Seq::empty()));
    } else {
        lemma_options_bytes_cons(s);
        let x = s[0];
        let ob = option_bytes(x)->Ok_0;
        let t = s.drop_first();
        let rest = options_bytes(t)->Ok_0;
        let all = options_bytes(s)->Ok_0;
        assert(all == ob + rest);
        let pl = payload_bytes(x)->Ok_0;
        assert(ob.len() == 4 + pl.len());
        assert(s.subrange(0, 1) =~= seq![x]);
        assert(wf_option(x));
        assert(option_bytes(seq![x][0]) is Ok);
        lemma_options_bytes_ok(seq![x], 1);
        lemma_options_bytes_cons(seq![x]);
        assert(seq![x].drop_first() =~= Seq::<OptionView>::empty());
        assert(options_bytes(Seq::<OptionView>::empty()) == Ok::<Seq<u8>, ErrorKind>(
            Seq::empty(),
        ));
        assert(options_bytes(seq![x])->Ok_0 =~= ob);
        assert(c != ob.len());
        let d = all.subrange(0, c);
        if c < ob.len() {
            assert(c != 0);
            if c >= 4 {
                assert(d.subrange(2, 4) =~= u16_be(pl.len() as int));
                lemma_u16_at(pl.len() as int, d, 2);
            }
        } else {
            let c2 = c - ob.len();
            assert forall|i: int| 0 <= i < t.len() implies wf_option(#[trigger] t[i]) by {
                assert(t[i] == s[i + 1]);
            }
            assert forall|j: int| 0 <= j <= t.len() implies c2 != (#[trigger] options_bytes(
                t.subrange(0, j),
            ))->Ok_0.len() by {
                let sj = s.subrange(0, j + 1);
                assert forall|i: int| 0 <= i < sj.len() implies #[trigger] option_bytes(sj[i]) is Ok by {
                    assert(sj[i] == s[i]);
                }
                lemma_options_bytes_ok(sj, sj.len() as int);
                lemma_options_bytes_cons(sj);
                assert(sj.drop_first() =~= t.subrange(0, j));
                assert(sj[0] == x);
                assert(c != options_bytes(sj)->Ok_0.len());
            }
            lemma_truncated_options(t, c2);
            assert(d =~= ob + rest.subrange(0, c2));
            lemma_option_roundtrip(x);
            lemma_parse_cons(x, rest.subrange(0, c2));
        }
    }
}

/// Cutting the bytes of a well-formed message short gives `TooShort`,
/// wherever the cut falls except where the shorter bytes are themselves a
/// whole message: right after the header, or right after a top-level option.
pub proof fn lemma_truncated_message(m: MessageView, k: int)
    requires
        wf_message(m),
        0 <= k < message_bytes(m)->Ok_0.len(),
        forall|j: int|
            0 <= j <= m.options.len() ==> k != 4 + (#[trigger] options_bytes(
                m.options.subrange(0, j),
            ))->Ok_0.len(),
    ensures
        parse_message(message_bytes(m)->Ok_0.subrange(0, k)) == Err::<MessageView, ErrorKind>(
            ErrorKind::TooShort,
        ),
{
    lemma_message_roundtrip(m);
    let b = message_bytes(m)->Ok_0;
    let ob = options_bytes(m.options)->Ok_0;
    let d = b.subrange(0, k);
    lemma_msg_code_roundtrip(m.msg_type);
    if k >= 4 {
        assert(m.options.subrange(0, m.options.len() as int) =~= m.options);
        assert(k - 4 != ob.len());
        assert forall|j: int| 0 <= j <= m.options.len() implies k - 4 != (
        #[trigger] options_bytes(m.options.subrange(0, j)))->Ok_0.len() by {}
        lemma_truncated_options(m.options, k - 4);
        assert(d.subrange(4, d.len() as int) =~= ob.subrange(0, k - 4));
    } else if k > 0 {
        assert(d[0] == b[0]);
    }
}

} // verus!
