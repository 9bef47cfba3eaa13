use dhcpv6::addr::Ipv6Addr;
use dhcpv6::compare::{compare_options, count_unmatched, option_eq};
use dhcpv6::domain::{domain_list_encode, domain_list_parse, domain_validate};
use dhcpv6::options::{
    encode_options, parse_options, ClassData, Dhcpv6Option, Duid, DuidEn, DuidLL, DuidLLT,
    IaAddrOption, IaNaOption, IaTaOption, OtherOption, StatusCodeOption, VendorClassOption,
    VendorOption,
};
use dhcpv6::buffer::Buffer;
use dhcpv6::{ClientMsg, Error, MsgType, StatusCode};

fn every_kind() -> Vec<Dhcpv6Option> {
    let mut addr = IaAddrOption::new(Ipv6Addr::new(0xfd00, 0, 0, 0, 0, 0, 0, 1));
    addr.preferred_lifetime = 75;
    addr.valid_lifetime = 120;
    addr.options.push(Dhcpv6Option::StatusCode(StatusCodeOption {
        code: StatusCode::Success,
        msg: b"ok".to_vec(),
    }));
    let mut ia_na = IaNaOption::new(7);
    ia_na.t1 = 10;
    ia_na.t2 = 20;
    ia_na.options.push(Dhcpv6Option::IaAddr(addr));
    let mut ia_ta = IaTaOption::new(9);
    ia_ta.options.push(Dhcpv6Option::RapidCommit);
    vec![
        Dhcpv6Option::ClientId(Duid::Llt(DuidLLT::new(1, 0x01020304, &[1, 2, 3, 4, 5, 6]).unwrap())),
        Dhcpv6Option::ServerId(Duid::En(DuidEn::new(311, &[9, 8, 7]).unwrap())),
        Dhcpv6Option::ClientId(Duid::Ll(DuidLL::new(1, &[0xaa, 0xbb, 0xcc, 0xdd, 0xee, 0xff]).unwrap())),
        Dhcpv6Option::IaNa(ia_na),
        Dhcpv6Option::IaTa(ia_ta),
        Dhcpv6Option::Oro(vec![23, 24]),
        Dhcpv6Option::Preference(255),
        Dhcpv6Option::ElapsedTime(0x1234),
        Dhcpv6Option::RelayMsg(vec![1, 2, 3]),
        Dhcpv6Option::Unicast(Ipv6Addr::new(0x2001, 0xdb8, 0, 0, 0, 0, 0, 1)),
        Dhcpv6Option::StatusCode(StatusCodeOption {
            code: StatusCode::NoAddrsAvail,
            msg: b"none".to_vec(),
        }),
        Dhcpv6Option::RapidCommit,
        Dhcpv6Option::UserClass(vec![ClassData { len: 2, data: vec![5, 6] }]),
        Dhcpv6Option::VendorClass(VendorClassOption {
            enterprise_number: 42,
            data: vec![ClassData { len: 1, data: vec![7] }, ClassData { len: 0, data: vec![] }],
        }),
        Dhcpv6Option::VendorOpts(VendorOption { enterprise_number: 43, data: vec![8, 9] }),
        Dhcpv6Option::InterfaceId(vec![0x65, 0x74, 0x68, 0x30]),
        Dhcpv6Option::ReconfMsg(5),
        Dhcpv6Option::ReconfAccept,
        Dhcpv6Option::DnsServers(vec![Ipv6Addr::new(0x2001, 0x4860, 0x4860, 0, 0, 0, 0, 0x8888)]),
        Dhcpv6Option::DomainList(vec!["eng".to_string(), "oxide.computer".to_string()]),
        Dhcpv6Option::Other(OtherOption { code: 99, len: 3, data: vec![1, 2, 3] }),
    ]
}

#[test]
fn every_option_kind_round_trips() {
    let mut msg = ClientMsg::new(MsgType::Reply, Some(0x123456));
    msg.options = every_kind();
    let bytes = msg.encode().unwrap();
    let decoded = ClientMsg::decode(&bytes).unwrap();
    assert_eq!(decoded, msg);
    assert_eq!(decoded.encode().unwrap(), bytes);
}

#[test]
fn encode_is_deterministic() {
    let mut a = ClientMsg::new(MsgType::Request, Some(0xabcdef));
    a.options = every_kind();
    let mut b = ClientMsg::new(MsgType::Request, Some(0xabcdef));
    b.options = every_kind();
    assert_eq!(a.encode().unwrap(), a.encode().unwrap());
    assert_eq!(a.encode().unwrap(), b.encode().unwrap());
}

#[test]
fn unknown_option_is_preserved() {
    let bytes = vec![0x07, 0x00, 0x00, 0x01, 0x00, 0x63, 0x00, 0x03, 0xde, 0xad, 0xbe];
    let msg = ClientMsg::decode(&bytes).unwrap();
    assert_eq!(msg.msg_type, MsgType::Reply);
    assert_eq!(msg.tx_id, 1);
    assert_eq!(
        msg.options,
        vec![Dhcpv6Option::Other(OtherOption { code: 99, len: 3, data: vec![0xde, 0xad, 0xbe] })]
    );
    assert_eq!(msg.encode().unwrap(), bytes);
}

#[test]
fn truncation_gives_too_short_except_between_options() {
    let mut msg = ClientMsg::new(MsgType::Advertise, Some(0x4335e9));
    msg.options = every_kind();
    let bytes = msg.encode().unwrap();
    let mut boundaries = vec![4usize];
    let mut at = 4usize;
    while at < bytes.len() {
        let len = ((bytes[at + 2] as usize) << 8) | bytes[at + 3] as usize;
        at += 4 + len;
        boundaries.push(at);
    }
    assert_eq!(at, bytes.len());
    for k in 0..bytes.len() {
        let r = ClientMsg::decode(&bytes[..k]);
        if boundaries.contains(&k) {
            let opts = r.unwrap().options;
            assert_eq!(opts.len(), boundaries.iter().position(|&b| b == k).unwrap());
        } else {
            assert_eq!(r, Err(Error::TooShort));
        }
    }
}

#[test]
fn domain_grammar_boundaries() {
    let label63 = "a".repeat(63);
    let label64 = "a".repeat(64);
    assert_eq!(domain_validate(&label63), Ok(()));
    assert!(matches!(domain_validate(&label64), Err(Error::BadOption(_))));
    let name253 = format!("{}.{}.{}.{}", label63, label63, label63, "b".repeat(61));
    assert_eq!(name253.len(), 253);
    assert_eq!(domain_validate(&name253), Ok(()));
    let name254 = format!("{}.{}.{}.{}", label63, label63, label63, "b".repeat(62));
    assert!(matches!(domain_validate(&name254), Err(Error::BadOption(_))));
    assert_eq!(domain_validate("oxide.computer"), Ok(()));
    assert_eq!(domain_validate("a1.b2"), Ok(()));
    assert!(matches!(domain_validate("1abc"), Err(Error::BadOption(_))));
    assert!(matches!(domain_validate(".abc"), Err(Error::BadOption(_))));
    assert!(matches!(domain_validate("éng"), Err(Error::BadOption(_))));
    assert!(matches!(domain_validate("eng\u{e9}"), Err(Error::BadOption(_))));
    assert!(matches!(domain_validate("a-b"), Err(Error::BadOption(_))));
    assert!(matches!(domain_validate("a_b"), Err(Error::BadOption(_))));
}

#[test]
fn domain_list_wire_form() {
    let names = vec!["eng".to_string(), "oxide.computer".to_string()];
    let wire = domain_list_encode(&names).unwrap();
    assert_eq!(
        wire,
        vec![
            3, b'e', b'n', b'g', 0, 5, b'o', b'x', b'i', b'd', b'e', 8, b'c', b'o', b'm', b'p',
            b'u', b't', b'e', b'r', 0
        ]
    );
    assert_eq!(domain_list_parse(&wire).unwrap(), names);
    assert_eq!(domain_list_encode(&["".to_string()]).unwrap(), Vec::<u8>::new());
    assert!(matches!(domain_list_encode(&["9x".to_string()]), Err(Error::BadOption(_))));
    assert!(matches!(domain_list_parse(&[5, b'a', b'b']), Err(Error::BadOption(_))));
    assert!(matches!(domain_list_parse(&[2, b'a', 0xc3, 0]), Err(Error::BadOption(_))));
    assert!(matches!(domain_list_parse(&[1, b'9', 0]), Err(Error::BadOption(_))));
    assert_eq!(domain_list_parse(&[1, b'a', 1, b'b']).unwrap(), vec!["a.b".to_string()]);
}

#[test]
fn comparator_ignores_order_but_counts() {
    let a = || Dhcpv6Option::Preference(1);
    let b = || Dhcpv6Option::ElapsedTime(2);
    assert_eq!(compare_options(&[a(), a(), b()], &[a(), b(), a()]), Ok(()));
    assert_eq!(count_unmatched(&[a(), a()], &[a(), b()]), 1);
    assert_eq!(
        compare_options(&[a(), a()], &[a(), b()]),
        Err(Error::Other("1 extra options.  1 missing options.".to_string()))
    );
    assert_eq!(
        compare_options(&[a()], &[a(), b()]),
        Err(Error::Other("option counts differ".to_string()))
    );
    assert_eq!(compare_options(&[], &[]), Ok(()));
}

#[test]
fn nested_options_compare_as_multisets() {
    let mut x = IaNaOption::new(3);
    x.options.push(Dhcpv6Option::RapidCommit);
    x.options.push(Dhcpv6Option::Preference(4));
    let mut y = IaNaOption::new(3);
    y.options.push(Dhcpv6Option::Preference(4));
    y.options.push(Dhcpv6Option::RapidCommit);
    assert!(option_eq(&Dhcpv6Option::IaNa(x), &Dhcpv6Option::IaNa(y)));
    let mut z = IaNaOption::new(3);
    z.options.push(Dhcpv6Option::RapidCommit);
    z.options.push(Dhcpv6Option::RapidCommit);
    let mut w = IaNaOption::new(3);
    w.options.push(Dhcpv6Option::RapidCommit);
    w.options.push(Dhcpv6Option::Preference(4));
    assert!(z != w);
}

#[test]
fn error_variants() {
    assert_eq!(ClientMsg::decode(&[]), Err(Error::TooShort));
    assert_eq!(ClientMsg::decode(&[0, 1, 2, 3]), Err(Error::UnknownMsgCode(0)));
    assert_eq!(ClientMsg::decode(&[14, 1, 2, 3]), Err(Error::UnknownMsgCode(14)));
    assert_eq!(ClientMsg::decode(&[1, 1, 2]), Err(Error::TooShort));
    assert!(matches!(
        ClientMsg::decode(&[1, 0, 0, 0, 0, 11, 0, 0]),
        Err(Error::Unimplemented(_))
    ));
    let mut msg = ClientMsg::new(MsgType::Solicit, Some(1));
    msg.options.push(Dhcpv6Option::Auth);
    assert!(matches!(msg.encode(), Err(Error::Unimplemented(_))));
    // DUID of an unknown type
    assert!(matches!(
        ClientMsg::decode(&[1, 0, 0, 0, 0, 1, 0, 4, 0, 9, 0, 1]),
        Err(Error::BadOption(_))
    ));
    // DUID longer than 128 bytes after its type
    let mut long = vec![1, 0, 0, 0, 0, 1, 0, 131, 0, 2];
    long.extend(std::iter::repeat(0).take(129));
    assert!(matches!(ClientMsg::decode(&long), Err(Error::BadOption(_))));
    // status code 6 is not defined
    assert!(matches!(
        ClientMsg::decode(&[7, 0, 0, 0, 0, 13, 0, 2, 0, 6]),
        Err(Error::BadOption(_))
    ));
    // option length past the end
    assert_eq!(ClientMsg::decode(&[1, 0, 0, 0, 0, 8, 0, 3, 0, 0]), Err(Error::TooShort));
    // elapsed time with a one-byte payload
    assert_eq!(ClientMsg::decode(&[1, 0, 0, 0, 0, 8, 0, 1, 0]), Err(Error::TooShort));
    // DNS servers whose length is not a multiple of 16
    assert_eq!(ClientMsg::decode(&[1, 0, 0, 0, 0, 23, 0, 1, 0]), Err(Error::TooShort));
    let mut bad_class = ClientMsg::new(MsgType::Solicit, Some(1));
    bad_class.options.push(Dhcpv6Option::UserClass(vec![ClassData { len: 3, data: vec![1] }]));
    assert!(matches!(bad_class.encode(), Err(Error::BadOption(_))));
    let mut bad_domain = ClientMsg::new(MsgType::Solicit, Some(1));
    bad_domain.options.push(Dhcpv6Option::DomainList(vec!["-x".to_string()]));
    assert!(matches!(bad_domain.encode(), Err(Error::BadOption(_))));
    let mut too_long = ClientMsg::new(MsgType::Solicit, Some(1));
    too_long.options.push(Dhcpv6Option::RelayMsg(vec![0; 65536]));
    assert!(matches!(too_long.encode(), Err(Error::BadOption(_))));
}

#[test]
fn padded_option_is_skipped_to_its_declared_end() {
    // elapsed time with a four-byte payload, followed by rapid commit
    let bytes = [1, 0, 0, 5, 0, 8, 0, 4, 0x12, 0x34, 0xff, 0xff, 0, 14, 0, 0];
    let msg = ClientMsg::decode(&bytes).unwrap();
    assert_eq!(
        msg.options,
        vec![Dhcpv6Option::ElapsedTime(0x1234), Dhcpv6Option::RapidCommit]
    );
}

#[test]
fn duid_constructor_bounds() {
    assert!(DuidLLT::new(1, 0, &[0; 120]).is_ok());
    assert!(matches!(DuidLLT::new(1, 0, &[0; 121]), Err(Error::BadOption(_))));
    assert!(DuidEn::new(1, &[0; 120]).is_ok());
    assert!(matches!(DuidEn::new(1, &[0; 121]), Err(Error::BadOption(_))));
    assert!(DuidLL::new(1, &[0; 124]).is_ok());
    assert!(matches!(DuidLL::new(1, &[0; 125]), Err(Error::BadOption(_))));
    let d = DuidLL::new(6, &[1, 2, 3]).unwrap();
    assert_eq!((d.type_code, d.hw_type, d.link_layer.clone()), (3, 6, vec![1, 2, 3]));
}

#[test]
fn link_layer_duid_keeps_its_whole_address() {
    let mut msg = ClientMsg::new(MsgType::Solicit, Some(2));
    let duid = DuidLL::new(1, &[0x02, 0x08, 0x20, 0xb3, 0xb9, 0x3e]).unwrap();
    msg.options.push(Dhcpv6Option::ClientId(Duid::Ll(duid)));
    let bytes = msg.encode().unwrap();
    assert_eq!(
        bytes,
        vec![1, 0, 0, 2, 0, 1, 0, 10, 0, 3, 0, 1, 0x02, 0x08, 0x20, 0xb3, 0xb9, 0x3e]
    );
    assert_eq!(ClientMsg::decode(&bytes).unwrap(), msg);
}

#[test]
fn option_runs_through_a_cursor() {
    let opts = vec![Dhcpv6Option::Preference(3), Dhcpv6Option::ReconfAccept];
    let bytes = encode_options(&opts).unwrap();
    assert_eq!(bytes, vec![0, 7, 0, 1, 3, 0, 20, 0, 0]);
    let mut buf = Buffer::new_from_slice(&bytes);
    assert_eq!(parse_options(&mut buf).unwrap(), opts);
    assert_eq!(buf.left(), 0);
}
