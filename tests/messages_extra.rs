use dhcpv6::addr::Ipv6Addr;
use dhcpv6::options::{Dhcpv6Option, OPTION_ELAPSED_TIME, OPTION_IA_NA, OPTION_ORO};
use dhcpv6::{
    find_all_options, find_one_option, retransmit_params, ClientMsg, Error, MsgType, RelayMsg,
    RetransmitParams, StatusCode,
};

#[test]
fn transaction_id_keeps_its_low_24_bits() {
    assert_eq!(ClientMsg::new(MsgType::Solicit, Some(0x12345678)).tx_id, 0x345678);
    assert_eq!(ClientMsg::with_tx_id(MsgType::Solicit, 0xffffffff).tx_id, 0xffffff);
    for _ in 0..32 {
        let m = ClientMsg::new(MsgType::Solicit, None);
        assert!(m.tx_id < 0x1000000);
        assert!(m.options.is_empty());
    }
    let m = ClientMsg::new(MsgType::Confirm, Some(0xa31b8f));
    assert_eq!(m.encode().unwrap(), vec![4, 0xa3, 0x1b, 0x8f]);
    assert_eq!(ClientMsg::decode(&[4, 0xa3, 0x1b, 0x8f]).unwrap(), m);
}

#[test]
fn retransmit_table_values() {
    assert_eq!(
        retransmit_params(MsgType::Solicit),
        Some(RetransmitParams { irt: 1, mrt: 120, mrc: 0, mrd: 0 })
    );
    assert_eq!(
        retransmit_params(MsgType::Request),
        Some(RetransmitParams { irt: 1, mrt: 30, mrc: 10, mrd: 0 })
    );
    assert_eq!(
        retransmit_params(MsgType::Confirm),
        Some(RetransmitParams { irt: 1, mrt: 4, mrc: 0, mrd: 10 })
    );
    assert_eq!(
        retransmit_params(MsgType::Renew),
        Some(RetransmitParams { irt: 10, mrt: 600, mrc: 0, mrd: 0 })
    );
    assert_eq!(
        retransmit_params(MsgType::Release),
        Some(RetransmitParams { irt: 1, mrt: 0, mrc: 5, mrd: 0 })
    );
    assert_eq!(retransmit_params(MsgType::Advertise), None);
    assert_eq!(retransmit_params(MsgType::RelayRepl), None);
}

#[test]
fn lookups_by_option_code() {
    let mut m = ClientMsg::new(MsgType::Solicit, Some(1));
    m.options.push(Dhcpv6Option::ElapsedTime(5));
    m.options.push(Dhcpv6Option::Oro(vec![23]));
    m.options.push(Dhcpv6Option::ElapsedTime(6));
    assert_eq!(m.find_one_option(OPTION_ELAPSED_TIME), Some(&Dhcpv6Option::ElapsedTime(5)));
    assert_eq!(m.find_one_option(OPTION_IA_NA), None);
    assert_eq!(
        m.find_all_options(OPTION_ELAPSED_TIME),
        vec![&Dhcpv6Option::ElapsedTime(5), &Dhcpv6Option::ElapsedTime(6)]
    );
    assert!(m.has_option(OPTION_ORO));
    assert!(!m.has_option(OPTION_IA_NA));
    assert_eq!(find_one_option(&m.options, OPTION_ORO), Some(&Dhcpv6Option::Oro(vec![23])));
    assert_eq!(find_all_options(&m.options, OPTION_IA_NA).len(), 0);
}

#[test]
fn codes_of_message_types_and_statuses() {
    assert_eq!(MsgType::try_from(11), Ok(MsgType::InformationRequest));
    assert_eq!(MsgType::try_from(0), Err(()));
    assert_eq!(MsgType::RelayRepl.code(), 13);
    assert_eq!(StatusCode::try_from(5), Ok(StatusCode::UseMulticast));
    assert_eq!(StatusCode::try_from(6), Err(()));
    assert_eq!(StatusCode::NotOnLink.value(), 4);
}

#[test]
fn relay_messages_are_unimplemented() {
    assert!(matches!(RelayMsg::decode(&[12, 0]), Err(Error::Unimplemented(_))));
    let relay = RelayMsg {
        msg_type: MsgType::RelayForw,
        hop_count: 0,
        link_addr: Ipv6Addr::new(0, 0, 0, 0, 0, 0, 0, 0),
        peer_addr: Ipv6Addr::new(0xfe80, 0, 0, 0, 0, 0, 0, 1),
        option: Vec::new(),
    };
    assert!(matches!(RelayMsg::encode(&relay), Err(Error::Unimplemented(_))));
}

#[test]
fn address_segments_are_big_endian() {
    let a = Ipv6Addr::new(0xfd00, 0xaabb, 0, 0, 0, 0, 0, 0x7000);
    assert_eq!(
        a.octets,
        [0xfd, 0x00, 0xaa, 0xbb, 0, 0, 0, 0, 0, 0, 0, 0, 0, 0, 0x70, 0x00]
    );
    assert!(a.same(&Ipv6Addr::from_slice(&a.octets)));
    assert!(!a.same(&Ipv6Addr::new(0xfd00, 0xaabb, 0, 0, 0, 0, 0, 0x7001)));
}
