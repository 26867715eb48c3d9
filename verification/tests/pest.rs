use protocore::pest_msg::Action;
use protocore::pest_msg::Msg;
use protocore::pest_msg::VisitPopulation;
use protocore::pest_wire::MsgCodec;
use protocore::pest_wire::enc_checksum;

#[test]
fn msg_check_valid() {
    assert_eq!(Msg::Okay, Msg::Okay.validate(3, &[0x01, 0x02, 0xfd]));
    assert_eq!(
        Msg::Error {
            message: b"unexpected message length".to_vec()
        },
        Msg::Okay.validate(2, &[0x01, 0x02, 0xfd])
    );
    assert_eq!(
        Msg::Error {
            message: b"checksum did not equal 0".to_vec()
        },
        Msg::Okay.validate(3, &[0x01, 0x02, 0xff])
    );
}

#[test]
fn hello_must_name_the_protocol() {
    let good = Msg::Hello { protocol: b"pestcontrol".to_vec(), version: 1 };
    assert!(good.check_hello().is_ok());

    let wrong_name = Msg::Hello { protocol: b"pestkontrol".to_vec(), version: 1 };
    assert_eq!(
        wrong_name.check_hello().unwrap_err(),
        Msg::Error { message: b"bad hello".to_vec() }
    );

    let wrong_version = Msg::Hello { protocol: b"pestcontrol".to_vec(), version: 2 };
    assert!(wrong_version.check_hello().is_err());

    assert!(Msg::Okay.check_hello().is_ok());
}

#[test]
fn site_visit_conflicts() {
    let vp = |s: &[u8], n: u32| VisitPopulation { species: s.to_vec(), count: n };

    // A verbatim consecutive repeat is tolerated.
    let repeat = Msg::SiteVisit {
        site: 1,
        populations: vec![vp(b"dog", 3), vp(b"dog", 3), vp(b"rat", 1)],
    };
    assert!(repeat.check_site_visit().is_ok());

    // Two different counts for one species conflict.
    let conflict = Msg::SiteVisit {
        site: 1,
        populations: vec![vp(b"dog", 3), vp(b"dog", 4)],
    };
    assert_eq!(
        conflict.check_site_visit().unwrap_err(),
        Msg::Error { message: b"site visit contains conflicting observations".to_vec() }
    );

    // So do two separated observations, even with equal counts.
    let separated = Msg::SiteVisit {
        site: 1,
        populations: vec![vp(b"dog", 3), vp(b"rat", 1), vp(b"dog", 3)],
    };
    assert!(separated.check_site_visit().is_err());
}

#[test]
fn encode_hello() {
    let codec = MsgCodec;
    let wire = codec.encode(&Msg::Hello { protocol: b"pestcontrol".to_vec(), version: 1 });
    assert_eq!(
        wire,
        vec![
            0x50, 0x00, 0x00, 0x00, 0x19, 0x00, 0x00, 0x00, 0x0b, 0x70, 0x65, 0x73, 0x74, 0x63,
            0x6f, 0x6e, 0x74, 0x72, 0x6f, 0x6c, 0x00, 0x00, 0x00, 0x01, 0xce,
        ]
    );
}

#[test]
fn encode_error() {
    let codec = MsgCodec;
    let wire = codec.encode(&Msg::err(b"bad"));
    assert_eq!(
        wire,
        vec![0x51, 0x00, 0x00, 0x00, 0x0d, 0x00, 0x00, 0x00, 0x03, 0x62, 0x61, 0x64, 0x78]
    );
}

#[test]
fn encode_dial_authority() {
    let codec = MsgCodec;
    let wire = codec.encode(&Msg::DialAuthority { site: 12345 });
    assert_eq!(
        wire,
        vec![0x53, 0x00, 0x00, 0x00, 0x0a, 0x00, 0x00, 0x30, 0x39, 0x3a]
    );
}

#[test]
fn encode_create_policy() {
    let codec = MsgCodec;
    let wire = codec.encode(&Msg::CreatePolicy {
        species: b"dog".to_vec(),
        action: Action::Conserve,
    });
    assert_eq!(
        wire,
        vec![0x55, 0x00, 0x00, 0x00, 0x0e, 0x00, 0x00, 0x00, 0x03, 0x64, 0x6f, 0x67, 0xa0, 0xc0]
    );
}

#[test]
fn encode_delete_policy() {
    let codec = MsgCodec;
    let wire = codec.encode(&Msg::DeletePolicy { policy: 123 });
    assert_eq!(
        wire,
        vec![0x56, 0x00, 0x00, 0x00, 0x0a, 0x00, 0x00, 0x00, 0x7b, 0x25]
    );
}

#[test]
fn encoded_frames_pass_the_checksum_check() {
    let codec = MsgCodec;
    let frames = vec![
        codec.encode(&Msg::Hello { protocol: b"pestcontrol".to_vec(), version: 1 }),
        codec.encode(&Msg::err(b"bad")),
        codec.encode(&Msg::DialAuthority { site: 0xffffffff }),
        codec.encode(&Msg::DeletePolicy { policy: 0 }),
    ];
    for wire in frames {
        assert!(Msg::check_checksum(&wire).is_ok());
    }
}

#[test]
fn checksum_byte_closes_any_head() {
    let head = vec![0x52, 0x00, 0x00, 0x00, 0x06];
    let c = enc_checksum(&head);
    assert_eq!(c, 0xa8);
    let mut whole = head.clone();
    whole.push(c);
    assert!(Msg::check_checksum(&whole).is_ok());
}
