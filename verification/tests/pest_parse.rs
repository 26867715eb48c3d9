use protocore::pest_msg::Action;
use protocore::pest_msg::Msg;
use protocore::pest_msg::TargetPopulation;
use protocore::pest_msg::VisitPopulation;
use protocore::pest_parse::Parse;
use protocore::pest_parse::msg;
use protocore::pest_wire::MsgCodec;

fn with_extra(input: &[u8]) -> Vec<u8> {
    let mut v = input.to_vec();
    v.extend_from_slice(&[0xff, 0xff, 0xff]);
    v
}

fn expect_done(input: &[u8]) -> (usize, Msg) {
    match msg(input) {
        Parse::Done(n, m) => (n, m),
        Parse::Pending => panic!("parser wants more bytes"),
        Parse::Bad => panic!("parser refused the bytes"),
    }
}

#[test]
fn msg_hello_ok() {
    let hello_msg: [u8; 25] = [
        0x50, 0x00, 0x00, 0x00, 0x19, 0x00, 0x00, 0x00, 0x0b, 0x70, 0x65, 0x73, 0x74, 0x63,
        0x6f, 0x6e, 0x74, 0x72, 0x6f, 0x6c, 0x00, 0x00, 0x00, 0x01, 0xce,
    ];

    let input = with_extra(&hello_msg);
    let (n, m) = expect_done(&input);

    assert_eq!(n, input.len() - 3);
    assert_eq!(
        m,
        Msg::Hello {
            protocol: b"pestcontrol".to_vec(),
            version: 1
        }
    );
}

#[test]
fn msg_error_ok() {
    let error_msg: [u8; 13] = [
        0x51, 0x00, 0x00, 0x00, 0x0d, 0x00, 0x00, 0x00, 0x03, 0x62, 0x61, 0x64, 0x78,
    ];

    let input = with_extra(&error_msg);
    let (n, m) = expect_done(&input);

    assert_eq!(n, input.len() - 3);
    assert_eq!(
        m,
        Msg::Error {
            message: b"bad".to_vec()
        }
    );
}

#[test]
fn msg_ok_ok() {
    let ok_msg: [u8; 6] = [0x52, 0x00, 0x00, 0x00, 0x06, 0xa8];

    let input = with_extra(&ok_msg);
    let (n, m) = expect_done(&input);

    assert_eq!(n, input.len() - 3);
    assert_eq!(m, Msg::Okay);
}

#[test]
fn msg_dial_authority_ok() {
    let dial_authority_msg: [u8; 10] =
        [0x53, 0x00, 0x00, 0x00, 0x0a, 0x00, 0x00, 0x30, 0x39, 0x3a];

    let input = with_extra(&dial_authority_msg);
    let (n, m) = expect_done(&input);

    assert_eq!(n, input.len() - 3);
    assert_eq!(m, Msg::DialAuthority { site: 12345 });
}

#[test]
fn msg_target_populations_ok() {
    let target_populations_msg: [u8; 44] = [
        0x54, 0x00, 0x00, 0x00, 0x2c, 0x00, 0x00, 0x30, 0x39, 0x00, 0x00, 0x00, 0x02, 0x00,
        0x00, 0x00, 0x03, 0x64, 0x6f, 0x67, 0x00, 0x00, 0x00, 0x01, 0x00, 0x00, 0x00, 0x03,
        0x00, 0x00, 0x00, 0x03, 0x72, 0x61, 0x74, 0x00, 0x00, 0x00, 0x00, 0x00, 0x00, 0x00,
        0x0a, 0x80,
    ];

    let input = with_extra(&target_populations_msg);
    let (n, m) = expect_done(&input);

    assert_eq!(n, input.len() - 3);
    assert_eq!(
        m,
        Msg::TargetPopulations {
            site: 12345,
            populations: vec![
                TargetPopulation {
                    species: b"dog".to_vec(),
                    min: 1,
                    max: 3
                },
                TargetPopulation {
                    species: b"rat".to_vec(),
                    min: 0,
                    max: 10
                }
            ]
        }
    );
}

#[test]
fn msg_create_policy_ok() {
    let create_policy_msg: [u8; 14] = [
        0x55, 0x00, 0x00, 0x00, 0x0e, 0x00, 0x00, 0x00, 0x03, 0x64, 0x6f, 0x67, 0xa0, 0xc0,
    ];

    let input = with_extra(&create_policy_msg);
    let (n, m) = expect_done(&input);

    assert_eq!(n, input.len() - 3);
    assert_eq!(
        m,
        Msg::CreatePolicy {
            species: b"dog".to_vec(),
            action: Action::Conserve
        }
    );
}

#[test]
fn msg_delete_policy_ok() {
    let delete_policy_msg: [u8; 10] =
        [0x56, 0x00, 0x00, 0x00, 0x0a, 0x00, 0x00, 0x00, 0x7b, 0x25];

    let input = with_extra(&delete_policy_msg);
    let (n, m) = expect_done(&input);

    assert_eq!(n, input.len() - 3);
    assert_eq!(m, Msg::DeletePolicy { policy: 123 });
}

#[test]
fn msg_policy_result_ok() {
    let policy_result_msg: [u8; 10] =
        [0x57, 0x00, 0x00, 0x00, 0x0a, 0x00, 0x00, 0x00, 0x7b, 0x24];

    let input = with_extra(&policy_result_msg);
    let (n, m) = expect_done(&input);

    assert_eq!(n, input.len() - 3);
    assert_eq!(m, Msg::PolicyResult { policy: 123 });
}

#[test]
fn msg_site_visit_ok() {
    let site_visit_msg: [u8; 36] = [
        0x58, 0x00, 0x00, 0x00, 0x24, 0x00, 0x00, 0x30, 0x39, 0x00, 0x00, 0x00, 0x02, 0x00,
        0x00, 0x00, 0x03, 0x64, 0x6f, 0x67, 0x00, 0x00, 0x00, 0x01, 0x00, 0x00, 0x00, 0x03,
        0x72, 0x61, 0x74, 0x00, 0x00, 0x00, 0x05, 0x8c,
    ];

    let input = with_extra(&site_visit_msg);
    let (n, m) = expect_done(&input);

    assert_eq!(n, input.len() - 3);
    assert_eq!(
        m,
        Msg::SiteVisit {
            site: 12345,
            populations: vec![
                VisitPopulation {
                    species: b"dog".to_vec(),
                    count: 1,
                },
                VisitPopulation {
                    species: b"rat".to_vec(),
                    count: 5,
                }
            ]
        }
    );
}

#[test]
fn parser_waits_and_refuses() {
    // A truncated frame waits; a bad tag or a bad action byte does not.
    assert!(matches!(msg(&[]), Parse::Pending));
    assert!(matches!(msg(&[0x52, 0x00]), Parse::Pending));
    assert!(matches!(msg(&[0x42, 0x00, 0x00]), Parse::Bad));
    let bad_action: [u8; 14] = [
        0x55, 0x00, 0x00, 0x00, 0x0e, 0x00, 0x00, 0x00, 0x03, 0x64, 0x6f, 0x67, 0x77, 0xc0,
    ];
    assert!(matches!(msg(&bad_action), Parse::Bad));
}

#[test]
fn parser_validates_what_it_reads() {
    // A frame whose byte sum does not vanish comes out as the checksum
    // error message.
    let bad_sum: [u8; 6] = [0x52, 0x00, 0x00, 0x00, 0x06, 0xa9];
    let (n, m) = expect_done(&bad_sum);
    assert_eq!(n, 6);
    assert_eq!(
        m,
        Msg::Error {
            message: b"checksum did not equal 0".to_vec()
        }
    );
}

#[test]
fn codec_decode_drives_the_parser() {
    let codec = MsgCodec;
    let (n, m) = codec.decode(&[0x52, 0x00, 0x00, 0x00, 0x06, 0xa8]);
    assert_eq!(n, 6);
    assert_eq!(m, Some(Msg::Okay));

    let (n, m) = codec.decode(&[0x52, 0x00]);
    assert_eq!(n, 0);
    assert!(m.is_none());

    let (n, m) = codec.decode(&[0x42]);
    assert_eq!(n, 0);
    assert_eq!(
        m,
        Some(Msg::Error {
            message: b"unrecognized message".to_vec()
        })
    );
}
