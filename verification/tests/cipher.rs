use protocore::cipher::CipherOp;
use protocore::cipher::CipherSpec;
use protocore::cipher::OpDecode;
use protocore::cipher::ToysList;
use protocore::cipher::cipher_is_noop;

#[test]
fn ex_1() {
    let input: [u8; 5] = [0x68, 0x65, 0x6c, 0x6c, 0x6f];
    let cipherspec = vec![CipherOp::XorN(1), CipherOp::Rev];

    let mut res = Vec::with_capacity(5);

    for x in input {
        let mut y = x;
        for op in cipherspec.iter() {
            y = op.proc_byte(y, 0);
        }
        res.push(y);
    }

    assert_eq!(&res, &[0x96, 0x26, 0xb6, 0xb6, 0x76]);
}

#[test]
fn ex_2() {
    let input: [u8; 5] = [0x68, 0x65, 0x6c, 0x6c, 0x6f];
    let cipherspec = vec![CipherOp::AddPos, CipherOp::AddPos];

    let mut res = Vec::with_capacity(5);

    for (pos, x) in input.iter().enumerate() {
        let mut y = *x;
        for op in cipherspec.iter() {
            y = op.proc_byte(y, pos);
        }
        res.push(y);
    }

    assert_eq!(&res, &[0x68, 0x67, 0x70, 0x72, 0x77]);
}

#[test]
fn ex_3() {
    let input_1 = [
        0xf2, 0x20, 0xba, 0x44, 0x18, 0x84, 0xba, 0xaa, 0xd0, 0x26, 0x44, 0xa4, 0xa8, 0x7e,
    ];
    let input_2 = [
        0x6a, 0x48, 0xd6, 0x58, 0x34, 0x44, 0xd6, 0x7a, 0x98, 0x4e, 0x0c, 0xcc, 0x94, 0x31,
    ];
    let output_1 = [0x72, 0x20, 0xba, 0xd8, 0x78, 0x70, 0xee];
    let output_2 = [0xf2, 0xd0, 0x26, 0xc8, 0xa4, 0xd8, 0x7e];

    let cipherspec = vec![CipherOp::XorN(123), CipherOp::AddPos, CipherOp::Rev];

    let res = |input: &[u8], decoding: bool, offset: usize| {
        let mut res = Vec::with_capacity(14);
        for (pos, x) in input.iter().enumerate() {
            let mut y = *x;
            if decoding {
                for op in cipherspec.iter().rev() {
                    y = op.proc_byte_inverse(y, pos + offset);
                }
            } else {
                for op in cipherspec.iter() {
                    y = op.proc_byte(y, pos + offset);
                }
            }
            res.push(y);
        }

        res
    };

    assert_eq!(
        res(&input_1, true, 0),
        "4x dog,5x car\n".to_string().as_bytes()
    );

    assert_eq!(res(b"5x car\n", false, 0), output_1);

    assert_eq!(
        res(&input_2, true, input_1.len()),
        "3x rat,2x cat\n".to_string().as_bytes()
    );

    assert_eq!(res(b"3x rat\n", false, output_1.len()), output_2);
}

#[test]
fn spec_stream_decoding() {
    let spec = CipherSpec::default();
    assert!(matches!(spec.decode(&[]), OpDecode::Pending));
    assert!(matches!(spec.decode(&[0x00]), OpDecode::Op(CipherOp::End, 1)));
    assert!(matches!(spec.decode(&[0x01]), OpDecode::Op(CipherOp::Rev, 1)));
    assert!(matches!(spec.decode(&[0x02]), OpDecode::Pending));
    assert!(matches!(spec.decode(&[0x02, 0x7b]), OpDecode::Op(CipherOp::XorN(0x7b), 2)));
    assert!(matches!(spec.decode(&[0x03]), OpDecode::Op(CipherOp::XorPos, 1)));
    assert!(matches!(spec.decode(&[0x04]), OpDecode::Pending));
    assert!(matches!(spec.decode(&[0x04, 0x05]), OpDecode::Op(CipherOp::AddN(0x05), 2)));
    assert!(matches!(spec.decode(&[0x05]), OpDecode::Op(CipherOp::AddPos, 1)));
    assert!(matches!(spec.decode(&[0x99]), OpDecode::Invalid));
}

#[test]
fn noop_detection() {
    assert!(cipher_is_noop(&vec![]));
    assert!(cipher_is_noop(&vec![CipherOp::XorN(0)]));
    assert!(cipher_is_noop(&vec![CipherOp::XorN(7), CipherOp::XorN(7)]));
    assert!(!cipher_is_noop(&vec![CipherOp::XorN(1), CipherOp::Rev]));
    assert!(!cipher_is_noop(&vec![CipherOp::AddPos]));
}

#[test]
fn toys_line_round_trip() {
    // The encoding direction applies the spec in order; the decoding
    // direction holds the reversed spec and undoes each operation.
    let spec = vec![CipherOp::XorN(123), CipherOp::AddPos, CipherOp::Rev];
    let rev_spec = vec![CipherOp::Rev, CipherOp::AddPos, CipherOp::XorN(123)];

    let mut enc = ToysList { pos: 0, cipherspec: spec };
    let mut dec = ToysList { pos: 0, cipherspec: rev_spec };

    let wire1 = enc.encode(b"4x dog,5x car");
    let (n1, line1) = dec.decode(&wire1).unwrap();
    assert_eq!(n1, wire1.len());
    assert_eq!(line1, b"4x dog,5x car".to_vec());

    let wire2 = enc.encode(b"3x rat,2x cat");
    let (n2, line2) = dec.decode(&wire2).unwrap();
    assert_eq!(n2, wire2.len());
    assert_eq!(line2, b"3x rat,2x cat".to_vec());
}

#[test]
fn toys_decode_waits_for_a_line() {
    let mut dec = ToysList { pos: 0, cipherspec: vec![] };
    assert!(dec.decode(b"no newline yet").is_none());
    assert_eq!(dec.pos, 0);
    let (n, line) = dec.decode(b"no newline yet\nrest").unwrap();
    assert_eq!(n, 15);
    assert_eq!(line, b"no newline yet".to_vec());
    assert_eq!(dec.pos, 15);
}
