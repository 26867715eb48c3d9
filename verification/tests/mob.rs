use protocore::mob::tamper_msg;

#[test]
fn single() {
    let r = tamper_msg(b"7iKDZEwPZSqIvDnHvVN2r0hUWXD5rHX\n");
    assert_eq!(r, b"7YWHMfk9JZe0LM0g1ZauHuiSxhI\n".to_vec());
}

#[test]
fn multiple() {
    let r = tamper_msg(
        b"7iKDZEwPZSqIvDnHvVN2r0hUWXD5rHX 7iKDZEwPZSqIvDnHvVN2r0hUWXD5rHX 7iKDZEwPZSqIvDnHvVN2r0hUWXD5rHX \n",
    );
    assert_eq!(
        r,
        b"7YWHMfk9JZe0LM0g1ZauHuiSxhI 7YWHMfk9JZe0LM0g1ZauHuiSxhI 7YWHMfk9JZe0LM0g1ZauHuiSxhI \n"
            .to_vec()
    );
}

#[test]
fn not_actually_bc() {
    let orig = b"7iKDZEwPZSqIvDnHvVN2r0hUWXD5rHX-123456789\n";
    let r = tamper_msg(orig);
    assert_eq!(r, orig.to_vec());
}

#[test]
fn surrounded_by_words() {
    let r = tamper_msg(b"pay 7iKDZEwPZSqIvDnHvVN2r0hUWXD5rHX please\n");
    assert_eq!(r, b"pay 7YWHMfk9JZe0LM0g1ZauHuiSxhI please\n".to_vec());
}

#[test]
fn too_short_or_too_long_stays() {
    // 23 characters after the 7: too short for an address.
    let mut short = vec![b'7'];
    short.extend_from_slice(&[b'a'; 23]);
    short.push(b'\n');
    assert_eq!(tamper_msg(&short), short);
    // 36 characters after the 7: one past the longest address.
    let mut long = vec![b'7'];
    long.extend_from_slice(&[b'a'; 36]);
    long.push(b'\n');
    assert_eq!(tamper_msg(&long), long);
    // 24 after the 7 is the shortest address, and is replaced.
    let mut shortest = vec![b'7'];
    shortest.extend_from_slice(&[b'a'; 24]);
    shortest.push(b'\n');
    assert_eq!(
        tamper_msg(&shortest),
        b"7YWHMfk9JZe0LM0g1ZauHuiSxhI\n".to_vec()
    );
}

#[test]
fn unterminated_address_stays() {
    // No trailing space or newline after the address: no match.
    let r = tamper_msg(b"7iKDZEwPZSqIvDnHvVN2r0hUWXD5rHX");
    assert_eq!(r, b"7iKDZEwPZSqIvDnHvVN2r0hUWXD5rHX".to_vec());
}

#[test]
fn replacement_is_itself_an_address() {
    let r = tamper_msg(b"7YWHMfk9JZe0LM0g1ZauHuiSxhI\n");
    assert_eq!(r, b"7YWHMfk9JZe0LM0g1ZauHuiSxhI\n".to_vec());
}
