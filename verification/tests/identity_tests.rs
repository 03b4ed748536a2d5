use many::identity::Identity;

fn pk_identity(b: u8) -> Identity {
    Identity::from_hash(vec![b; 28])
}

#[test]
fn identity_bytes_roundtrip() {
    let ids = vec![
        Identity::anonymous(),
        pk_identity(7),
        pk_identity(7).with_subresource_id(5).unwrap(),
    ];
    for id in ids {
        let bytes = id.to_vec();
        let back = Identity::try_from_vec(&bytes).unwrap();
        assert_eq!(back, id);
    }
}

#[test]
fn identity_text_roundtrip() {
    let ids = vec![
        Identity::anonymous(),
        pk_identity(0xA5),
        pk_identity(0xA5).with_subresource_id(7).unwrap(),
        pk_identity(0xA5).with_subresource_id(16777215).unwrap(),
    ];
    for id in ids {
        let text = id.to_text();
        assert!(text.starts_with('m'));
        let back = Identity::from_text(&text).unwrap();
        assert_eq!(back, id);
        // Case-insensitive decoding.
        let upper = text.to_uppercase();
        let back2 = Identity::from_text(&upper).unwrap();
        assert_eq!(back2, id);
    }
}

#[test]
fn identity_text_rejects_bad_checksum() {
    let id = pk_identity(3);
    let text = id.to_text();
    let mut chars: Vec<char> = text.chars().collect();
    let last = chars.len() - 1;
    chars[last] = if chars[last] == 'a' { 'b' } else { 'a' };
    let tampered: String = chars.into_iter().collect();
    assert!(Identity::from_text(&tampered).is_err());
}

#[test]
fn subresource_parent() {
    let id = pk_identity(0xA5);
    let sub = id.with_subresource_id(7).unwrap();
    assert_ne!(sub, id);
    assert_eq!(sub.parent(), id);
    // Two identities differing only by subresource are distinct.
    let sub2 = id.with_subresource_id(8).unwrap();
    assert_ne!(sub, sub2);
    assert_ne!(sub.to_text(), id.to_text());
}

#[test]
fn subresource_rejections() {
    assert!(Identity::anonymous().with_subresource_id(1).is_err());
    let id = pk_identity(1);
    let sub = id.with_subresource_id(1).unwrap();
    assert!(sub.with_subresource_id(2).is_err());
    assert!(id.with_subresource_id(16777216).is_err());
}

#[test]
fn try_from_rejects_unknown_tags_and_lengths() {
    assert!(Identity::try_from_vec(&vec![9u8]).is_err());
    assert!(Identity::try_from_vec(&vec![1u8; 5]).is_err());
    assert!(Identity::try_from_vec(&vec![]).is_err());
    let mut long = vec![1u8];
    long.extend_from_slice(&[0u8; 40]);
    assert!(Identity::try_from_vec(&long).is_err());
}
