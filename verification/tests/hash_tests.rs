use gust::errors::GitError;

#[test]
fn id_is_written_in_forty_lower_case_digits() {
    let mut bytes = [0u8; 20];
    for (i, b) in bytes.iter_mut().enumerate() {
        *b = (i * 13 + 0xa0) as u8;
    }
    let id = gust::hash::Hash(bytes);
    assert_eq!(id.to_plain_str(), "a0adbac7d4e1eefb0815222f3c495663707d8a97");
    assert_eq!(gust::hash::Hash::zero().to_plain_str(), "0".repeat(40));
    assert_eq!(gust::hash::Hash::default().to_plain_str(), "0".repeat(40));
}

#[test]
fn reading_a_written_id_gives_the_id_back() {
    let mut bytes = [0u8; 20];
    for (i, b) in bytes.iter_mut().enumerate() {
        *b = (255 - i * 11) as u8;
    }
    let id = gust::hash::Hash(bytes);
    let text = id.to_plain_str();
    let back = gust::hash::Hash::from_bytes(text.as_bytes()).unwrap();
    assert_eq!(back.0, bytes);
    assert!(back.same(&id));
    let upper = gust::hash::Hash::from_bytes(text.to_uppercase().as_bytes()).unwrap();
    assert!(upper.same(&id));
}

#[test]
fn what_is_not_forty_digits_is_no_id() {
    assert!(matches!(gust::hash::Hash::from_bytes(b""), Err(GitError::FormatError)));
    assert!(matches!(gust::hash::Hash::from_bytes(&[b'0'; 39]), Err(GitError::FormatError)));
    assert!(matches!(gust::hash::Hash::from_bytes(&[b'0'; 41]), Err(GitError::FormatError)));
    let mut text = [b'0'; 40];
    text[39] = b'g';
    assert!(matches!(gust::hash::Hash::from_bytes(&text), Err(GitError::FormatError)));
    text[39] = b'F';
    assert_eq!(gust::hash::Hash::from_bytes(&text).unwrap().0[19], 0x0f);
}

#[test]
fn ids_are_compared_byte_by_byte() {
    let a = gust::hash::Hash([1u8; 20]);
    let mut other = [1u8; 20];
    other[19] = 2;
    assert!(a.same(&gust::hash::Hash([1u8; 20])));
    assert!(!a.same(&gust::hash::Hash(other)));
}
