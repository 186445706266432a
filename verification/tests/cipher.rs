use secretd::cipher::apply_key_stream;
use secretd::store::SecureStore;

#[test]
fn key_stream_repeats_the_key() {
    let out = apply_key_stream(&[0x01, 0x02, 0x03, 0x04, 0x05], &[0xF0, 0x0F]);
    assert_eq!(out, vec![0xF1, 0x0D, 0xF3, 0x0B, 0xF5]);
}

#[test]
fn key_stream_with_empty_key_gives_nothing() {
    let out = apply_key_stream(&[1, 2, 3], &[]);
    assert_eq!(out, Vec::<u8>::new());
}

#[test]
fn key_stream_applied_twice_gives_the_data_back() {
    let data = b"an ordinary secret".to_vec();
    let key = vec![7u8, 0, 255, 31];
    let once = apply_key_stream(&data, &key);
    assert_ne!(once, data);
    assert_eq!(apply_key_stream(&once, &key), data);
}

#[test]
fn store_encrypt_and_decrypt_are_inverse() {
    let key = vec![0xAAu8; 32];
    let sealed = SecureStore::encrypt(b"value", &key);
    assert_eq!(sealed, vec![b'v' ^ 0xAA, b'a' ^ 0xAA, b'l' ^ 0xAA, b'u' ^ 0xAA, b'e' ^ 0xAA]);
    assert_eq!(SecureStore::decrypt(&sealed, &key), b"value".to_vec());
}
