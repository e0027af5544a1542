use gbafix::pad::{pad_to_power_of_two, padded_len};

#[test]
fn padded_lengths() {
    assert_eq!(padded_len(0), 1);
    assert_eq!(padded_len(1), 1);
    assert_eq!(padded_len(3), 4);
    assert_eq!(padded_len(192), 256);
    assert_eq!(padded_len(1000), 1024);
    assert_eq!(padded_len(1024), 1024);
    assert_eq!(padded_len(1025), 2048);
}

#[test]
fn pad_appends_zeros_to_next_power_of_two() {
    let mut buf: Vec<u8> = (0..1000).map(|i| (i % 251 + 1) as u8).collect();
    let orig = buf.clone();
    pad_to_power_of_two(&mut buf);
    assert_eq!(buf.len(), 1024);
    assert_eq!(&buf[..1000], &orig[..]);
    assert!(buf[1000..].iter().all(|&b| b == 0));
}

#[test]
fn pad_leaves_power_of_two_unchanged() {
    let mut buf: Vec<u8> = (0..512).map(|i| (i % 13) as u8).collect();
    let orig = buf.clone();
    pad_to_power_of_two(&mut buf);
    assert_eq!(buf, orig);
}

#[test]
fn pad_twice_equals_pad_once() {
    let mut once: Vec<u8> = vec![0xAB; 777];
    pad_to_power_of_two(&mut once);
    let mut twice = once.clone();
    pad_to_power_of_two(&mut twice);
    assert_eq!(once.len(), 1024);
    assert_eq!(twice, once);
}
