use einkrad::wire::{Client, Expect, Message, Version};

#[test]
fn reader_starts_at_a_header() {
    let c = Client::new();
    assert_eq!(c.expect(), Expect::Header);
    assert_eq!(c.expects(), 4);
}

#[test]
fn header_is_little_endian() {
    let mut c = Client::new();
    assert_eq!(c.accept(vec![0x04, 0x03, 0x02, 0x01]), None);
    assert_eq!(c.expect(), Expect::Payload(0x0102_0304));
    assert_eq!(c.expects(), 16_909_060);
}

#[test]
fn largest_header() {
    let mut c = Client::new();
    assert_eq!(c.accept(vec![0xff, 0xff, 0xff, 0xff]), None);
    assert_eq!(c.expect(), Expect::Payload(u32::MAX));
}

#[test]
fn frame_yields_its_payload_and_the_next_frame_follows() {
    let mut c = Client::new();
    assert_eq!(c.accept(vec![3, 0, 0, 0]), None);
    assert_eq!(c.expects(), 3);
    assert_eq!(c.accept(vec![7, 8, 9]), Some(vec![7, 8, 9]));
    assert_eq!(c.expect(), Expect::Header);
    assert_eq!(c.accept(vec![1, 1, 0, 0]), None);
    assert_eq!(c.expects(), 257);
}

#[test]
fn empty_frame_yields_an_empty_payload() {
    let mut c = Client::new();
    assert_eq!(c.accept(vec![0, 0, 0, 0]), None);
    assert_eq!(c.expects(), 0);
    assert_eq!(c.accept(Vec::new()), Some(Vec::new()));
    assert_eq!(c.expects(), 4);
}

#[test]
fn greeting_carries_a_version() {
    let m = Message::Greeting { version: Version { major: 1, minor: 2, patch: 3 } };
    match m {
        Message::Greeting { version } => {
            assert_eq!(version, Version { major: 1, minor: 2, patch: 3 });
        }
    }
}
