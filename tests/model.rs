use alternet::did::{Did, Protocol};
use alternet::frame::{Frame, FrameType};
use alternet::network::State;
use alternet::records::{Locale, Locales, Version};

#[test]
fn version_numbers() {
    let mut v = Version::from_minor(1);
    assert_eq!((v.major(), v.minor(), v.patch()), (0, 1, 0));
    v.increment_major();
    v.increment_patch();
    v.increment_patch();
    assert_eq!((v.major(), v.minor(), v.patch()), (1, 1, 2));
    v.increment_minor();
    assert_eq!(v.minor(), 2);
    assert_eq!(Version::from_major(3).major(), 3);
    assert_eq!(Version::from_patch(4).patch(), 4);
}

#[test]
fn locales_keep_order() {
    let l = Locales(vec![]).add_locale(Locale::Fr).add_locale(Locale::default());
    assert_eq!(l.0, vec![Locale::Fr, Locale::En]);
}

#[test]
fn did_keeps_protocol() {
    assert_eq!(Did::new(Protocol::Ipfs).protocol, Protocol::Ipfs);
    let _ = State::new();
}

#[test]
fn frame_type_bytes() {
    for b in 0u8..5 {
        assert_eq!(FrameType::try_from_byte(b).unwrap().to_byte(), b);
    }
    assert_eq!(FrameType::try_from_byte(255), Err(255));
    assert_eq!(FrameType::try_from_byte(2), Ok(FrameType::Close));
    assert_eq!(Frame::Close { error_code: 12345 }.frame_type(), FrameType::Close);
    assert_eq!(Frame::KeyUpdate.frame_type(), FrameType::KeyUpdate);
}
