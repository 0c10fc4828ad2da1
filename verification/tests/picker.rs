use frame_picker::FramePicker;
use frame_picker::iap2_frame_meta::Iap2FrameMeta;
use frame_picker::{Empty, Full};

fn picker() -> FramePicker<500, Iap2FrameMeta> {
    FramePicker::<500, Iap2FrameMeta>::new()
}

#[test]
fn test_feed_handshake() {
    let mut picker = picker();
    let shake = [0xff, 0x55, 0x02, 0x00, 0xee, 0x10];
    assert_eq!(picker.feed_data(&shake[..]), Ok(6));
    assert_eq!(picker.dropped(), 0);
    assert_eq!(picker.pending_len(), 6);
    assert!(picker.contain_frame());
    assert_eq!(picker.frame_complete(), true);

    assert_eq!(picker.acquire_frame(), Ok(&shake[..]));
    assert_eq!(picker.release_frame(), Ok(()));
}

#[test]
fn test_feed_normal_data() {
    let mut picker = picker();
    let normal_data = [0xff, 0x5a, 0x00, 0x0a, 0x05, 0x06, 0x07, 0x08, 0x09, 0x0a];
    assert_eq!(picker.feed_data(&normal_data[..]), Ok(10));
    assert_eq!(picker.dropped(), 0);
    assert_eq!(picker.pending_len(), 10);
    assert!(picker.contain_frame());
    assert_eq!(picker.frame_complete(), true);

    assert_eq!(picker.acquire_frame(), Ok(&normal_data[..]));
    assert_eq!(picker.release_frame(), Ok(()));
}

#[test]
fn test_feed_data_exceed_storage() {
    let mut picker = FramePicker::<10, Iap2FrameMeta>::new();
    let normal_data = [0xff, 0x5a, 0x00, 0x0b, 0x05, 0x06, 0x07, 0x08, 0x09, 0x0a, 0x0b];
    assert_eq!(picker.feed_data(&normal_data[..]), Err(Full));
    assert_eq!(picker.pending_len(), 0);
    assert_eq!(picker.contain_frame(), false);
    assert_eq!(picker.frame_complete(), false);
}

#[test]
fn test_feed_data_with_dropped() {
    let mut picker = picker();
    let normal_data = [0x00, 0x00, 0xff, 0x5a, 0x00, 0x0a, 0x05, 0x06, 0x07, 0x08, 0x09, 0x0a];
    assert_eq!(picker.feed_data(&normal_data[..]), Ok(12));
    assert_eq!(picker.dropped(), 2);
    assert_eq!(picker.pending_len(), 10);
    assert_eq!(picker.contain_frame(), true);
    assert_eq!(picker.frame_complete(), true);

    assert_eq!(picker.feed_data(&normal_data[..]), Ok(12));
    assert_eq!(picker.dropped(), 2);
    assert_eq!(picker.pending_len(), 10 + 12);
    assert_eq!(picker.release_frame(), Ok(()));
    assert_eq!(picker.release_frame(), Ok(()));
}

#[test]
fn test_short_frame() {
    let mut picker = picker();
    let normal_data = [0xff, 0x5a, 0x00, 0x0a, 0x05, 0x06, 0x07, 0x08, 0x09];
    assert_eq!(picker.feed_data(&normal_data[..]), Ok(9));
    assert_eq!(picker.dropped(), 0);
    assert_eq!(picker.pending_len(), 9);
    assert!(picker.contain_frame());
    assert_eq!(picker.frame_complete(), false);

    assert_eq!(picker.feed_data(&[0x0a, 0xff, 0x5a]), Ok(3));
    assert_eq!(picker.frame_complete(), true);
    assert_eq!(picker.release_frame(), Ok(()));

    assert_eq!(picker.feed_data(&[0x00, 0x0a, 0x05, 0x06, 0x07, 0x08, 0x09, 0x0a]), Ok(8));
    assert_eq!(picker.frame_complete(), true);
}

#[test]
fn test_header_not_complete() {
    let mut picker = picker();
    let data1 = [0x32, 0x34, 0x42, 0x33, 0x52, 0x42, 0x32, 0x31, 0x93, 0x32, 0xff];
    let data2 = [0x5a, 0x00, 0x0a, 0x05, 0x06, 0x07, 0x08, 0x09, 0x0a];
    assert_eq!(picker.feed_data(&data1[..]), Ok(11));
    assert_eq!(picker.dropped(), 6);
    assert_eq!(picker.contain_frame(), false);

    assert_eq!(picker.feed_data(&data2[..]), Ok(9));
    assert_eq!(picker.dropped(), 10);
    assert_eq!(picker.contain_frame(), true);
}

#[test]
fn test_dequeue_frame_with() {
    let mut picker = picker();
    let shake = [0xff, 0x55, 0x02, 0x00, 0xee, 0x10];
    assert_eq!(picker.feed_data(&shake[..]), Ok(6));
    let copied = picker.dequeue_frame_with(|frame: &[u8]| frame.to_vec());
    assert_eq!(copied, Ok(shake.to_vec()));
    assert_eq!(picker.pending_len(), 0);
}

#[test]
fn test_dequeue_frame_with_empty() {
    let mut picker = picker();
    assert_eq!(picker.feed_data(&[0xff, 0x5a, 0x00, 0x0a]), Ok(4));
    let r: Result<usize, Empty> = picker.dequeue_frame_with(|_frame: &[u8]| {
        panic!("transform must not run when no frame is complete")
    });
    assert_eq!(r, Err(Empty));
    assert_eq!(picker.pending_len(), 4);
    assert_eq!(picker.dropped(), 0);
}
