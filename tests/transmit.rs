use helmet_mcu::frame::{encode_frame, FrameAction};
use helmet_mcu::image::{decode_image, Image};
use helmet_mcu::rotate::SizeMismatch;
use helmet_mcu::transmit::{frame_image, plan_transmission, LoadError};

fn encode_png(samples: &[u8], width: u32, height: u32) -> Vec<u8> {
    encode_png_as(samples, width, height, png::ColorType::Grayscale)
}

fn encode_png_as(samples: &[u8], width: u32, height: u32, color: png::ColorType) -> Vec<u8> {
    let mut out = Vec::new();
    {
        let mut enc = png::Encoder::new(&mut out, width, height);
        enc.set_color(color);
        enc.set_depth(png::BitDepth::Eight);
        let mut w = enc.write_header().unwrap();
        w.write_image_data(samples).unwrap();
    }
    out
}

#[test]
fn decode_image_reads_samples_and_size() {
    let bytes = encode_png(&[10, 200, 30, 40, 50, 60], 3, 2);
    let img = decode_image(&bytes).unwrap();
    assert_eq!(img.samples, vec![10, 200, 30, 40, 50, 60]);
    assert_eq!(img.width, 3);
    assert_eq!(img.height, 2);
}

#[test]
fn decode_image_rejects_garbage() {
    assert!(decode_image(&[1, 2, 3, 4]).is_err());
}

#[test]
fn frame_image_rotates_then_frames() {
    let img = Image { samples: vec![255, 0, 0, 0], width: 2, height: 2 };
    let a = frame_image(img).unwrap();
    // a 2 x 2 view reads indices 1, 3, 0, 2
    assert_eq!(a, encode_frame(&vec![0, 0, 255, 0]));
}

#[test]
fn frame_image_rejects_size_mismatch() {
    let img = Image { samples: vec![0; 3], width: 2, height: 2 };
    match frame_image(img) {
        Err(e) => assert_eq!(e, SizeMismatch { len: 3, width: 2, height: 2 }),
        Ok(_) => panic!("3 samples are not 2 x 2"),
    }
}

#[test]
fn plan_transmission_from_png() {
    let bytes = encode_png(&[255, 0, 0, 0], 2, 2);
    let a = plan_transmission(&bytes).unwrap();
    let mut expected = vec![FrameAction::Write(0x23); 11];
    expected.push(FrameAction::Flush);
    expected.push(FrameAction::Write(0x04));
    expected.push(FrameAction::Flush);
    assert_eq!(a, expected);
}

#[test]
fn plan_transmission_reports_decode_error() {
    assert!(matches!(plan_transmission(&[0u8; 8]), Err(LoadError::Decode(_))));
}

#[test]
fn plan_transmission_reports_size_mismatch() {
    let bytes = encode_png_as(&[0u8; 12], 2, 2, png::ColorType::Rgb);
    match plan_transmission(&bytes) {
        Err(LoadError::Size(e)) => assert_eq!(e, SizeMismatch { len: 12, width: 2, height: 2 }),
        _ => panic!("an rgb image decodes to three samples per pixel"),
    }
}
