use image_compression::compression::code_stream::{push_code, read_code, CODE_SPACE};

#[test]
fn code_is_written_high_byte_first() {
    let mut out = vec![9u8];
    push_code(&mut out, 0x0102);
    assert_eq!(out, vec![9, 1, 2]);
    push_code(&mut out, 65535);
    push_code(&mut out, 0);
    push_code(&mut out, 255);
    push_code(&mut out, 256);
    assert_eq!(out, vec![9, 1, 2, 255, 255, 0, 0, 0, 255, 1, 0]);
}

#[test]
fn code_is_read_from_its_place() {
    let bytes = [0u8, 65, 1, 0, 255, 254, 7];
    assert_eq!(read_code(&bytes, 0), 65);
    assert_eq!(read_code(&bytes, 1), 256);
    assert_eq!(read_code(&bytes, 2), 65534);
}

#[test]
fn every_code_comes_back() {
    let mut out = Vec::new();
    for code in 0..=65535u16 {
        push_code(&mut out, code);
    }
    assert_eq!(out.len(), 2 * CODE_SPACE);
    for code in 0..=65535u16 {
        assert_eq!(read_code(&out, code as usize), code);
    }
}
