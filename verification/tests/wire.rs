use pngme::wire::{push_u32_be, read_u32_be};

#[test]
fn integers_are_written_most_significant_byte_first() {
    let mut out = vec![9u8];
    push_u32_be(&mut out, 0x0102_0304);
    assert_eq!(out, vec![9, 1, 2, 3, 4]);
    push_u32_be(&mut out, 42);
    assert_eq!(out, vec![9, 1, 2, 3, 4, 0, 0, 0, 42]);
    push_u32_be(&mut out, u32::MAX);
    assert_eq!(&out[9..], &[255, 255, 255, 255]);
}

#[test]
fn integers_are_read_most_significant_byte_first() {
    let bytes = [7u8, 0xab, 0xd1, 0xd8, 0x4e, 0, 0, 1, 0];
    assert_eq!(read_u32_be(&bytes, 1), 2882656334);
    assert_eq!(read_u32_be(&bytes, 5), 256);
    assert_eq!(read_u32_be(&bytes, 0), 0x07ab_d1d8);
}

#[test]
fn written_integers_read_back() {
    for x in [0u32, 1, 255, 256, 65535, 65536, 0x00ff_ffff, 0x0100_0000, u32::MAX] {
        let mut out = Vec::new();
        push_u32_be(&mut out, x);
        assert_eq!(out, x.to_be_bytes().to_vec());
        assert_eq!(read_u32_be(&out, 0), x);
    }
}
