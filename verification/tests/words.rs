use procinject::words::{vec_bytes, vec_conversion, TRAP_BYTE, WORD_SIZE};

#[test]
fn packing_is_little_endian() {
    let words = vec_conversion(vec![0, 1, 2, 3, 4, 5, 6, 7]);
    assert_eq!(words, vec![0x0706050403020100u64]);
}

#[test]
fn partial_word_is_padded_with_trap_bytes() {
    let words = vec_conversion(vec![1, 2, 3]);
    assert_eq!(words, vec![0xcccccccccc030201u64]);
}

#[test]
fn aligned_buffer_gets_no_padding() {
    let words = vec_conversion(vec![0xAA; 16]);
    assert_eq!(words.len(), 2);
    assert_eq!(words, vec![0xAAAAAAAAAAAAAAAAu64, 0xAAAAAAAAAAAAAAAAu64]);
    assert_eq!(vec_conversion(Vec::new()), Vec::<u64>::new());
}

#[test]
fn unpacking_is_little_endian() {
    let bytes = vec_bytes(vec![0x0807060504030201u64]);
    assert_eq!(bytes, vec![1, 2, 3, 4, 5, 6, 7, 8]);
}

#[test]
fn pack_then_unpack_reproduces_the_bytes() {
    for len in 0..40usize {
        let original: Vec<u8> = (0..len).map(|i| (i * 7 + 13) as u8).collect();
        let words = vec_conversion(original.clone());
        let back = vec_bytes(words);
        // the original bytes come back exactly ...
        assert_eq!(&back[..len], &original[..]);
        // ... followed only by trap-byte padding up to the word boundary
        assert!(back.len() >= len && back.len() < len + WORD_SIZE);
        assert_eq!(back.len() % WORD_SIZE, 0);
        for &b in &back[len..] {
            assert_eq!(b, TRAP_BYTE);
        }
    }
}
