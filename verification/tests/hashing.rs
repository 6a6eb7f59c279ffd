use goojara::hashing::SimpleHash;

#[test]
fn hash_of_abc_is_sha1() {
    assert_eq!(SimpleHash::hash("abc"), "a9993e364706816aba3e25717850c26c9cd0d89d");
}

#[test]
fn hash_of_empty_string() {
    assert_eq!(SimpleHash::hash(""), "da39a3ee5e6b4b0d3255bfef95601890afd80709");
}

#[test]
fn hash_of_two_block_message() {
    assert_eq!(
        SimpleHash::hash("abcdbcdecdefdefgefghfghighijhijkijkljklmjklmnlmnomnopnopq"),
        "bea9b539c4e73a73807e56c5a879042503011191"
    );
}

#[test]
fn hash_of_long_message() {
    let s = "a".repeat(1000);
    assert_eq!(SimpleHash::hash(&s), "291e9a6c66994949b57ba5e650361e98fc36b1ba");
}

#[test]
fn hash_uses_code_points_of_non_ascii_characters() {
    assert_eq!(SimpleHash::hash("é"), "1599e9fa41ec68c80230491902786bee889f5bcb");
    assert_eq!(SimpleHash::hash("日本語"), "2ae98a49c50cf22ba279b4ff84d9317cbb802dad");
    assert_eq!(SimpleHash::hash("😀x"), "b91df3642bd3697a1ec6b8cc9bfbc46ef140076c");
}

#[test]
fn hash_of_one_byte_code_points_is_sha1_of_those_bytes() {
    // "é" is U+00E9: the digest is SHA-1 of the single byte 0xE9.
    assert_eq!(SimpleHash::hash("\u{e9}"), "1599e9fa41ec68c80230491902786bee889f5bcb");
}

#[test]
fn hash_is_forty_lowercase_hex_digits() {
    for s in ["", "x", "hello world", "Grüße", "0123456789"] {
        let h = SimpleHash::hash(s);
        assert_eq!(h.chars().count(), 40);
        assert!(h.chars().all(|c| c.is_ascii_digit() || ('a'..='f').contains(&c)));
    }
}

#[test]
fn sha1_func_rotates_left() {
    assert_eq!(SimpleHash::sha1_func(0x8000_0001, 1), 0x0000_0003);
    assert_eq!(SimpleHash::sha1_func(0x1234_5678, 8), 0x3456_7812);
    assert_eq!(SimpleHash::sha1_func(1, 31), 0x8000_0000);
}

#[test]
fn sha1_func_rotation_is_undone_by_the_complement() {
    let a = 0xdead_beefu32;
    for e in 1..32 {
        assert_eq!(SimpleHash::sha1_func(SimpleHash::sha1_func(a, e), 32 - e), a);
    }
}

#[test]
fn pad_message_keeps_the_text() {
    assert_eq!(SimpleHash::pad_message("héllo wörld"), "héllo wörld");
    assert_eq!(SimpleHash::pad_message(""), "");
}

#[test]
fn encode_gives_utf8_bytes() {
    assert_eq!(SimpleHash::encode("aé"), vec![0x61, 0xc3, 0xa9]);
    assert_eq!(SimpleHash::encode("日"), "日".as_bytes().to_vec());
}

#[test]
fn hash_at_block_boundaries() {
    assert_eq!(SimpleHash::hash(&"a".repeat(55)), "c1c8bbdc22796e28c0e15163d20899b65621d65a");
    assert_eq!(SimpleHash::hash(&"a".repeat(56)), "c2db330f6083854c99d4b5bfb6e8f29f201be699");
    assert_eq!(SimpleHash::hash(&"a".repeat(64)), "0098ba824b5c16427bd7a1122a5a442a25ec644d");
    assert_eq!(
        SimpleHash::hash("The quick brown fox jumps over the lazy dog"),
        "2fd4e1c67a2d28fced849ee1bb76e7391b93eb12"
    );
}
