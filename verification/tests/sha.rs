use duckkit::sha::{sha256, sha256_b64, sha256_b64_into, Sha256};

fn hex(b: &[u8]) -> String {
    b.iter().map(|x| format!("{x:02x}")).collect()
}

#[test]
fn digests_the_known_vectors() {
    assert_eq!(hex(&sha256(b"")), "e3b0c44298fc1c149afbf4c8996fb92427ae41e4649b934ca495991b7852b855");
    assert_eq!(hex(&sha256(b"abc")), "ba7816bf8f01cfea414140de5dae2223b00361a396177a9cb410ff61f20015ad");
    assert_eq!(
        hex(&sha256(b"abcdbcdecdefdefgefghfghighijhijkijkljklmklmnlmnomnopnopq")),
        "248d6a61d20638b8e5c026930c3e6039a33ce45964ff2167f6ecedd419db06c1"
    );
    let million = vec![b'a'; 1_000_000];
    assert_eq!(hex(&sha256(&million)), "cdc76e5c9914fb9281a1c7e284d73e67f1809a48a497200e046d39ccc7112cd0");
}

#[test]
fn pieces_give_the_digest_of_the_whole() {
    let data: Vec<u8> = (0..300u32).map(|i| (i * 7) as u8).collect();
    let whole = sha256(&data);
    for cut in [0usize, 1, 55, 56, 63, 64, 65, 128, 299, 300] {
        let mut s = Sha256::new();
        s.update(&data[..cut]);
        s.update(&data[cut..]);
        assert_eq!(s.finalize(), whole);
    }
    assert_eq!(Sha256::default().finalize(), sha256(b""));
}

#[test]
fn digests_in_base64() {
    assert_eq!(sha256_b64(b"abc"), "ungWv48Bz+pBQUDeXa4iI7ADYaOWF3qctBD/YfIAFa0=");
    let mut out = [0u8; 44];
    sha256_b64_into(b"abc", &mut out);
    assert_eq!(&out, b"ungWv48Bz+pBQUDeXa4iI7ADYaOWF3qctBD/YfIAFa0=");
}
