use blockchain::block::{bytes_equal, copy_bytes, recompute_hash, Block};
use blockchain::digest::push_le;
use blockchain::render::{push_digits, push_hex_list};

#[test]
fn digest_of_known_block() {
    let b = Block {
        index: 1,
        hash: vec![],
        prev_hash: vec![0u8; 32],
        ts: 1000,
        data: "abc".to_string(),
    };
    assert_eq!(
        recompute_hash(&b),
        vec![
            176, 77, 19, 201, 22, 27, 75, 132, 217, 119, 7, 72, 224, 101, 139, 133, 13, 73, 140,
            113, 114, 61, 101, 16, 234, 121, 18, 179, 75, 173, 7, 154
        ]
    );
}

#[test]
fn digest_hashes_utf8_payload() {
    let b = Block {
        index: 0,
        hash: vec![9, 9],
        prev_hash: vec![1, 2, 3],
        ts: 0,
        data: "h\u{e9}llo".to_string(),
    };
    assert_eq!(
        recompute_hash(&b),
        vec![
            106, 9, 47, 98, 225, 247, 62, 196, 229, 181, 14, 205, 241, 131, 45, 63, 104, 40, 93,
            89, 145, 41, 83, 245, 130, 183, 191, 169, 99, 172, 204, 100
        ]
    );
}

#[test]
fn little_endian_encoding() {
    let mut out = vec![0xaa];
    push_le(&mut out, 0x0102_0304, 8);
    assert_eq!(out, vec![0xaa, 4, 3, 2, 1, 0, 0, 0, 0]);
    let mut wide = Vec::new();
    push_le(&mut wide, u128::MAX, 16);
    assert_eq!(wide, vec![0xff; 16]);
    let mut none = Vec::new();
    push_le(&mut none, 5, 0);
    assert!(none.is_empty());
}

#[test]
fn digits_in_decimal_and_hex() {
    let mut s = String::new();
    push_digits(&mut s, 0, 10);
    push_digits(&mut s, 1234567890, 10);
    push_digits(&mut s, 255, 16);
    push_digits(&mut s, 5, 16);
    assert_eq!(s, "01234567890ff5");
    let mut big = String::new();
    push_digits(&mut big, u128::MAX, 10);
    assert_eq!(big, u128::MAX.to_string());
}

#[test]
fn hex_list_matches_debug_hex() {
    let bytes = vec![0u8, 5, 0x1f, 0xab, 255];
    let mut s = String::new();
    push_hex_list(&mut s, &bytes);
    assert_eq!(s, format!("{:x?}", bytes));
    let mut e = String::new();
    push_hex_list(&mut e, &vec![]);
    assert_eq!(e, "[]");
}

#[test]
fn block_text() {
    let b = Block {
        index: 2,
        hash: vec![0xde, 0xad, 1],
        prev_hash: vec![],
        ts: 1700000000123,
        data: "payload".to_string(),
    };
    assert_eq!(
        b.to_string(),
        "index: 2\nhash: [de, ad, 1]\nprev_hash:[]\nts: 1700000000123\ndata:payload"
    );
}

#[test]
fn byte_helpers() {
    let v = vec![3u8, 1, 4];
    assert_eq!(copy_bytes(&v), v);
    assert!(bytes_equal(&v, &vec![3, 1, 4]));
    assert!(!bytes_equal(&v, &vec![3, 1, 5]));
    assert!(!bytes_equal(&v, &vec![3, 1]));
    let b = Block {
        index: 4,
        hash: vec![1],
        prev_hash: vec![2],
        ts: 3,
        data: "d".to_string(),
    };
    let c = b.copy_block();
    assert_eq!(c.to_string(), b.to_string());
}

#[test]
fn block_text_tells_blocks_apart() {
    let a = Block {
        index: 1,
        hash: vec![1, 0x23],
        prev_hash: vec![4],
        ts: 10,
        data: "d".to_string(),
    };
    let mut b = a.clone();
    b.hash = vec![0x12, 3];
    assert_ne!(a.to_string(), b.to_string());
    let mut c = a.clone();
    c.index = 11;
    c.ts = 0;
    assert_ne!(a.to_string(), c.to_string());
    assert_eq!(a.to_string(), a.copy_block().to_string());
}
