use zeppelin_core::hash::Balloon;
use zeppelin_core::hashing::RunningHash;
use zeppelin_core::progress::Progress;

/// SHA3-512 of the empty input, as published by NIST.
#[test]
fn keccak_impl_test() {
    let hash = RunningHash::new();
    // RHS taken from NIST
    let expected: [u8; 64] = [
        0xA6, 0x9F, 0x73, 0xCC, 0xA2, 0x3A, 0x9A, 0xC5, 0xC8, 0xB5, 0x67, 0xDC, 0x18, 0x5A, 0x75,
        0x6E, 0x97, 0xC9, 0x82, 0x16, 0x4F, 0xE2, 0x58, 0x59, 0xE0, 0xD1, 0xDC, 0xC1, 0x47, 0x5C,
        0x80, 0xA6, 0x15, 0xB2, 0x12, 0x3A, 0xF1, 0xF5, 0xF9, 0x4C, 0x11, 0xE3, 0xE9, 0x40, 0x2C,
        0x3A, 0xC5, 0x58, 0xF5, 0x00, 0x19, 0x9D, 0x95, 0xB6, 0xD3, 0xE3, 0x01, 0x75, 0x85, 0x86,
        0x28, 0x1D, 0xCD, 0x26,
    ];
    assert_eq!(hash.finalize(), expected.to_vec());
}

/// Absorbing bytes in several pieces hashes the same as in one piece.
#[test]
fn hash_a_reader() {
    let msg: Vec<u8> = vec![1, 2, 3];
    let mut hash = RunningHash::new();
    hash.update(&msg);
    let res1 = hash.finalize();
    let mut hash2 = RunningHash::new();
    for chunk in msg.chunks(1) {
        hash2.update(chunk);
    }
    let res2 = hash2.finalize();
    assert_eq!(res1, res2);
    assert_eq!(res1.len(), 64);
}

#[test]
fn index_test() {
    let vec = vec![1, 2, 3, 4, 5];
    assert_eq!(vec[(-1i32).rem_euclid(vec.len() as i32) as usize], 5)
}

#[test]
fn index_test_2() {
    assert_eq!((10_usize + 1).rem_euclid(10), 1)
}

#[test]
fn cnt_sanity() {
    for i in 1..5 {
        for k in 1..5 {
            for j in 1..5 {
                let salt = vec![1, 2, 3];
                let b = Balloon::new(
                    "password".as_bytes(),
                    salt,
                    i,
                    j,
                    k,
                    &mut Progress::new(),
                );
                assert_eq!(b.counter() as usize, i + i * j * (k * 2 + 1));
            }
        }
    }
}

/// The first keystream block for password "password", salt [1, 2, 3],
/// s_cost 1000, t_cost 2 and step_delta 3 is pinned to a fixed value,
/// asymmetric "previous block" selection included: any change to the
/// construction that breaks existing ciphertexts is caught here.
#[test]
fn conformance_vector() {
    let expected: [u8; 64] = [
        223, 62, 61, 196, 82, 109, 12, 82, 113, 212, 228, 23, 14, 63, 238, 177, 182, 68, 211, 253,
        8, 192, 195, 228, 69, 26, 80, 243, 225, 227, 55, 216, 154, 117, 157, 208, 150, 247, 242,
        145, 39, 76, 49, 101, 102, 191, 30, 36, 126, 104, 236, 247, 107, 153, 157, 118, 208, 220,
        63, 149, 158, 21, 162, 159,
    ];
    let mut b = Balloon::new(
        "password".as_bytes(),
        vec![1, 2, 3],
        1000,
        2,
        3,
        &mut Progress::new(),
    );
    let out = b.step(&mut Progress::new());
    assert_eq!(out, expected.to_vec());
}

/// Two independently built generators with the same password, salt and
/// settings produce identical keystream blocks, step after step.
#[test]
fn generators_deterministic() {
    let mut a = Balloon::new(b"pw", vec![5, 6], 33, 2, 2, &mut Progress::new());
    let mut b = Balloon::new(b"pw", vec![5, 6], 33, 2, 2, &mut Progress::new());
    for _ in 0..200 {
        assert_eq!(a.step(&mut Progress::new()), b.step(&mut Progress::new()));
    }
}
