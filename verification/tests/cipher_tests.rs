use sha3::Digest;
use zeppelin_core::cipher::{decrypt, decrypt_salt, encrypt, CryptError, CryptSettings, Stream};
use zeppelin_core::hashing::RunningHash;
use zeppelin_core::progress::Progress;

/// Applying the cipher to one whole buffer equals applying it through a
/// sequence of bounded chunks, for ciphertext and accumulator alike.
#[test]
fn apply_and_copy() {
    let mut data: Vec<u8> = (0..255).collect();
    let src = data.clone();
    let mut data2: Vec<u8> = Vec::new();

    let salt: Vec<u8> = vec![1, 2, 3];
    let mut s1 = Stream::new(
        b"123",
        salt.clone(),
        CryptSettings::default_for_testing(),
        &mut Progress::new(),
    );
    let mut s2 = Stream::new(
        b"123",
        salt.clone(),
        CryptSettings::default_for_testing(),
        &mut Progress::new(),
    );

    let mut salt1 = vec![0u8; 64];
    let mut salt2 = vec![0u8; 64];

    s1.apply_with_salt(&mut data, &mut salt1, &mut Progress::new());

    // The chunked path: stream the same bytes through a bounded buffer.
    const BUFFER_SIZE: usize = 8 * 1024;
    let mut off = 0;
    while off < src.len() {
        let n = std::cmp::min(BUFFER_SIZE, src.len() - off);
        let mut chunk = src[off..off + n].to_vec();
        s2.apply_with_salt(&mut chunk, &mut salt2, &mut Progress::new());
        data2.extend_from_slice(&chunk);
        off += n;
    }

    assert_eq!(data, data2);
    assert_eq!(salt1, salt2);
}

/// The two apply modes produce byte-identical ciphertext; they differ only
/// in the side accumulator.
#[test]
fn apply_implementations_equiv() {
    let passwd = "password";
    let salt = vec![1, 2, 3];
    let settings = CryptSettings::default_for_testing();
    let mut prog = Progress::new();
    let mut s1 = Stream::new(passwd.as_bytes(), salt.clone(), settings, &mut Progress::new());
    let mut s2 = Stream::new(passwd.as_bytes(), salt, settings, &mut prog);

    let mut data: Vec<u8> = (0..10_u64.pow(6)).map(|b| b as u8).collect();
    let mut data2 = data.clone();

    let mut hash = RunningHash::new();
    let mut acc = vec![0_u8; 64];
    s1.apply_with_hash(&mut data, &mut hash, &mut prog);
    s2.apply_with_salt(&mut data2, &mut acc, &mut prog);

    assert_eq!(data, data2)
}

#[test]
fn encrypt_and_decrypt() {
    let key = "password";
    let settings = CryptSettings::default_for_testing();
    let mut prog = Progress::new();

    let data: Vec<u8> = (0..10_u64.pow(5)).map(|b| b as u8).collect();

    let (ciphertext, mut salt) = encrypt(&data, key.as_bytes(), settings, &mut prog).unwrap();

    prog.set_state("Decrypting salt".to_string());

    decrypt_salt(&mut salt, &ciphertext);

    let (plain, success) =
        decrypt(&ciphertext, key.as_bytes(), &salt, settings, &mut prog).unwrap();

    assert!(success);
    assert_eq!(data, plain);
}

/// Decrypting under a different password still writes a payload of the
/// right length, but authentication fails.
#[test]
fn decrypt_wrong_password() {
    let settings = CryptSettings::default_for_testing();
    let data: Vec<u8> = (0..1000_u64).map(|b| b as u8).collect();

    let (ciphertext, mut salt) =
        encrypt(&data, b"passwd", settings, &mut Progress::new()).unwrap();
    decrypt_salt(&mut salt, &ciphertext);

    let (plain, success) =
        decrypt(&ciphertext, b"wrong passwd", &salt, settings, &mut Progress::new()).unwrap();

    assert!(!success);
    assert_eq!(plain.len(), data.len());
    assert_ne!(plain, data);
}

/// Tests if bytes after encryption are approximately equally distributed.
#[test]
fn cipher_text_distribution() {
    let mut cnt = [0usize; 256];

    let len = 2000000; // ~2MB

    let settings = CryptSettings::default_for_testing();
    let data: Vec<u8> = (0..len).map(|_| 255 / 2).collect();
    let (out, _salt) = encrypt(&data, b"passwd", settings, &mut Progress::new()).unwrap();

    for byte in out {
        cnt[byte as usize] += 1;
    }

    let mut max_dist = 0;
    for (prev, current) in std::iter::zip(cnt.iter(), cnt.iter().skip(1)) {
        let tmp = (*prev as usize).abs_diff(*current as usize);
        if tmp > max_dist {
            max_dist = tmp;
        }
    }
    assert!((max_dist as f64 / len as f64) < 0.0005); // fluctuations less than 0.05%
}

#[test]
fn apply_with_hash_is_correct() {
    let mut hasher1 = RunningHash::new();
    let mut data: Vec<u8> = (0..10_u64.pow(1)).map(|b| b as u8).collect();

    let mut s = Stream::new(
        "passwd".as_bytes(),
        Vec::from([0_u8; 64]),
        CryptSettings::default_for_testing(),
        &mut Progress::new(),
    );

    s.apply_with_hash(&mut data, &mut hasher1, &mut Progress::new());

    // Recompute the digest of the produced ciphertext with sha3 directly.
    let hash2: [u8; 64] = sha3::Sha3_512::digest(&data).into();

    let hash1 = hasher1.finalize();

    assert_eq!(hash1, hash2.to_vec());
}

/// Folding a ciphertext into a salt and replaying the fold recovers the
/// salt, whatever the ciphertext length, zero included.
#[test]
fn fold_and_recover_salt() {
    for len in [0usize, 1, 63, 64, 65, 200] {
        let ct: Vec<u8> = (0..len).map(|b| (b * 7 + 13) as u8).collect();
        let original: Vec<u8> = (0..64u8).collect();
        let mut acc = original.clone();
        // Fold the ciphertext in, as encryption does.
        let mut ptr = 0usize;
        for b in &ct {
            acc[ptr % 64] ^= *b;
            ptr += 1;
        }
        decrypt_salt(&mut acc, &ct);
        assert_eq!(acc, original);
    }
}

/// Settings with a zero cost parameter are rejected, not asserted on.
#[test]
fn invalid_settings_rejected() {
    let data = vec![1u8, 2, 3];
    for bad in [
        CryptSettings { s_cost: 0, t_cost: 2, step_delta: 3 },
        CryptSettings { s_cost: 1000, t_cost: 0, step_delta: 3 },
        CryptSettings { s_cost: 1000, t_cost: 2, step_delta: 0 },
    ] {
        let r = encrypt(&data, b"passwd", bad, &mut Progress::new());
        assert_eq!(r, Err(CryptError::InvalidSettings));
        let salt = vec![0u8; 64];
        let r = decrypt(&vec![0u8; 100], b"passwd", &salt, bad, &mut Progress::new());
        assert_eq!(r, Err(CryptError::InvalidSettings));
    }
}

/// A ciphertext shorter than the MAC block cannot be decrypted.
#[test]
fn truncated_ciphertext_rejected() {
    let salt = vec![0u8; 64];
    let short = vec![0u8; 63];
    let r = decrypt(
        &short,
        b"passwd",
        &salt,
        CryptSettings::default_for_testing(),
        &mut Progress::new(),
    );
    assert_eq!(r, Err(CryptError::TruncatedCiphertext));
}

/// Chunk boundaries are never observable: uneven chunks give the same
/// ciphertext and accumulator as one contiguous buffer.
#[test]
fn apply_chunked_matches_whole() {
    let settings = CryptSettings { s_cost: 16, t_cost: 1, step_delta: 1 };
    let salt = vec![9u8, 8, 7];
    let data: Vec<u8> = (0..300u64).map(|b| (b * 3) as u8).collect();

    let mut whole = data.clone();
    let mut acc1 = vec![0u8; 64];
    let mut s1 = Stream::new(b"pw", salt.clone(), settings, &mut Progress::new());
    s1.apply_with_salt(&mut whole, &mut acc1, &mut Progress::new());

    let mut s2 = Stream::new(b"pw", salt, settings, &mut Progress::new());
    let mut acc2 = vec![0u8; 64];
    let mut chunked: Vec<u8> = Vec::new();
    let mut off = 0;
    for size in [3usize, 64, 130, 1, 102] {
        let mut chunk = data[off..off + size].to_vec();
        s2.apply_with_salt(&mut chunk, &mut acc2, &mut Progress::new());
        chunked.extend_from_slice(&chunk);
        off += size;
    }
    assert_eq!(off, data.len());
    assert_eq!(whole, chunked);
    assert_eq!(acc1, acc2);
}
