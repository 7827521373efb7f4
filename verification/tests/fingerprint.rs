use sni_fragment::fragment::split_client_hello;
use sni_fragment::packet::fingerprint::{
    build_chrome120, build_firefox120, build_safari17, chrome120_hello, firefox120_hello,
    pick_grease, random_grease, safari17_hello, TlsFingerprint,
};
use sni_fragment::sni::find_sni_range;

fn check_tls_record(buf: &[u8], sni: &str) {
    assert!(buf.len() > 9, "packet too short");
    assert_eq!(buf[0], 0x16, "not a handshake record");
    assert_eq!(buf[1], 0x03, "unexpected record version major");
    assert_eq!(buf[2], 0x01, "unexpected record version minor");

    let record_len = u16::from_be_bytes([buf[3], buf[4]]) as usize;
    assert_eq!(record_len + 5, buf.len(), "record length mismatch");

    assert_eq!(buf[5], 0x01, "not a ClientHello");

    // Scan for SNI in the packet
    let sni_bytes = sni.as_bytes();
    let found = buf.windows(sni_bytes.len()).any(|w| w == sni_bytes);
    assert!(found, "SNI '{}' not found in packet", sni);
}

#[test]
fn chrome120_valid_structure() {
    let ch = TlsFingerprint::Chrome120.build_client_hello("example.com");
    check_tls_record(&ch, "example.com");
}

#[test]
fn firefox120_valid_structure() {
    let ch = TlsFingerprint::Firefox120.build_client_hello("example.com");
    check_tls_record(&ch, "example.com");
}

#[test]
fn safari17_valid_structure() {
    let ch = TlsFingerprint::Safari17.build_client_hello("example.com");
    check_tls_record(&ch, "example.com");
}

#[test]
fn edge120_same_as_chrome120() {
    // Both should produce structurally identical packets (same cipher/extension set)
    let c = TlsFingerprint::Chrome120.build_client_hello("test.com");
    let e = TlsFingerprint::Edge120.build_client_hello("test.com");
    // Same length (modulo random bytes) — check structural parts
    assert_eq!(c[0], e[0]); // content type
    assert_eq!(c[5], e[5]); // handshake type
    assert_eq!(c.len(), e.len(), "Chrome120 and Edge120 packet sizes differ");
}

#[test]
fn default_fingerprint_unchanged() {
    let ch = TlsFingerprint::Default.build_client_hello("test.com");
    assert_eq!(ch[0], 0x16);
    assert_eq!(ch[1], 0x03);
    assert_eq!(ch[2], 0x01);
}

#[test]
fn long_sni_works() {
    let sni = "a".repeat(100) + ".example.com";
    for fp in [
        TlsFingerprint::Chrome120,
        TlsFingerprint::Firefox120,
        TlsFingerprint::Safari17,
    ] {
        let ch = fp.build_client_hello(&sni);
        check_tls_record(&ch, &sni);
    }
}

#[test]
fn default_profile() {
    assert_eq!(TlsFingerprint::default(), TlsFingerprint::Default);
    let a = TlsFingerprint::Default.build_client_hello("test.com");
    let b = TlsFingerprint::Default.build_client_hello("test.com");
    assert_eq!(a, b);
    check_tls_record(&a, "test.com");
}

#[test]
fn reserved_values() {
    assert_eq!(pick_grease(0), 0x0a0a);
    assert_eq!(pick_grease(1), 0x1a1a);
    assert_eq!(pick_grease(15), 0xfafa);
    assert_eq!(pick_grease(16), 0x0a0a);
    assert_eq!(pick_grease(u32::MAX), 0xfafa);
    let mut rng = rand::thread_rng();
    for _ in 0..100 {
        let v = random_grease(&mut rng);
        assert_eq!(v & 0x0f0f, 0x0a0a);
        assert_eq!(v >> 8, v & 0xff);
    }
}

/// The types of the extensions of `rec`, in order.
fn ext_types(rec: &[u8]) -> Vec<u16> {
    let ciphers = u16::from_be_bytes([rec[76], rec[77]]) as usize;
    let mut pos = 78 + ciphers + 4;
    let mut types = Vec::new();
    while pos < rec.len() {
        types.push(u16::from_be_bytes([rec[pos], rec[pos + 1]]));
        pos += 4 + u16::from_be_bytes([rec[pos + 2], rec[pos + 3]]) as usize;
    }
    assert_eq!(pos, rec.len());
    types
}

/// The data of the first extension of `rec` that has the type `kind`.
fn ext_data(rec: &[u8], kind: u16) -> Vec<u8> {
    let ciphers = u16::from_be_bytes([rec[76], rec[77]]) as usize;
    let mut pos = 78 + ciphers + 4;
    loop {
        let len = u16::from_be_bytes([rec[pos + 2], rec[pos + 3]]) as usize;
        if u16::from_be_bytes([rec[pos], rec[pos + 1]]) == kind {
            return rec[pos + 4..pos + 4 + len].to_vec();
        }
        pos += 4 + len;
    }
}

/// The cipher suites of `rec`, in order.
fn cipher_suites(rec: &[u8]) -> Vec<u16> {
    let n = u16::from_be_bytes([rec[76], rec[77]]) as usize;
    rec[78..78 + n]
        .chunks(2)
        .map(|c| u16::from_be_bytes([c[0], c[1]]))
        .collect()
}

#[test]
fn chrome120_lists() {
    let rec = chrome120_hello(&[1; 32], &[2; 32], &[3; 32], 0x3a3a, "test.com");
    check_tls_record(&rec, "test.com");
    assert_eq!(rec[9..11], [0x03, 0x03]);
    assert_eq!(rec[11..43], [1; 32]);
    assert_eq!(rec[43], 32);
    assert_eq!(rec[44..76], [2; 32]);
    assert_eq!(
        cipher_suites(&rec),
        vec![
            0x3a3a, 4865, 4866, 4867, 49195, 49199, 49196, 49200, 52393, 52392, 49171, 49172, 156,
            157, 47, 53
        ]
    );
    assert_eq!(
        ext_types(&rec),
        vec![
            0x3a3a, 0, 23, 65281, 10, 11, 35, 16, 5, 13, 18, 51, 45, 43, 27, 17513, 0x3a3a, 21
        ]
    );
    assert_eq!(ext_data(&rec, 10), vec![0, 6, 0, 29, 0, 23, 0, 24]);
    assert_eq!(ext_data(&rec, 11), vec![1, 0]);
    assert_eq!(ext_data(&rec, 51)[6..], [3; 32]);
}

#[test]
fn firefox120_lists() {
    let rec = firefox120_hello(&[1; 32], &[2; 32], &[3; 32], "test.com");
    check_tls_record(&rec, "test.com");
    assert_eq!(
        cipher_suites(&rec),
        vec![
            4865, 4867, 4866, 49195, 49199, 49196, 49200, 52393, 52392, 49171, 49172, 156, 157, 47,
            53, 10, 255
        ]
    );
    assert_eq!(
        ext_types(&rec),
        vec![0, 23, 65281, 10, 11, 35, 16, 5, 13, 18, 51, 45, 43, 21]
    );
    assert_eq!(ext_data(&rec, 10), vec![0, 8, 0, 29, 0, 23, 0, 24, 0, 25]);
    assert_eq!(ext_data(&rec, 11), vec![1, 0]);
}

#[test]
fn safari17_lists() {
    let rec = safari17_hello(&[1; 32], &[2; 32], &[3; 32], "test.com");
    check_tls_record(&rec, "test.com");
    assert_eq!(
        cipher_suites(&rec),
        vec![
            4865, 4866, 4867, 49196, 49195, 52393, 49200, 49199, 52392, 49172, 49171, 157, 156, 53,
            47
        ]
    );
    assert_eq!(
        ext_types(&rec),
        vec![0, 23, 65281, 10, 11, 16, 5, 13, 18, 51, 45, 43]
    );
    assert_eq!(ext_data(&rec, 10), vec![0, 8, 0, 29, 0, 23, 0, 24, 0, 25]);
    assert_eq!(ext_data(&rec, 11), vec![1, 0]);
}

#[test]
fn random_values_are_drawn_anew() {
    for build in [build_chrome120, build_firefox120, build_safari17] {
        let a = build("test.com");
        let b = build("test.com");
        assert_eq!(a.len(), b.len());
        assert_ne!(a[11..43], b[11..43]);
        assert_ne!(a[44..76], b[44..76]);
        assert_ne!(a[11..43], [0; 32]);
        assert_ne!(a[44..76], [0; 32]);
    }
}

#[test]
fn lengths_of_very_long_names_wrap() {
    let rec = safari17_hello(&[0; 32], &[0; 32], &[0; 32], &"x".repeat(65536));
    let short = safari17_hello(&[0; 32], &[0; 32], &[0; 32], "");
    assert_eq!(rec.len(), short.len() + 65536);
    assert_eq!(rec[3..5], short[3..5]);
    assert_eq!(rec[6..9], [1, short[7], short[8]]);
}

#[test]
fn lengths_and_places_of_the_name() {
    for (fp, fixed, offset) in [
        (TlsFingerprint::Default, 298, 127),
        (TlsFingerprint::Chrome120, 294, 128),
        (TlsFingerprint::Edge120, 294, 128),
        (TlsFingerprint::Firefox120, 274, 125),
        (TlsFingerprint::Safari17, 266, 121),
    ] {
        for name in ["x", "test.com", "a-much-longer.name.example.org", "b\u{fc}cher.example"] {
            let rec = fp.build_client_hello(name);
            assert_eq!(rec.len(), fixed + name.len());
            assert_eq!(find_sni_range(&rec), Some((offset, offset + name.len())));
            let pieces = split_client_hello(&rec, 0);
            assert_eq!(pieces.len(), 3);
            assert_eq!(pieces[0], rec[..offset].to_vec());
            assert_eq!(pieces[1], name.as_bytes().to_vec());
            assert_eq!(pieces[2], rec[offset + name.len()..].to_vec());
        }
        let rec = fp.build_client_hello("");
        assert_eq!(rec.len(), fixed);
        assert_eq!(find_sni_range(&rec), None);
    }
}

#[test]
fn longest_name_that_is_found() {
    let name = "x".repeat(65540 - 266);
    let rec = TlsFingerprint::Safari17.build_client_hello(&name);
    check_tls_record(&rec, &name);
    assert_eq!(find_sni_range(&rec), Some((121, 65540 - 145)));
    let name = "x".repeat(65541 - 266);
    assert_eq!(find_sni_range(&TlsFingerprint::Safari17.build_client_hello(&name)), None);
}

#[test]
fn records_of_one_profile_differ_only_where_they_are_drawn() {
    let drawn = |fp: &TlsFingerprint, len: usize, i: usize| {
        let fixed = (11..43).contains(&i) || (44..76).contains(&i);
        match fp {
            TlsFingerprint::Default => false,
            TlsFingerprint::Chrome120 | TlsFingerprint::Edge120 => {
                fixed
                    || (78..80).contains(&i)
                    || (114..116).contains(&i)
                    || (len - 70..len - 38).contains(&i)
                    || (len - 9..len - 7).contains(&i)
            }
            TlsFingerprint::Firefox120 => fixed || (len - 51..len - 19).contains(&i),
            TlsFingerprint::Safari17 => fixed || (len - 47..len - 15).contains(&i),
        }
    };
    for fp in [
        TlsFingerprint::Default,
        TlsFingerprint::Chrome120,
        TlsFingerprint::Edge120,
        TlsFingerprint::Firefox120,
        TlsFingerprint::Safari17,
    ] {
        let a = fp.build_client_hello("test.example.com");
        for _ in 0..8 {
            let b = fp.build_client_hello("test.example.com");
            assert_eq!(a.len(), b.len());
            for i in 0..a.len() {
                assert!(a[i] == b[i] || drawn(&fp, a.len(), i), "{fp:?} {i}");
            }
        }
    }
}
