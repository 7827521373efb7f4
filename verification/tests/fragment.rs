use sni_fragment::fragment::{default_sni_chunk, split_client_hello, FragmentConfig};
use sni_fragment::packet::fingerprint::TlsFingerprint;
use sni_fragment::sni::{find_sni_range, sni_name_range_in_ext};

fn build(fp: &TlsFingerprint, sni: &str) -> Vec<u8> {
    fp.build_client_hello(sni)
}

/// Every split must reassemble to the original record.
fn assert_reassembly(record: &[u8], chunk: usize) {
    let frags = split_client_hello(record, chunk);
    let got: Vec<u8> = frags.iter().flat_map(|f| f.iter().copied()).collect();
    assert_eq!(got, record, "reassembly failed for chunk_size={chunk}");
}

#[test]
fn test_find_sni_range_chrome120() {
    let sni = "hcaptcha.com";
    let rec = build(&TlsFingerprint::Chrome120, sni);
    let (s, e) = find_sni_range(&rec).expect("SNI range not found");
    assert_eq!(&rec[s..e], sni.as_bytes());
}

#[test]
fn test_find_sni_range_default_fingerprint() {
    let sni = "security.vercel.com";
    let rec = build(&TlsFingerprint::Default, sni);
    let (s, e) = find_sni_range(&rec).expect("SNI range not found");
    assert_eq!(&rec[s..e], sni.as_bytes());
    // Must agree with the offset that a fixed-offset reader of the template uses.
    assert_eq!(s, 127);
}

#[test]
fn test_split_chunk3_reassembly() {
    // "hcaptcha.com" → "hca","ptc","ha.","com"
    let rec = build(&TlsFingerprint::Chrome120, "hcaptcha.com");
    assert_reassembly(&rec, 3);
}

#[test]
fn test_split_chunk3_sni_is_fragmented() {
    let sni = "hcaptcha.com";
    let rec = build(&TlsFingerprint::Chrome120, sni);
    let frags = split_client_hello(&rec, 3);
    // The full SNI must NOT appear in any single fragment
    let sni_bytes = sni.as_bytes();
    assert!(
        !frags
            .iter()
            .any(|f| f.windows(sni_bytes.len()).any(|w| w == sni_bytes)),
        "SNI hostname found intact in a fragment — fragmentation did not split it"
    );
}

#[test]
fn test_split_chunk0_sni_is_whole() {
    let sni = "example.com";
    let rec = build(&TlsFingerprint::Chrome120, sni);
    let frags = split_client_hello(&rec, 0);
    assert_reassembly(&rec, 0);
    // The entire SNI hostname must appear as exactly one fragment
    let sni_bytes = sni.as_bytes();
    assert!(
        frags.iter().any(|f| f.as_slice() == sni_bytes),
        "whole-SNI fragment not found with chunk_size=0"
    );
}

#[test]
fn test_split_no_sni_returns_whole() {
    // TLS application_data record — not a ClientHello
    let record: Vec<u8> = vec![0x17, 0x03, 0x03, 0x00, 0x05, 1, 2, 3, 4, 5];
    let frags = split_client_hello(&record, 3);
    assert_eq!(frags.len(), 1);
    assert_eq!(frags[0], record);
}

#[test]
fn test_reassembly_all_fingerprints() {
    let sni = "test.example.com";
    for fp in [
        TlsFingerprint::Default,
        TlsFingerprint::Chrome120,
        TlsFingerprint::Firefox120,
        TlsFingerprint::Safari17,
    ] {
        let rec = build(&fp, sni);
        for chunk in [0usize, 1, 3, 7, 50] {
            assert_reassembly(&rec, chunk);
        }
    }
}

#[test]
fn test_sni_found_all_fingerprints() {
    let sni = "bypass.example.com";
    for fp in [
        TlsFingerprint::Default,
        TlsFingerprint::Chrome120,
        TlsFingerprint::Firefox120,
        TlsFingerprint::Safari17,
        TlsFingerprint::Edge120,
    ] {
        let rec = build(&fp, sni);
        let (s, e) = find_sni_range(&rec)
            .unwrap_or_else(|| panic!("SNI not found for fingerprint {:?}", fp));
        assert_eq!(&rec[s..e], sni.as_bytes(), "wrong SNI range for {:?}", fp);
    }
}

#[test]
fn config_defaults() {
    let cfg = FragmentConfig::default();
    assert_eq!(default_sni_chunk(), 3);
    assert_eq!((cfg.sni_chunk, cfg.delay_ms), (3, 0));
    let copy = cfg.clone();
    assert_eq!((copy.sni_chunk, copy.delay_ms), (3, 0));
}

#[test]
fn split_of_nothing_is_one_empty_piece() {
    assert_eq!(split_client_hello(&[], 3), vec![Vec::<u8>::new()]);
    assert_eq!(split_client_hello(&[], 0), vec![Vec::<u8>::new()]);
}

#[test]
fn split_pieces_are_prefix_chunks_and_suffix() {
    let rec = build(&TlsFingerprint::Default, "hcaptcha.com");
    let frags = split_client_hello(&rec, 5);
    assert_eq!(frags.len(), 5);
    assert_eq!(frags[0], rec[..127].to_vec());
    assert_eq!(frags[1], b"hcapt".to_vec());
    assert_eq!(frags[2], b"cha.c".to_vec());
    assert_eq!(frags[3], b"om".to_vec());
    assert_eq!(frags[4], rec[139..].to_vec());
}

#[test]
fn chunk_size_beyond_every_name_keeps_it_whole() {
    let rec = build(&TlsFingerprint::Default, "a.test");
    let frags = split_client_hello(&rec, usize::MAX);
    assert_eq!(frags.len(), 3);
    assert_eq!(frags[1], b"a.test".to_vec());
    assert_reassembly(&rec, usize::MAX);
}

/// A record that ends with its host name, and so has no piece behind it.
fn minimal_hello(exts: &[u8]) -> Vec<u8> {
    let mut body = vec![0x03, 0x03];
    body.extend_from_slice(&[0; 32]);
    body.push(0); // session id
    body.extend_from_slice(&[0, 2, 0x13, 0x01]); // cipher suites
    body.extend_from_slice(&[1, 0]); // compression methods
    body.extend_from_slice(&(exts.len() as u16).to_be_bytes());
    body.extend_from_slice(exts);
    let mut rec = vec![22, 3, 1];
    rec.extend_from_slice(&((body.len() + 4) as u16).to_be_bytes());
    rec.extend_from_slice(&[1, 0]);
    rec.extend_from_slice(&(body.len() as u16).to_be_bytes());
    rec.extend_from_slice(&body);
    rec
}

const SNI_EXT: [u8; 13] = [0, 0, 0, 9, 0, 7, 0, 0, 4, b'a', b'.', b'i', b'r'];

#[test]
fn name_at_the_very_end() {
    let rec = minimal_hello(&SNI_EXT);
    assert_eq!(rec.len(), 65);
    assert_eq!(find_sni_range(&rec), Some((61, 65)));
    let frags = split_client_hello(&rec, 2);
    assert_eq!(frags, vec![rec[..61].to_vec(), b"a.".to_vec(), b"ir".to_vec()]);
}

#[test]
fn bytes_behind_the_record_do_not_matter() {
    let mut rec = minimal_hello(&SNI_EXT);
    rec.extend_from_slice(&[22, 3, 1, 0, 0]);
    assert_eq!(find_sni_range(&rec), Some((61, 65)));
    assert_eq!(split_client_hello(&rec, 0)[2], vec![22, 3, 1, 0, 0]);
}

#[test]
fn other_extensions_are_skipped() {
    let mut exts = vec![0x0a, 0x0a, 0, 1, 0];
    exts.extend_from_slice(&SNI_EXT);
    assert_eq!(find_sni_range(&minimal_hello(&exts)), Some((66, 70)));
}

#[test]
fn broken_records_have_no_name() {
    let good = minimal_hello(&SNI_EXT);
    assert_eq!(find_sni_range(&[]), None);
    assert_eq!(find_sni_range(&good[..4]), None);
    assert_eq!(find_sni_range(&good[..good.len() - 1]), None);
    let mut bad = good.clone();
    bad[0] = 23; // not a handshake
    assert_eq!(find_sni_range(&bad), None);
    let mut bad = good.clone();
    bad[5] = 2; // a ServerHello
    assert_eq!(find_sni_range(&bad), None);
    let mut bad = good.clone();
    (bad[3], bad[4]) = (0, 0); // an empty record
    assert_eq!(find_sni_range(&bad), None);
    let mut bad = good.clone();
    (bad[7], bad[8]) = (0, 0); // an empty message
    assert_eq!(find_sni_range(&bad), None);
    let mut bad = good.clone();
    bad[8] += 1; // a message longer than its record
    assert_eq!(find_sni_range(&bad), None);
    let mut bad = good.clone();
    bad[43] = 200; // a session id longer than the message
    assert_eq!(find_sni_range(&bad), None);
    let mut bad = good.clone();
    bad[44] = 1; // cipher suites longer than the message
    assert_eq!(find_sni_range(&bad), None);
    let mut bad = good.clone();
    bad[50] = 1; // extensions longer than the message
    assert_eq!(find_sni_range(&bad), None);
    assert_eq!(find_sni_range(&minimal_hello(&[])), None);
    assert_eq!(find_sni_range(&minimal_hello(&[0, 16, 0, 9, 0])), None);
    assert_eq!(find_sni_range(&minimal_hello(&[0, 0, 0, 1, 0])), None);
}

#[test]
fn names_in_an_extension() {
    assert_eq!(sni_name_range_in_ext(&[]), None);
    assert_eq!(sni_name_range_in_ext(&[0, 0]), None);
    assert_eq!(sni_name_range_in_ext(&[0, 9, 0, 0, 1, b'x']), None);
    assert_eq!(sni_name_range_in_ext(&[0, 4, 0, 0, 1, b'x']), Some((5, 6)));
    // An entry of another type, and an empty one, are passed over.
    assert_eq!(
        sni_name_range_in_ext(&[0, 11, 1, 0, 1, b'z', 0, 0, 0, 0, 0, 1, b'x']),
        Some((12, 13))
    );
    assert_eq!(sni_name_range_in_ext(&[0, 3, 0, 0, 0]), None);
    assert_eq!(sni_name_range_in_ext(&[0, 4, 0, 0, 2, b'x']), None);
}

#[test]
fn versions_and_random_do_not_matter_to_the_finder() {
    let rec = build(&TlsFingerprint::Chrome120, "hcaptcha.com");
    let mut other = rec.clone();
    for i in (1..3).chain(9..43) {
        other[i] ^= 0xff;
    }
    assert_eq!(find_sni_range(&other), find_sni_range(&rec));
    assert_eq!(find_sni_range(&rec), Some((128, 140)));
}
