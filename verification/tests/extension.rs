use sni_fragment::packet::extension::{
    ext_alpn, ext_application_settings, ext_compress_cert, ext_ec_point_formats, ext_empty,
    ext_grease, ext_key_share_x25519, ext_psk_modes, ext_renegotiation_info, ext_sig_algs, ext_sni,
    ext_status_request, ext_supported_groups, ext_supported_versions, push_ext,
};
use sni_fragment::packet::record::assemble;
use sni_fragment::wire::{wu16, wu24};

#[test]
fn integers() {
    let mut buf = vec![9];
    wu16(&mut buf, 0x1234);
    wu24(&mut buf, 0xff56789a);
    assert_eq!(buf, vec![9, 0x12, 0x34, 0x56, 0x78, 0x9a]);
}

#[test]
fn extensions_with_fixed_data() {
    let mut buf = Vec::new();
    push_ext(&mut buf, 0x1234, &[7, 8]);
    assert_eq!(buf, vec![0x12, 0x34, 0, 2, 7, 8]);
    buf.clear();
    ext_empty(&mut buf, 0x0017);
    assert_eq!(buf, vec![0, 0x17, 0, 0]);
    buf.clear();
    ext_renegotiation_info(&mut buf);
    assert_eq!(buf, vec![0xff, 1, 0, 1, 0]);
    buf.clear();
    ext_ec_point_formats(&mut buf);
    assert_eq!(buf, vec![0, 0x0b, 0, 2, 1, 0]);
    buf.clear();
    ext_status_request(&mut buf);
    assert_eq!(buf, vec![0, 5, 0, 5, 1, 0, 0, 0, 0]);
    buf.clear();
    ext_psk_modes(&mut buf);
    assert_eq!(buf, vec![0, 0x2d, 0, 2, 1, 1]);
    buf.clear();
    ext_compress_cert(&mut buf);
    assert_eq!(buf, vec![0, 0x1b, 0, 3, 2, 0, 2]);
    buf.clear();
    ext_grease(&mut buf, 0x5a5a);
    assert_eq!(buf, vec![0x5a, 0x5a, 0, 1, 0]);
}

#[test]
fn extensions_with_lists() {
    assert_eq!(
        ext_sni("a.ir"),
        vec![0, 0, 0, 9, 0, 7, 0, 0, 4, b'a', b'.', b'i', b'r']
    );
    let mut buf = Vec::new();
    ext_supported_groups(&mut buf, &[0x001d, 0x0017]);
    assert_eq!(buf, vec![0, 0x0a, 0, 6, 0, 4, 0, 0x1d, 0, 0x17]);
    buf.clear();
    ext_alpn(&mut buf, &["h2", "x"]);
    assert_eq!(buf, vec![0, 0x10, 0, 7, 0, 5, 2, b'h', b'2', 1, b'x']);
    buf.clear();
    ext_sig_algs(&mut buf, &[0x0403]);
    assert_eq!(buf, vec![0, 0x0d, 0, 4, 0, 2, 4, 3]);
    buf.clear();
    ext_supported_versions(&mut buf, &[0x0304, 0x0303]);
    assert_eq!(buf, vec![0, 0x2b, 0, 5, 4, 3, 4, 3, 3]);
    buf.clear();
    ext_application_settings(&mut buf, &["h2"]);
    assert_eq!(buf, vec![0x44, 0x69, 0, 3, 2, b'h', b'2']);
    buf.clear();
    ext_key_share_x25519(&mut buf, &[6; 32]);
    assert_eq!(buf[..10], [0, 0x33, 0, 38, 0, 36, 0, 0x1d, 0, 32]);
    assert_eq!(buf[10..], [6; 32]);
}

#[test]
fn a_whole_record() {
    let rec = assemble(&[1; 32], &[2; 32], &[0x1301], &[5, 6, 7]);
    assert_eq!(rec.len(), 87);
    assert_eq!(rec[..11], [0x16, 3, 1, 0, 82, 1, 0, 0, 78, 3, 3]);
    assert_eq!(rec[11..43], [1; 32]);
    assert_eq!(rec[43], 0x20);
    assert_eq!(rec[44..76], [2; 32]);
    assert_eq!(rec[76..], [0, 2, 0x13, 1, 1, 0, 0, 3, 5, 6, 7]);
}
