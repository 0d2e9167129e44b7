use devsecrets::clip::{base64_encode, candidates, osc52_sequence};

#[test]
fn base64_matches_known_vectors() {
    assert_eq!(base64_encode(b""), "");
    assert_eq!(base64_encode(b"f"), "Zg==");
    assert_eq!(base64_encode(b"fo"), "Zm8=");
    assert_eq!(base64_encode(b"foo"), "Zm9v");
    assert_eq!(base64_encode(b"foob"), "Zm9vYg==");
    assert_eq!(base64_encode(b"fooba"), "Zm9vYmE=");
    assert_eq!(base64_encode(b"foobar"), "Zm9vYmFy");
}

#[test]
fn base64_handles_utf8() {
    assert_eq!(base64_encode("héllo".as_bytes()), "aMOpbGxv");
}

#[test]
fn base64_length_is_four_per_started_triple() {
    for n in 0..20usize {
        let input = vec![0xffu8; n];
        assert_eq!(base64_encode(&input).chars().count(), 4 * ((n + 2) / 3));
    }
    assert_eq!(base64_encode(&[0xff, 0xfe, 0xfd]), "//79");
}

#[test]
fn osc52_wraps_the_base64_text() {
    assert_eq!(osc52_sequence("foo"), "\u{1b}]52;c;Zm9v\u{7}");
}

#[test]
fn clipboard_tools_per_platform() {
    let mac = candidates(true, false, false);
    assert_eq!(mac.len(), 1);
    assert_eq!(mac[0].program, "pbcopy");
    let win = candidates(false, true, false);
    assert_eq!(win[0].label, "clip");
    let x11 = candidates(false, false, false);
    assert_eq!(x11.len(), 2);
    assert_eq!(x11[0].program, "xclip");
    assert_eq!(x11[0].args, vec!["-selection".to_string(), "clipboard".to_string()]);
    assert_eq!(x11[1].args, vec!["--clipboard".to_string(), "--input".to_string()]);
    let wayland = candidates(false, false, true);
    assert_eq!(wayland.len(), 3);
    assert_eq!(wayland[0].label, "wl-copy");
}
