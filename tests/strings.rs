use llvm::{llvm_str, Str, String};

#[test]
fn empty_literal_decodes_to_empty_text() {
    let buf = llvm_str("");
    let view = Str::from_ptr(&buf);
    assert_eq!(view.as_str(), "");
    assert_eq!(view.as_ptr(), &[0u8][..]);
    assert_eq!(view.len(), 0);
    assert_eq!(view.as_ptr()[0], 0);
}

#[test]
fn named_literal_bytes_and_text() {
    let buf = llvm_str("my module");
    assert_eq!(buf.len(), 10);
    assert_eq!(buf, b"my module\0".to_vec());
    let view = Str::from_ptr(&buf);
    assert_eq!(view.as_str(), "my module");
    assert_eq!(view.as_ptr(), b"my module\0");
    assert_eq!(view.len(), 9);
}

#[test]
fn two_views_of_one_buffer_agree() {
    let buf = b"same text\0".to_vec();
    let first = Str::from_ptr(&buf);
    let second = Str::from_ptr(&buf);
    assert_eq!(first.as_str(), second.as_str());
    assert_eq!(first.to_string(), second.to_string());
    assert_eq!(first.as_str(), "same text");
}

#[test]
fn decoding_stops_at_first_terminator() {
    let buf = b"abc\0def\0".to_vec();
    let view = Str::from_ptr(&buf);
    assert_eq!(view.len(), 3);
    assert_eq!(view.to_bytes(), b"abc");
    assert_eq!(view.as_str(), "abc");
    assert_eq!(view.as_ptr().len(), 8);
}

#[test]
fn decoding_multibyte_text() {
    let buf = "gr\u{fc}\u{df}e \u{1f600}\0".as_bytes().to_vec();
    let view = Str::from_ptr(&buf);
    assert_eq!(view.as_str(), "gr\u{fc}\u{df}e \u{1f600}");
    assert_eq!(view.len(), buf.len() - 1);
}

#[test]
fn literal_round_trip_keeps_text() {
    for text in ["", "a", "my module", "caf\u{e9}", "\u{4e2d}\u{6587}", "tab\tnewline\n"] {
        let buf = llvm_str(text);
        assert_eq!(buf.len(), text.len() + 1);
        assert_eq!(*buf.last().unwrap(), 0);
        let view = Str::from_ptr(&buf);
        assert_eq!(view.as_str(), text);
        assert_eq!(view.to_string(), text.to_string());
    }
}

#[test]
fn literal_with_embedded_zero_decodes_to_prefix() {
    let buf = llvm_str("ab\0cd");
    assert_eq!(buf, b"ab\0cd\0".to_vec());
    assert_eq!(Str::from_ptr(&buf).as_str(), "ab");
}

#[test]
fn owned_view_matches_direct_view() {
    let bytes = b"owned text\0".to_vec();
    let owned = String::from_mut(bytes.clone());
    let direct = Str::from_ptr(&bytes);
    assert_eq!(owned.as_ref().as_ptr(), direct.as_ptr());
    assert_eq!(owned.as_ref().as_str(), direct.as_str());
    assert_eq!(owned.as_str(), "owned text");
    assert_eq!(owned.to_string(), "owned text".to_string());
}

#[test]
fn owned_wrapper_can_be_moved() {
    let owned = String::from_mut(llvm_str("moved"));
    let holder = vec![owned];
    let back = holder.into_iter().next().unwrap();
    assert_eq!(back.as_str(), "moved");
    assert_eq!(back.as_ref().len(), 5);
}
