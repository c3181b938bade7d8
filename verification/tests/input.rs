use oxide_ssh::input::{
    key_input_for, parse_u8, InputEncoder, InputMode, Key, KeyInput, Modifiers, PasteError,
    MAX_PASTE_BYTES,
};

fn normal() -> InputMode {
    InputMode::default()
}

fn app_cursor() -> InputMode {
    InputMode { app_cursor: true, bracketed_paste: false }
}

fn bracketed() -> InputMode {
    InputMode { app_cursor: false, bracketed_paste: true }
}

#[test]
fn shift_tab_encodes_backwards_tab() {
    assert_eq!(InputEncoder::encode(KeyInput::new(Key::Tab), normal()), b"\t".to_vec());
    assert_eq!(
        InputEncoder::encode(KeyInput::new(Key::Tab).shift(), normal()),
        b"\x1b[Z".to_vec()
    );
}

#[test]
fn fixed_keys_and_function_keys_use_standard_sequences() {
    let cases = [
        (Key::Enter, b"\r".as_slice()),
        (Key::Backspace, b"\x7f"),
        (Key::Tab, b"\t"),
        (Key::Escape, b"\x1b"),
        (Key::Insert, b"\x1b[2~"),
        (Key::Delete, b"\x1b[3~"),
        (Key::PageUp, b"\x1b[5~"),
        (Key::PageDown, b"\x1b[6~"),
        (Key::Function(1), b"\x1bOP"),
        (Key::Function(4), b"\x1bOS"),
        (Key::Function(5), b"\x1b[15~"),
        (Key::Function(12), b"\x1b[24~"),
    ];

    for (key, expected) in cases {
        assert_eq!(
            InputEncoder::encode(KeyInput::new(key), normal()).as_slice(),
            expected,
            "{key:?}",
        );
    }
}

#[test]
fn application_cursor_keys_are_encoded() {
    let cases = [
        (Key::ArrowUp, b"\x1b[A".as_slice(), b"\x1bOA".as_slice()),
        (Key::ArrowDown, b"\x1b[B", b"\x1bOB"),
        (Key::ArrowRight, b"\x1b[C", b"\x1bOC"),
        (Key::ArrowLeft, b"\x1b[D", b"\x1bOD"),
        (Key::Home, b"\x1b[H", b"\x1bOH"),
        (Key::End, b"\x1b[F", b"\x1bOF"),
    ];

    for (key, normal_bytes, application) in cases {
        assert_eq!(InputEncoder::encode(KeyInput::new(key), normal()).as_slice(), normal_bytes);
        assert_eq!(InputEncoder::encode(KeyInput::new(key), app_cursor()).as_slice(), application);
    }
}

#[test]
fn text_control_and_alt_are_encoded_without_loss() {
    assert_eq!(
        InputEncoder::encode(KeyInput::text("你a"), normal()).as_slice(),
        "你a".as_bytes(),
    );

    for (text, expected) in [
        ("a", 0x01),
        ("Z", 0x1a),
        ("[", 0x1b),
        ("\\", 0x1c),
        ("]", 0x1d),
        ("^", 0x1e),
        ("_", 0x1f),
    ] {
        let input = KeyInput::text(text).control();
        assert_eq!(InputEncoder::encode(input, normal()).as_slice(), &[expected]);
    }

    assert_eq!(InputEncoder::encode(KeyInput::text("x").alt(), normal()).as_slice(), b"\x1bx");
    assert!(InputEncoder::encode(KeyInput::text("你").control(), normal()).is_empty());
}

#[test]
fn paste_filters_escape_and_honors_bracketed_mode() {
    let source = "one\r\ntwo\rthree\0\x1bfour";
    assert_eq!(
        InputEncoder::paste(source, normal()).unwrap(),
        b"one\rtwo\rthreefour".to_vec(),
    );
    assert_eq!(
        InputEncoder::paste(source, bracketed()).unwrap(),
        b"\x1b[200~one\ntwo\nthreefour\x1b[201~".to_vec(),
    );
}

#[test]
fn paste_limit_is_inclusive() {
    let accepted = "x".repeat(MAX_PASTE_BYTES);
    assert!(InputEncoder::paste(&accepted, normal()).is_ok());

    let rejected = "x".repeat(MAX_PASTE_BYTES + 1);
    assert_eq!(InputEncoder::paste(&rejected, normal()), Err(PasteError::TooLarge));
}

#[test]
fn unknown_function_keys_send_nothing() {
    assert!(InputEncoder::encode(KeyInput::new(Key::Function(13)), normal()).is_empty());
    assert!(InputEncoder::encode(KeyInput::new(Key::Function(0)), normal()).is_empty());
}

#[test]
fn alt_prefixes_named_keys_with_escape() {
    assert_eq!(
        InputEncoder::encode(KeyInput::new(Key::Enter).alt(), normal()),
        b"\x1b\r".to_vec()
    );
}

#[test]
fn paste_error_has_a_message() {
    assert_eq!(PasteError::TooLarge.message(), "paste exceeds 1 MiB");
}

#[test]
fn key_names_become_terminal_keys() {
    let none = Modifiers::default();
    assert_eq!(key_input_for("enter", Some("\r"), none), Some(KeyInput::new(Key::Enter)));
    assert_eq!(key_input_for("pagedown", None, none), Some(KeyInput::new(Key::PageDown)));
    assert_eq!(key_input_for("up", None, none), Some(KeyInput::new(Key::ArrowUp)));
    assert_eq!(key_input_for("f5", None, none), Some(KeyInput::new(Key::Function(5))));
    assert_eq!(key_input_for("f12", None, none), Some(KeyInput::new(Key::Function(12))));
    assert_eq!(key_input_for("a", Some("a"), none), Some(KeyInput::text("a")));
    assert_eq!(key_input_for("space", None, none), None);
    // A name starting with `f` that is not a function key names nothing.
    assert_eq!(key_input_for("f", Some("f"), none), None);
    assert_eq!(key_input_for("f256", None, none), None);

    let held = Modifiers { control: true, alt: true, shift: false };
    assert_eq!(
        key_input_for("c", Some("c"), held),
        Some(KeyInput::text("c").control().alt())
    );
    assert_eq!(
        key_input_for("tab", None, Modifiers { control: false, alt: false, shift: true }),
        Some(KeyInput::new(Key::Tab).shift())
    );
}

#[test]
fn bytes_parse_like_u8_from_str() {
    for text in ["0", "7", "+7", "007", "255", "256", "", "+", "-1", "1 2", "x", "65536"] {
        assert_eq!(parse_u8(text), text.parse::<u8>().ok(), "{text:?}");
    }
}
