use termsnoop::keys::{
    arrow_with_mod, decimal_bytes, f_key_seq, hex_bytes, pending_key_output, win32_key_to_bytes,
    InputRecord, KeyEventRecord, KEY_EVENT,
};

fn key(vk: u16, ch: u16, state: u32) -> KeyEventRecord {
    KeyEventRecord {
        key_down: 1,
        repeat_count: 1,
        virtual_key_code: vk,
        virtual_scan_code: 0,
        uchar: ch,
        control_key_state: state,
    }
}

#[test]
fn keys_plain_and_control_characters() {
    assert_eq!(win32_key_to_bytes(&key(0x41, 'a' as u16, 0)), Some(b"a".to_vec()));
    assert_eq!(win32_key_to_bytes(&key(0x0D, 0x0D, 0)), Some(b"\r".to_vec()));
    assert_eq!(win32_key_to_bytes(&key(0x08, 0x08, 0)), Some(vec![0x7f]));
    assert_eq!(win32_key_to_bytes(&key(0x09, 0x09, 0)), Some(b"\t".to_vec()));
    assert_eq!(win32_key_to_bytes(&key(0x09, 0x09, 0x10)), Some(b"\x1b[Z".to_vec()));
    assert_eq!(win32_key_to_bytes(&key(0x1B, 0x1B, 0)), Some(vec![0x1b]));
    // Ctrl+C
    assert_eq!(win32_key_to_bytes(&key(0x43, 0x03, 0x08)), Some(vec![0x03]));
    // Ctrl+Alt+C
    assert_eq!(win32_key_to_bytes(&key(0x43, 0x03, 0x0A)), Some(vec![0x1b, 0x03]));
    // Alt+x
    assert_eq!(win32_key_to_bytes(&key(0x58, 'x' as u16, 0x02)), Some(b"\x1bx".to_vec()));
}

#[test]
fn keys_unicode_characters() {
    assert_eq!(win32_key_to_bytes(&key(0, 0xE9, 0)), Some("é".as_bytes().to_vec()));
    assert_eq!(win32_key_to_bytes(&key(0, 0x20AC, 0)), Some("€".as_bytes().to_vec()));
    // A lone surrogate produces nothing.
    assert_eq!(win32_key_to_bytes(&key(0, 0xD800, 0)), None);
}

#[test]
fn keys_special_keys() {
    assert_eq!(win32_key_to_bytes(&key(0x26, 0, 0)), Some(b"\x1b[A".to_vec()));
    assert_eq!(win32_key_to_bytes(&key(0x28, 0, 0)), Some(b"\x1b[B".to_vec()));
    assert_eq!(win32_key_to_bytes(&key(0x27, 0, 0)), Some(b"\x1b[C".to_vec()));
    assert_eq!(win32_key_to_bytes(&key(0x25, 0, 0)), Some(b"\x1b[D".to_vec()));
    assert_eq!(win32_key_to_bytes(&key(0x26, 0, 0x08)), Some(b"\x1b[1;5A".to_vec()));
    assert_eq!(win32_key_to_bytes(&key(0x25, 0, 0x1A)), Some(b"\x1b[1;8D".to_vec()));
    assert_eq!(win32_key_to_bytes(&key(0x24, 0, 0)), Some(b"\x1b[H".to_vec()));
    assert_eq!(win32_key_to_bytes(&key(0x23, 0, 0)), Some(b"\x1b[F".to_vec()));
    assert_eq!(win32_key_to_bytes(&key(0x2D, 0, 0)), Some(b"\x1b[2~".to_vec()));
    assert_eq!(win32_key_to_bytes(&key(0x2E, 0, 0)), Some(b"\x1b[3~".to_vec()));
    assert_eq!(win32_key_to_bytes(&key(0x21, 0, 0)), Some(b"\x1b[5~".to_vec()));
    assert_eq!(win32_key_to_bytes(&key(0x22, 0, 0)), Some(b"\x1b[6~".to_vec()));
    assert_eq!(win32_key_to_bytes(&key(0x70, 0, 0)), Some(b"\x1bOP".to_vec()));
    assert_eq!(win32_key_to_bytes(&key(0x7B, 0, 0)), Some(b"\x1b[24~".to_vec()));
    assert_eq!(win32_key_to_bytes(&key(0x10, 0, 0x10)), None);
}

#[test]
fn keys_helpers() {
    assert_eq!(arrow_with_mod(b'A', None), b"\x1b[A".to_vec());
    assert_eq!(arrow_with_mod(b'B', Some(3)), b"\x1b[1;3B".to_vec());
    assert_eq!(arrow_with_mod(b'C', Some(12)), b"\x1b[1;12C".to_vec());
    assert_eq!(f_key_seq(5), Some(b"\x1b[15~".to_vec()));
    assert_eq!(f_key_seq(11), Some(b"\x1b[23~".to_vec()));
    assert_eq!(f_key_seq(0), None);
    assert_eq!(f_key_seq(13), None);
    assert_eq!(decimal_bytes(0), b"0".to_vec());
    assert_eq!(decimal_bytes(4294967295), b"4294967295".to_vec());
    assert_eq!(hex_bytes(&[0x1b, 0x5b, 0x41]), "0x1B 0x5B 0x41");
    assert_eq!(hex_bytes(&[]), "");
}

fn record(event_type: u16, down: bool, repeat: u16, vk: u16, ch: u16) -> InputRecord {
    let mut event = [0u8; 16];
    event[0] = if down { 1 } else { 0 };
    event[4..6].copy_from_slice(&repeat.to_le_bytes());
    event[6..8].copy_from_slice(&vk.to_le_bytes());
    event[10..12].copy_from_slice(&ch.to_le_bytes());
    InputRecord { event_type, _padding: 0, event }
}

#[test]
fn keys_input_records() {
    let k = KeyEventRecord::from_event_bytes(&record(KEY_EVENT, true, 2, 0x41, 'a' as u16).event);
    assert_eq!(k.key_down, 1);
    assert_eq!(k.repeat_count, 2);
    assert_eq!(k.virtual_key_code, 0x41);
    assert_eq!(k.uchar, 'a' as u16);
    assert_eq!(pending_key_output(&record(KEY_EVENT, true, 3, 0x41, 'a' as u16)), Some((b"a".to_vec(), 3)));
    assert_eq!(pending_key_output(&record(KEY_EVENT, true, 0, 0x41, 'a' as u16)), Some((b"a".to_vec(), 1)));
    assert_eq!(pending_key_output(&record(KEY_EVENT, false, 1, 0x41, 'a' as u16)), None);
    assert_eq!(pending_key_output(&record(2, true, 1, 0x41, 'a' as u16)), None);
}
