use stik::note_lock::{
    auth_available_reply, auth_available_request, auth_reply, auth_request, authentication_step,
    finish_authentication, generate_key, is_session_unlocked, key_from_bytes, key_path_from, lock_session_inner, migrated_key,
    require_authenticated, unlock_session, AuthStep, NoteLockSession, NoteLockSettings,
    decrypt, encrypt, encrypt_with_nonce, ensure_not_locked, is_locked_content, read_locked_note_content,
    recovery_key_text, unlock_note_content, LOCKED_HEADER,
};

#[test]
fn test_encrypt_decrypt_roundtrip() {
    let key = [42u8; 32];
    let plaintext = "# My secret note\n\nThis is confidential.";

    let locked = encrypt(plaintext, &key).unwrap();
    assert!(locked.starts_with(LOCKED_HEADER));
    assert!(is_locked_content(&locked));

    let decrypted = decrypt(&locked, &key).unwrap();
    assert_eq!(decrypted, plaintext);
}

#[test]
fn test_wrong_key_fails() {
    let key1 = [42u8; 32];
    let key2 = [99u8; 32];
    let plaintext = "secret";

    let locked = encrypt(plaintext, &key1).unwrap();
    let result = decrypt(&locked, &key2);
    assert!(result.is_err());
}

#[test]
fn test_not_locked() {
    assert!(!is_locked_content("# Normal note"));
    assert!(!is_locked_content(""));
}

#[test]
fn test_is_locked() {
    assert!(is_locked_content("---stik-locked---\nnonce: abc\ndata"));
}

#[test]
fn test_empty_content() {
    let key = [42u8; 32];
    let locked = encrypt("", &key).unwrap();
    let decrypted = decrypt(&locked, &key).unwrap();
    assert_eq!(decrypted, "");
}

#[test]
fn test_unicode_content() {
    let key = [42u8; 32];
    let plaintext = "# 日本語のノート\n\nEmoji: 🔒🗝️";
    let locked = encrypt(plaintext, &key).unwrap();
    let decrypted = decrypt(&locked, &key).unwrap();
    assert_eq!(decrypted, plaintext);
}

#[test]
fn locked_format_has_header_nonce_and_ciphertext_lines() {
    let key = [7u8; 32];
    let nonce = [0u8; 12];
    let locked = encrypt_with_nonce("hi", &key, &nonce).unwrap();
    let lines: Vec<&str> = locked.lines().collect();
    assert_eq!(lines.len(), 3);
    assert_eq!(lines[0], "---stik-locked---");
    assert_eq!(lines[1], "nonce: AAAAAAAAAAAAAAAA");
    // 2 bytes of plaintext + 16 bytes of tag = 18 bytes = 24 base64 characters
    assert_eq!(lines[2].len(), 24);
    assert_eq!(decrypt(&locked, &key).unwrap(), "hi");
}

#[test]
fn same_nonce_gives_same_locked_text() {
    let key = [3u8; 32];
    let nonce = [9u8; 12];
    let a = encrypt_with_nonce("note", &key, &nonce).unwrap();
    let b = encrypt_with_nonce("note", &key, &nonce).unwrap();
    assert_eq!(a, b);
}

#[test]
fn decrypt_rejects_content_without_header() {
    let key = [1u8; 32];
    assert_eq!(decrypt("# Plain\nnonce: x\ny", &key).unwrap_err(), "Not a valid locked note");
    assert_eq!(decrypt("---stik-locked---\nnonce: AAAA", &key).unwrap_err(), "Not a valid locked note");
}

#[test]
fn decrypt_rejects_missing_nonce_line() {
    let key = [1u8; 32];
    assert_eq!(decrypt("---stik-locked---\nnonsense\nAAAA", &key).unwrap_err(), "Missing nonce line");
}

#[test]
fn decrypt_reports_bad_nonce() {
    let key = [1u8; 32];
    let err = decrypt("---stik-locked---\nnonce: !!!!\nAAAA", &key).unwrap_err();
    assert!(err.starts_with("Invalid nonce: "));
    assert_eq!(decrypt("---stik-locked---\nnonce: AAAA\nAAAA", &key).unwrap_err(), "Invalid nonce length");
}

#[test]
fn decrypt_reports_bad_ciphertext() {
    let key = [1u8; 32];
    let err = decrypt("---stik-locked---\nnonce: AAAAAAAAAAAAAAAA\n!!!!", &key).unwrap_err();
    assert!(err.starts_with("Invalid ciphertext: "));
}

#[test]
fn decrypt_reports_tampered_ciphertext() {
    let key = [1u8; 32];
    assert_eq!(
        decrypt("---stik-locked---\nnonce: AAAAAAAAAAAAAAAA\nAAAA", &key).unwrap_err(),
        "Decryption failed \u{2014} wrong key or corrupted data"
    );
}

#[test]
fn decrypt_joins_wrapped_ciphertext_lines() {
    let key = [5u8; 32];
    let locked = encrypt_with_nonce("wrapped", &key, &[1u8; 12]).unwrap();
    let lines: Vec<&str> = locked.lines().collect();
    let (a, b) = lines[2].split_at(8);
    let wrapped = format!("{}\n{}\n{}\r\n{}\n", lines[0], lines[1], a, b);
    assert_eq!(decrypt(&wrapped, &key).unwrap(), "wrapped");
}

#[test]
fn lock_refuses_locked_note() {
    assert_eq!(ensure_not_locked("---stik-locked---\nx\ny").unwrap_err(), "Note is already locked");
    assert!(ensure_not_locked("# open").is_ok());
}

#[test]
fn unlock_and_read_leave_plain_notes_alone() {
    let key = [2u8; 32];
    assert_eq!(unlock_note_content("# plain", &key).unwrap(), None);
    assert_eq!(read_locked_note_content("# plain", &key).unwrap(), "# plain");
    let locked = encrypt("body", &key).unwrap();
    assert_eq!(unlock_note_content(&locked, &key).unwrap(), Some("body".to_string()));
    assert_eq!(read_locked_note_content(&locked, &key).unwrap(), "body");
}

#[test]
fn recovery_key_is_base64_of_key() {
    assert_eq!(recovery_key_text(&[0u8; 32]), "AAAAAAAAAAAAAAAAAAAAAAAAAAAAAAAAAAAAAAAAAAA=");
}

#[test]
fn key_file_must_hold_32_bytes() {
    let data: Vec<u8> = (0..32).collect();
    assert_eq!(key_from_bytes(&data).unwrap().to_vec(), data);
    assert_eq!(key_from_bytes(&[1, 2, 3, 4, 5]).unwrap_err(), "Key file has wrong length: 5 (expected 32)");
    assert_eq!(key_from_bytes(&[0u8; 1234]).unwrap_err(), "Key file has wrong length: 1234 (expected 32)");
    assert_eq!(key_from_bytes(&[]).unwrap_err(), "Key file has wrong length: 0 (expected 32)");
}

#[test]
fn key_file_lives_in_dot_stik() {
    assert_eq!(key_path_from(Some(b"/Users/me".to_vec())).unwrap(), b"/Users/me/.stik/note-key".to_vec());
    assert_eq!(key_path_from(Some(vec![b'/', 0xff])).unwrap(), [&[b'/', 0xff][..], b"/.stik/note-key"].concat());
    assert_eq!(key_path_from(None).unwrap_err(), "Cannot determine home directory");
}

#[test]
fn generated_keys_differ() {
    assert_ne!(generate_key(), generate_key());
}

#[test]
fn session_times_out() {
    let mut session = NoteLockSession::new();
    assert!(!is_session_unlocked(&session, 0, 15));
    unlock_session(&mut session, 1_000);
    assert!(is_session_unlocked(&session, 1_000 + 15 * 60_000 - 1, 15));
    assert!(!is_session_unlocked(&session, 1_000 + 15 * 60_000, 15));
    assert!(is_session_unlocked(&session, u64::MAX, 0));
    assert!(is_session_unlocked(&session, 0, 15));
    assert!(matches!(authentication_step(&session, 2_000, 15), AuthStep::AlreadyUnlocked));
    lock_session_inner(&mut session);
    assert!(matches!(authentication_step(&session, 2_000, 15), AuthStep::Prompt));
    assert_eq!(require_authenticated(&session, 2_000, 15).unwrap_err(), "Not authenticated");
    assert!(!finish_authentication(&mut session, false, 3_000));
    assert!(session.unlocked_at_ms.is_none());
    assert!(finish_authentication(&mut session, true, 3_000));
    assert!(require_authenticated(&session, 3_500, 15).is_ok());
}

#[test]
fn lock_settings_default() {
    let s = NoteLockSettings::default();
    assert!(!s.enabled);
    assert_eq!(s.timeout_minutes, 15);
    assert!(s.lock_on_sleep);
}

#[test]
fn authentication_bridge_calls() {
    let r = auth_request("Stik wants to access locked notes");
    assert_eq!(r.method, "auth.authenticate");
    assert_eq!(r.params, vec![("reason".to_string(), "Stik wants to access locked notes".to_string())]);
    assert_eq!(auth_reply(Some(true)), Ok(true));
    assert_eq!(auth_reply(Some(false)), Ok(false));
    assert_eq!(auth_reply(None), Err("auth.authenticate returned unexpected response".to_string()));
    assert_eq!(auth_available_request().method, "auth.available");
    assert!(auth_available_reply(Some(true)));
    assert!(!auth_available_reply(Some(false)));
    assert!(!auth_available_reply(None));
}

#[test]
fn keychain_key_migrates_only_with_32_bytes() {
    let bytes: Vec<u8> = (0u8..32).collect();
    let key = migrated_key(Some(bytes.clone())).unwrap();
    assert_eq!(key.to_vec(), bytes);
    assert_eq!(migrated_key(Some(vec![7u8; 31])), None);
    assert_eq!(migrated_key(Some(vec![7u8; 33])), None);
    assert_eq!(migrated_key(None), None);
}

#[test]
fn recovery_key_is_44_chars_that_decode_to_the_key() {
    let key: [u8; 32] = core::array::from_fn(|i| (i as u8).wrapping_mul(37).wrapping_add(200));
    let text = recovery_key_text(&key);
    assert_eq!(text.len(), 44);
    assert_eq!(<base64::engine::GeneralPurpose as base64::Engine>::decode(&base64::engine::general_purpose::STANDARD, &text).unwrap(), key.to_vec());
}
