use mtd::crypto::{decrypt, encrypt};
use mtd::TdList;
use mtd::transport::{
    check_sid, client_auth_check, client_confirm_check, frame_length, frame_message, ok_bytes,
    read_command, server_read_check, with_sid,
};
use mtd::Error;

#[test]
fn decrypting_encrypted_returns_original() {
    let msg = b"A message to keep secure.";
    let ps = b"Very secure passwd";

    let ct = encrypt(msg, ps).unwrap();

    assert_eq!(decrypt(&ct, ps).unwrap(), msg);
}

#[test]
fn encrypting_same_msg_with_same_password_returns_different_ciphertext() {
    let msg = b"A message to keep secure.";
    let ps = b"Very secure passwd";

    let mut ciphertexts = Vec::new();

    for _ in 1..3 {
        let ct = encrypt(msg, ps).unwrap();
        assert!(!ciphertexts.contains(&ct));
        ciphertexts.push(ct);
    }
}

#[test]
fn decrypting_with_incorrect_passwd_fails() {
    let msg = b"A message to keep secure.";
    let ps = b"Very secure passwd";

    let ct = encrypt(msg, ps).unwrap();

    assert!(decrypt(&ct, b"Incorrect passwd").is_err());
}

#[test]
fn decrypting_with_invalid_ciphertext_fails() {
    let msg = b"A message to keep secure.";
    let ps = b"Very secure passwd";

    let mut ct = encrypt(msg, ps).unwrap();
    ct.push(14);
    ct.push(36);
    ct.push(122);

    assert!(decrypt(&ct, ps).is_err());
}

#[test]
fn decrypting_short_input_fails() {
    assert_eq!(decrypt(&[0u8; 27], b"pw"), Err(Error::DecryptingErr));
    assert_eq!(decrypt(&[], b"pw"), Err(Error::DecryptingErr));
}

#[test]
fn ciphertext_differs_from_payload_and_carries_a_header() {
    let msg = b"payload";
    let ct = encrypt(msg, b"pw").unwrap();
    assert_eq!(ct.len(), msg.len() + 44);
    assert_ne!(&ct[..], &msg[..]);
}

#[test]
fn frame_round_trip() {
    let ct = vec![9u8, 8, 7, 6, 5];
    let framed = frame_message(&ct);
    assert_eq!(framed.len(), 4 + ct.len());
    assert_eq!(frame_length(&framed[..4]) as usize, ct.len());
    assert_eq!(&framed[4..], &ct[..]);
}

#[test]
fn check_sid_accepts_matching_session_and_strips_it() {
    let sid = [1u8, 2, 3, 4, 5, 6, 7, 8];
    let msg = with_sid(&sid, b"payload");
    assert_eq!(check_sid(&sid, &msg).unwrap(), b"payload");
}

#[test]
fn check_sid_rejects_wrong_or_short_sessions() {
    let sid = [1u8, 2, 3, 4, 5, 6, 7, 8];
    let other = [8u8, 7, 6, 5, 4, 3, 2, 1];
    let msg = with_sid(&other, b"payload");
    assert_eq!(check_sid(&sid, &msg), Err(Error::AuthErr));
    assert_eq!(check_sid(&sid, b"short"), Err(Error::AuthErr));
}

#[test]
fn client_auth_check_requires_echoed_challenge() {
    let challenge = [9u8, 9, 9, 9, 1, 1, 1, 1];
    let sid = [5u8, 5, 5, 5, 5, 5, 5, 5];
    let reply = with_sid(&sid, &challenge);
    assert_eq!(client_auth_check(&challenge, &reply).unwrap(), sid);

    let bad = with_sid(&sid, &[0u8; 8]);
    assert_eq!(client_auth_check(&challenge, &bad), Err(Error::AuthErr));
    assert_eq!(client_auth_check(&challenge, &sid), Err(Error::AuthErr));
}

#[test]
fn server_read_check_requires_the_read_command() {
    let sid = [3u8; 8];
    let ok_msg = with_sid(&sid, &read_command());
    assert!(server_read_check(&sid, &ok_msg).is_ok());

    let bad_cmd = with_sid(&sid, b"write");
    assert_eq!(server_read_check(&sid, &bad_cmd), Err(Error::AuthErr));
    let bad_sid = with_sid(&[4u8; 8], &read_command());
    assert_eq!(server_read_check(&sid, &bad_sid), Err(Error::AuthErr));
}

#[test]
fn client_confirm_check_distinguishes_failures() {
    let sid = [7u8; 8];
    let ok_msg = with_sid(&sid, &ok_bytes());
    assert!(client_confirm_check(&sid, &ok_msg).is_ok());

    let not_ok = with_sid(&sid, b"no");
    assert_eq!(client_confirm_check(&sid, &not_ok), Err(Error::ServerWriteFailed));
    let wrong_sid = with_sid(&[1u8; 8], &ok_bytes());
    assert_eq!(client_confirm_check(&sid, &wrong_sid), Err(Error::AuthErr));
}

// One full protocol exchange at the message level, crypto included: both ends
// hold the password, the session id scopes every message, and the serialized
// replica survives the trip.
#[test]
fn message_level_exchange_round_trip() {
    let pw = b"shared password";

    // client: challenge (clients draw this at random; fixed here)
    let challenge = [11u8, 22, 33, 44, 55, 66, 77, 88];
    let m1 = encrypt(&challenge, pw).unwrap();

    // server: echo with fresh session id
    let got_challenge = decrypt(&m1, pw).unwrap();
    let sid = [42u8; 8];
    let m2 = encrypt(&with_sid(&sid, &got_challenge), pw).unwrap();

    // client: verify echo, learn session id, ask to read
    let reply = decrypt(&m2, pw).unwrap();
    let got_sid = client_auth_check(&challenge, &reply).unwrap();
    assert_eq!(got_sid, sid);
    let m3 = encrypt(&with_sid(&got_sid, &read_command()), pw).unwrap();

    // server: check the read command, send its replica
    let cmd = decrypt(&m3, pw).unwrap();
    assert!(server_read_check(&sid, &cmd).is_ok());
    let server_list = TdList::new_server();
    let json = server_list.to_json().unwrap();
    let m4 = encrypt(&with_sid(&sid, json.as_bytes()), pw).unwrap();

    // client: strip the session id and parse the replica
    let body = check_sid(&got_sid, &decrypt(&m4, pw).unwrap()).unwrap();
    let parsed = TdList::new_from_json(std::str::from_utf8(&body).unwrap()).unwrap();
    assert!(parsed.server);
}
