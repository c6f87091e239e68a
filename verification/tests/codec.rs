use auth_core::codec::{decode, encode, split_credentials, TokenError};

#[test]
fn encode_joins_with_a_colon_and_writes_padded_base64() {
    assert_eq!(encode("a@x.com", "pw1"), "YUB4LmNvbTpwdzE=");
}

#[test]
fn encode_of_two_empty_strings_is_the_lone_colon() {
    assert_eq!(encode("", ""), "Og==");
}

#[test]
fn encode_writes_the_utf8_bytes_of_the_pair() {
    assert_eq!(encode("é@x.com", "pässwörd"), "w6lAeC5jb206cMOkc3N3w7ZyZA==");
}

#[test]
fn decode_reads_the_pair_back() {
    let user = decode("YUB4LmNvbTpwdzE=").unwrap();
    assert_eq!(user.email, "a@x.com");
    assert_eq!(user.password, "pw1");
}

#[test]
fn decode_inverts_encode() {
    let pairs = [
        ("a@x.com", "pw1"),
        ("", ""),
        ("someone@example.org", ""),
        ("", "only a password"),
        ("é@x.com", "pässwörd"),
        ("日本語@例え.jp", "パスワード 🔑"),
    ];
    for (email, password) in pairs {
        let user = decode(&encode(email, password)).unwrap();
        assert_eq!(user.email, email);
        assert_eq!(user.password, password);
    }
}

#[test]
fn decode_accepts_an_empty_password() {
    let user = decode("YUB4LmNvbTo=").unwrap();
    assert_eq!(user.email, "a@x.com");
    assert_eq!(user.password, "");
}

#[test]
fn decode_accepts_an_empty_email() {
    let user = decode("OnB3").unwrap();
    assert_eq!(user.email, "");
    assert_eq!(user.password, "pw");
}

#[test]
fn decode_rejects_text_outside_the_alphabet() {
    assert_eq!(decode("not base64!").unwrap_err(), TokenError::Encoding);
}

#[test]
fn decode_rejects_missing_padding() {
    assert_eq!(decode("YUB4LmNvbTpwdzE").unwrap_err(), TokenError::Encoding);
}

#[test]
fn decode_rejects_bytes_that_are_not_utf8() {
    assert_eq!(decode("/zph").unwrap_err(), TokenError::Text);
}

#[test]
fn decode_rejects_text_without_a_colon() {
    assert_eq!(decode("bm90YmFzZTY0").unwrap_err(), TokenError::Fields);
}

#[test]
fn decode_rejects_the_empty_token() {
    assert_eq!(decode("").unwrap_err(), TokenError::Fields);
}

#[test]
fn decode_rejects_text_with_two_colons() {
    assert_eq!(decode("YTpiOmM=").unwrap_err(), TokenError::Fields);
}

#[test]
fn a_colon_in_the_password_does_not_survive_the_round_trip() {
    let token = encode("a@x.com", "p:w");
    assert_eq!(token, "YUB4LmNvbTpwOnc=");
    assert_eq!(decode(&token).unwrap_err(), TokenError::Fields);
}

#[test]
fn a_colon_in_the_email_does_not_survive_the_round_trip() {
    let token = encode("a:b@x.com", "pw1");
    assert_eq!(decode(&token).unwrap_err(), TokenError::Fields);
}

#[test]
fn split_credentials_cuts_at_the_only_colon() {
    let user = split_credentials(b"left:right".to_vec()).unwrap();
    assert_eq!(user.email, "left");
    assert_eq!(user.password, "right");
}

#[test]
fn split_credentials_keeps_multibyte_characters_whole() {
    let user = split_credentials("é:ö".as_bytes().to_vec()).unwrap();
    assert_eq!(user.email, "é");
    assert_eq!(user.password, "ö");
}

#[test]
fn split_credentials_tells_its_two_errors_apart() {
    assert_eq!(split_credentials(vec![0xC3]).unwrap_err(), TokenError::Text);
    assert_eq!(split_credentials(vec![0xFF, 0x3A]).unwrap_err(), TokenError::Text);
    assert_eq!(split_credentials(Vec::new()).unwrap_err(), TokenError::Fields);
    assert_eq!(split_credentials(b"abc".to_vec()).unwrap_err(), TokenError::Fields);
    assert_eq!(split_credentials(b"::".to_vec()).unwrap_err(), TokenError::Fields);
    assert_eq!(split_credentials(b"a:b:".to_vec()).unwrap_err(), TokenError::Fields);
}
