//! The credential token: an email and a password joined by one colon and
//! written in base64 (standard alphabet, padded).

use crate::models::{User, UserView};
use crate::text::{
    ascii_char, find_byte, free_of_char, lemma_decoded_free_of_ascii, lemma_split_at_ascii,
};
use vstd::prelude::*;
use vstd::string::*;
use vstd::utf8::*;

verus! {

/// The byte that separates email and password inside a token.
pub const SEPARATOR: u8 = 0x3A;

/// The error type of the `base64` crate's decoder, carried through unopened.
#[verifier::external_type_specification]
#[verifier::external_body]
pub struct ExDecodeError(base64::DecodeError);

/// The error type of `String::from_utf8`, carried through unopened.
#[verifier::external_type_specification]
#[verifier::external_body]
pub struct ExFromUtf8Error(std::string::FromUtf8Error);

/// The text that the standard base64 engine writes for `bytes`.
pub uninterp spec fn base64_text(bytes: Seq<u8>) -> Seq<char>;

/// The bytes that the standard base64 engine reads out of `text`, or `None`
/// where it rejects the text.
pub uninterp spec fn base64_bytes(text: Seq<char>) -> Option<Seq<u8>>;

/// A character of base64 text: a letter, a digit, `+`, `/`, or the padding
/// `=`.
pub open spec fn is_base64_char(c: char) -> bool {
    ||| ('A' <= c && c <= 'Z')
    ||| ('a' <= c && c <= 'z')
    ||| ('0' <= c && c <= '9')
    ||| c == '+'
    ||| c == '/'
    ||| c == '='
}

/// The length of padded base64 text for `n` bytes: four characters for every
/// three bytes begun.
pub open spec fn base64_len(n: nat) -> nat {
    ((n + 2) / 3 * 4) as nat
}

/// What the encoder promises of the text it writes for `bytes`: it has the
/// padded length, it is made of base64 characters only, and the decoder
/// reads `bytes` back out of it.
pub open spec fn reads_back(bytes: Seq<u8>) -> bool {
    &&& base64_text(bytes).len() == base64_len(bytes.len())
    &&& forall|i: int|
        0 <= i < base64_text(bytes).len() ==> is_base64_char(#[trigger] base64_text(bytes)[i])
    &&& base64_bytes(base64_text(bytes)) == Some(bytes)
}

/// Calls `Engine::encode` on `BASE64_STANDARD`. Claimed: the text is a
/// function of the bytes alone; it is as long as the crate's `encoded_len`
/// says for padded text; it is written in the standard alphabet and padded
/// with `=`; and the same engine decodes it back to those bytes, since
/// the encoder writes canonical padding and clear trailing bits, which is all
/// the strict decoder asks for. The encoder fails only where the length of
/// the text does not fit in `usize`; a slice is never longer than
/// `isize::MAX` bytes, which leaves room for four thirds of it.
#[verifier::external_body]
fn base64_encode(bytes: &[u8]) -> (text: String)
    ensures
        text@ == base64_text(bytes@),
        text@.len() == base64_len(bytes@.len()),
        forall|i: int| 0 <= i < text@.len() ==> is_base64_char(#[trigger] text@[i]),
        base64_bytes(text@) == Some(bytes@),
{
    base64::Engine::encode(&base64::prelude::BASE64_STANDARD, bytes)
}

/// Calls `Engine::decode` on `BASE64_STANDARD`, whose result depends on the
/// text alone.
#[verifier::external_body]
fn base64_decode(text: &str) -> (r: Result<Vec<u8>, base64::DecodeError>)
    ensures
        match r {
            Ok(bytes) => base64_bytes(text@) == Some(bytes@),
            Err(_) => base64_bytes(text@) is None,
        },
{
    base64::Engine::decode(&base64::prelude::BASE64_STANDARD, text)
}

/// Calls `String::from_utf8`, which accepts exactly the well-formed UTF-8
/// byte strings and keeps the bytes as they are.
#[verifier::external_body]
fn string_from_utf8(bytes: Vec<u8>) -> (r: Result<String, std::string::FromUtf8Error>)
    ensures
        r is Ok <==> valid_utf8(bytes@),
        r matches Ok(s) ==> s@ == decode_utf8(bytes@),
{
    String::from_utf8(bytes)
}

/// Email and password with the separator between them.
pub open spec fn joined(email: Seq<char>, password: Seq<char>) -> Seq<char> {
    email + seq![':'] + password
}

/// The token for an email and a password.
pub open spec fn token_of(email: Seq<char>, password: Seq<char>) -> Seq<char> {
    base64_text(encode_utf8(joined(email, password)))
}

/// The encoder's promise for the token of a pair.
pub open spec fn token_reads_back(email: Seq<char>, password: Seq<char>) -> bool {
    reads_back(encode_utf8(joined(email, password)))
}

/// The index of the first `c` in `text`, or the length of `text` where it
/// holds none.
pub open spec fn first_index(text: Seq<char>, c: char) -> int
    decreases text.len(),
{
    if text.len() == 0 || text[0] == c {
        0
    } else {
        1 + first_index(text.drop_first(), c)
    }
}

/// The pair written in `text`: defined where `text` holds exactly one
/// separator, with the email before it and the password after it.
pub open spec fn split_pair(text: Seq<char>) -> Option<UserView> {
    let i = first_index(text, ':');
    if i < text.len() && free_of_char(text.skip(i + 1), ':') {
        Some(UserView { email: text.take(i), password: text.skip(i + 1) })
    } else {
        None
    }
}

/// The pair that decoded token bytes stand for, if they are UTF-8 text with
/// exactly one separator.
pub open spec fn pair_in_bytes(bytes: Seq<u8>) -> Option<UserView> {
    if valid_utf8(bytes) {
        split_pair(decode_utf8(bytes))
    } else {
        None
    }
}

/// The pair that a token carries, if it is well-formed.
pub open spec fn credentials_of(token: Seq<char>) -> Option<UserView> {
    match base64_bytes(token) {
        Some(bytes) => pair_in_bytes(bytes),
        None => None,
    }
}

/// Why a token carries no credential pair.
#[derive(Debug, Clone, Copy, PartialEq, Eq, Structural)]
pub enum TokenError {
    /// The token is not base64 text.
    Encoding,
    /// The decoded bytes are not UTF-8 text.
    Text,
    /// The decoded text holds no separator, or more than one.
    Fields,
}

/// The error that [`split_credentials`] answers for decoded bytes that hold
/// no pair.
pub open spec fn fault_in_bytes(bytes: Seq<u8>) -> TokenError {
    if valid_utf8(bytes) {
        TokenError::Fields
    } else {
        TokenError::Text
    }
}

/// What [`first_index`] finds: nothing before it is `c`, and it points at a
/// `c` unless it is the length.
pub proof fn lemma_first_index(text: Seq<char>, c: char)
    ensures
        0 <= first_index(text, c) <= text.len(),
        free_of_char(text.take(first_index(text, c)), c),
        first_index(text, c) < text.len() ==> text[first_index(text, c)] == c,
    decreases text.len(),
{
    if text.len() == 0 || text[0] == c {
    } else {
        let rest = text.drop_first();
        lemma_first_index(rest, c);
        let i = first_index(text, c);
        let head = text.take(i);
        assert forall|k: int| 0 <= k < head.len() implies #[trigger] head[k] != c by {
            if k > 0 {
                assert(head[k] == rest.take(i - 1)[k - 1]);
            }
        }
    }
}

/// The first `c` stands where a `c` follows text free of it.
pub proof fn lemma_first_index_at(text: Seq<char>, c: char, i: int)
    requires
        0 <= i <= text.len(),
        free_of_char(text.take(i), c),
        i < text.len() ==> text[i] == c,
    ensures
        first_index(text, c) == i,
    decreases text.len(),
{
    if text.len() == 0 {
    } else if text[0] == c {
        if i > 0 {
            assert(text.take(i)[0] == c);
        }
    } else {
        let rest = text.drop_first();
        let head = rest.take(i - 1);
        assert forall|k: int| 0 <= k < head.len() implies #[trigger] head[k] != c by {
            assert(head[k] == text.take(i)[k + 1]);
        }
        lemma_first_index_at(rest, c, i - 1);
    }
}

/// Splitting a joined pair gives the pair back, provided neither part holds
/// the separator.
pub proof fn lemma_split_joined(email: Seq<char>, password: Seq<char>)
    requires
        free_of_char(email, ':'),
        free_of_char(password, ':'),
    ensures
        split_pair(joined(email, password)) == Some(UserView { email, password }),
{
    let text = joined(email, password);
    let i = email.len() as int;
    assert(text.take(i) =~= email);
    assert(text.skip(i + 1) =~= password);
    assert(text[i] == ':');
    lemma_first_index_at(text, ':', i);
}

/// The token of a pair carries that pair, provided neither the email nor the
/// password holds a colon and the encoder kept its promise, as it does for
/// every token that [`encode`] hands out.
pub proof fn law_decode_inverts_encode(email: Seq<char>, password: Seq<char>)
    requires
        token_reads_back(email, password),
        free_of_char(email, ':'),
        free_of_char(password, ':'),
    ensures
        credentials_of(token_of(email, password)) == Some(UserView { email, password }),
{
    let text = joined(email, password);
    encode_utf8_valid_utf8(text);
    encode_utf8_decode_utf8(text);
    lemma_split_joined(email, password);
}

/// A pair whose email holds a colon is never read back from its own token.
pub proof fn law_colon_in_email_is_lost(email: Seq<char>, password: Seq<char>)
    requires
        token_reads_back(email, password),
        !free_of_char(email, ':'),
    ensures
        credentials_of(token_of(email, password)) != Some(UserView { email, password }),
{
    let text = joined(email, password);
    encode_utf8_valid_utf8(text);
    encode_utf8_decode_utf8(text);
    lemma_first_index(text, ':');
    let i = first_index(text, ':');
    if split_pair(text) == Some(UserView { email, password }) {
        assert(text.take(i) == email);
    }
}

/// Writes the token for an email and a password.
pub fn encode(email: &str, password: &str) -> (token: String)
    ensures
        token@ == token_of(email@, password@),
        token_reads_back(email@, password@),
{
    let mut text = String::from_str(email);
    text.append(":");
    text.append(password);
    proof {
        reveal_strlit(":");
        assert(":"@ =~= seq![':']);
        assert(text@ == joined(email@, password@));
    }
    base64_encode(text.as_str().as_bytes())
}

/// Reads the pair out of the bytes that a token decodes to.
///
/// The bytes must be UTF-8 text with exactly one colon; what stands before
/// it is the email, what stands after it the password.
pub fn split_credentials(bytes: Vec<u8>) -> (r: Result<User, TokenError>)
    ensures
        match r {
            Ok(user) => pair_in_bytes(bytes@) == Some(user@),
            Err(e) => pair_in_bytes(bytes@) is None && e == fault_in_bytes(bytes@),
        },
{
    let ghost raw = bytes@;
    let text = match string_from_utf8(bytes) {
        Ok(text) => text,
        Err(_) => {
            return Err(TokenError::Text);
        },
    };
    let whole = text.as_str();
    let octets = whole.as_bytes();
    proof {
        decode_utf8_encode_utf8(raw);
        assert(octets@ == raw);
        lemma_first_index(text@, ':');
    }
    let at = match find_byte(octets, 0, SEPARATOR) {
        Some(at) => at,
        None => {
            proof {
                assert(raw.subrange(0, raw.len() as int) =~= raw);
                lemma_decoded_free_of_ascii(raw, SEPARATOR);
                assert(ascii_char(SEPARATOR) == ':');
                let i = first_index(text@, ':');
                if i < text@.len() {
                    assert(text@[i] == ':');
                }
            }
            return Err(TokenError::Fields);
        },
    };
    proof {
        lemma_split_at_ascii(raw, at as int);
        lemma_decoded_free_of_ascii(raw.subrange(0, at as int), SEPARATOR);
        lemma_decoded_free_of_ascii(raw.subrange(at + 1, raw.len() as int), SEPARATOR);
        assert(ascii_char(SEPARATOR) == ':');
        let before = decode_utf8(raw.subrange(0, at as int));
        let after = decode_utf8(raw.subrange(at + 1, raw.len() as int));
        assert(text@ == before + seq![':'] + after);
        assert(text@.take(before.len() as int) =~= before);
        assert(text@.skip(before.len() as int + 1) =~= after);
        assert(text@[before.len() as int] == ':');
        lemma_first_index_at(text@, ':', before.len() as int);
    }
    let size = octets.len();
    assert(at < size);
    let more = find_byte(octets, at + 1, SEPARATOR);
    if more.is_some() {
        proof {
            let i = more.unwrap() as int;
            let tail = raw.subrange(at + 1, raw.len() as int);
            assert(tail[i - at - 1] == SEPARATOR);
        }
        return Err(TokenError::Fields);
    }
    let (email, rest) = whole.split_at(at);
    proof {
        let tail = raw.subrange(at as int, raw.len() as int);
        assert(rest.spec_bytes() == tail);
        lemma_split_at_ascii(tail, 0);
        assert(tail.subrange(1, tail.len() as int) =~= raw.subrange(at + 1, raw.len() as int));
    }
    let (_, password) = rest.split_at(1);
    proof {
        encode_utf8_decode_utf8(email@);
        encode_utf8_decode_utf8(password@);
    }
    Ok(User { email: email.to_owned(), password: password.to_owned() })
}

/// Reads the pair out of a token.
///
/// Rejected are text that is not base64, decoded bytes that are not UTF-8,
/// and decoded text with no colon or with more than one.
pub fn decode(token: &str) -> (r: Result<User, TokenError>)
    ensures
        match r {
            Ok(user) => credentials_of(token@) == Some(user@),
            Err(e) => credentials_of(token@) is None && e == match base64_bytes(token@) {
                Some(bytes) => fault_in_bytes(bytes),
                None => TokenError::Encoding,
            },
        },
{
    match base64_decode(token) {
        Ok(bytes) => split_credentials(bytes),
        Err(_) => Err(TokenError::Encoding),
    }
}

} // verus!
