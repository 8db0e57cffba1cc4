//! Decoding of configuration updates published by the local config server.
//!
//! A config message is a single frame holding UTF-8 text `key=value`.
use vstd::prelude::*;
use vstd::utf8::{decode_utf8, valid_utf8};

use crate::message::{ErrorKind, Response};
use crate::text::{chars_of, find_char, find_char_from, lemma_find_char};

verus! {

/// The split of `s` at its first `=`, when both sides are non-empty.
pub open spec fn spec_split_key_value(s: Seq<char>) -> Option<(Seq<char>, Seq<char>)> {
    let k = find_char(s, '=', 0);
    if 0 < k && k + 1 < s.len() {
        Some((s.take(k), s.skip(k + 1)))
    } else {
        None
    }
}

/// Split a string into a key/value pair at the first `=` character.
///
/// Does not trim whitespace.
///
/// Returns `None` if either key or value is empty, or no `=` character was found.
pub fn split_key_value(string: &str) -> (pair: Option<(&str, &str)>)
    ensures
        pair is Some <==> spec_split_key_value(string@) is Some,
        pair matches Some((key, value)) ==> spec_split_key_value(string@) == Some((key@, value@)),
{
    let chars = chars_of(string);
    let n = chars.len();
    let k = find_char_from(&chars, '=', 0);
    proof {
        lemma_find_char(string@, '=', 0);
    }
    if k == 0 || k >= n || k + 1 >= n {
        return None;
    }
    let key = string.substring_char(0, k);
    let value = string.substring_char(k + 1, n);
    assert(key@ =~= string@.take(k as int));
    assert(value@ =~= string@.skip(k + 1));
    Some((key, value))
}

/// The split at the first `=` puts the string back together as `key=value`, with a
/// non-empty key free of `=` and a non-empty value; and every such reading of a
/// string is the one the split finds.
pub proof fn lemma_key_value_split(s: Seq<char>, key: Seq<char>, value: Seq<char>)
    ensures
        spec_split_key_value(s) == Some((key, value)) <==> {
            &&& s == key + seq!['='] + value
            &&& !key.contains('=')
            &&& key.len() > 0
            &&& value.len() > 0
        },
{
    lemma_find_char(s, '=', 0);
    let k = find_char(s, '=', 0);
    if spec_split_key_value(s) == Some((key, value)) {
        assert(s =~= key + seq!['='] + value);
        assert(!key.contains('=')) by {
            if key.contains('=') {
                let j = choose|j: int| 0 <= j < key.len() && key[j] == '=';
                assert(s[j] == '=');
            }
        }
    }
    if s == key + seq!['='] + value && !key.contains('=') && key.len() > 0 && value.len() > 0 {
        assert(s[key.len() as int] == '=');
        assert forall|j: int| 0 <= j < key.len() implies s[j] != '=' by {
            assert(s[j] == key[j]);
        }
        assert(k == key.len());
        assert(s.take(k) =~= key);
        assert(s.skip(k + 1) =~= value);
    }
}

/// The bytes of each frame of a received message.
pub open spec fn frames_view(frames: Seq<Vec<u8>>) -> Seq<Seq<u8>> {
    frames.map_values(|f: Vec<u8>| f@)
}

/// Calls `String::from_utf8`. Claimed: it succeeds exactly on the byte vectors that
/// are valid UTF-8 (vstd's `valid_utf8`), and the string then holds the characters
/// they encode (vstd's `decode_utf8`).
#[verifier::external_body]
fn string_from_utf8(bytes: Vec<u8>) -> (string: Option<String>)
    ensures
        string is Some <==> valid_utf8(bytes@),
        string matches Some(s) ==> s@ == decode_utf8(bytes@),
{
    match String::from_utf8(bytes) {
        Ok(s) => Some(s),
        Err(_) => None,
    }
}

/// The text of a config message: it must have exactly one frame, holding UTF-8.
pub open spec fn spec_message_text(frames: Seq<Seq<u8>>) -> Result<Seq<char>, ErrorKind> {
    if frames.len() != 1 {
        Err(ErrorKind::ConfigMessageSize)
    } else if !valid_utf8(frames[0]) {
        Err(ErrorKind::ConfigMessageDeserialize)
    } else {
        Ok(decode_utf8(frames[0]))
    }
}

/// Convert a received message, given as its frames, into a `String`.
///
/// Returns `Err` if the message does not contain exactly one frame, or is not valid UTF-8.
pub fn message_to_string(frames: Vec<Vec<u8>>) -> (text: Result<String, ErrorKind>)
    ensures
        match text {
            Ok(s) => spec_message_text(frames_view(frames@)) == Ok::<Seq<char>, ErrorKind>(s@),
            Err(e) => spec_message_text(frames_view(frames@)) == Err::<Seq<char>, ErrorKind>(e),
        },
{
    let ghost view = frames_view(frames@);
    if frames.len() != 1 {
        return Err(ErrorKind::ConfigMessageSize);
    }
    let mut frames = frames;
    let frame = frames.pop().unwrap();
    assert(frame@ == view[0]);
    match string_from_utf8(frame) {
        Some(s) => Ok(s),
        None => Err(ErrorKind::ConfigMessageDeserialize),
    }
}

/// The key/value pair a config message carries.
pub open spec fn spec_config_message(frames: Seq<Seq<u8>>) -> Result<(Seq<char>, Seq<char>), ErrorKind> {
    match spec_message_text(frames) {
        Err(e) => Err(e),
        Ok(text) => match spec_split_key_value(text) {
            Some(pair) => Ok(pair),
            None => Err(ErrorKind::ConfigMessageDeserialize),
        },
    }
}

/// Decode a received config message into its key/value pair, splitting its text at
/// the first `=` character.
pub fn decode_config_message(frames: Vec<Vec<u8>>) -> (pair: Result<(String, String), ErrorKind>)
    ensures
        match pair {
            Ok((key, value)) => spec_config_message(frames_view(frames@))
                == Ok::<(Seq<char>, Seq<char>), ErrorKind>((key@, value@)),
            Err(e) => spec_config_message(frames_view(frames@))
                == Err::<(Seq<char>, Seq<char>), ErrorKind>(e),
        },
{
    let string = message_to_string(frames)?;
    match split_key_value(string.as_str()) {
        Some((key, value)) => Ok((key.to_owned(), value.to_owned())),
        None => Err(ErrorKind::ConfigMessageDeserialize),
    }
}

/// Turn one receive attempt of the config listener into the response it forwards
/// to the browser: `UpdateConfig` for a well-formed message, an error response
/// otherwise. Neither answers a request, so neither carries a request ID.
pub fn config_response(received: Option<Vec<Vec<u8>>>) -> (response: Response)
    ensures
        response.spec_req_id() is None,
        match received {
            None => response == Response::Error { req_id: None, error: ErrorKind::ConfigReceive },
            Some(frames) => match spec_config_message(frames_view(frames@)) {
                Ok((key, value)) => response matches Response::UpdateConfig { key: k, value: v }
                    && k@ == key && v@ == value,
                Err(e) => response == Response::Error { req_id: None, error: e },
            },
        },
{
    match received {
        None => Response::from(ErrorKind::ConfigReceive),
        Some(frames) => match decode_config_message(frames) {
            Ok((key, value)) => Response::UpdateConfig { key, value },
            Err(error) => Response::from(error),
        },
    }
}

/// A message of exactly one frame holding valid UTF-8, whatever its length, has as
/// text the characters that frame encodes; the size error comes exactly from a
/// frame count other than one.
pub proof fn lemma_message_text(frames: Seq<Seq<u8>>)
    ensures
        frames.len() == 1 && valid_utf8(frames[0]) ==> spec_message_text(frames)
            == Ok::<Seq<char>, ErrorKind>(decode_utf8(frames[0])),
        frames.len() == 1 && !valid_utf8(frames[0]) ==> spec_message_text(frames)
            == Err::<Seq<char>, ErrorKind>(ErrorKind::ConfigMessageDeserialize),
        spec_message_text(frames) == Err::<Seq<char>, ErrorKind>(ErrorKind::ConfigMessageSize)
            <==> frames.len() != 1,
{
}

/// A one-frame message whose text is `key=value`, with a non-empty key free of `=`
/// and a non-empty value, carries exactly that pair, whatever the value holds (later
/// `=` characters included); and the pair a message carries always puts its text
/// back together as `key=value`.
pub proof fn lemma_config_message_pair(frame: Seq<u8>, key: Seq<char>, value: Seq<char>)
    ensures
        valid_utf8(frame) && decode_utf8(frame) == key + seq!['='] + value && key.len() > 0
            && !key.contains('=') && value.len() > 0 ==> spec_config_message(seq![frame])
            == Ok::<(Seq<char>, Seq<char>), ErrorKind>((key, value)),
        spec_config_message(seq![frame]) == Ok::<(Seq<char>, Seq<char>), ErrorKind>((key, value))
            ==> valid_utf8(frame) && decode_utf8(frame) == key + seq!['='] + value && key.len()
            > 0 && !key.contains('=') && value.len() > 0,
{
    if valid_utf8(frame) {
        lemma_key_value_split(decode_utf8(frame), key, value);
    }
}

/// The pair a config message carries is exactly the split of its text at the first
/// `=`, and every error is either the text's error or a text without such a split.
pub proof fn lemma_config_message_is_split(frames: Seq<Seq<u8>>)
    ensures
        forall|pair: (Seq<char>, Seq<char>)|
            spec_config_message(frames) == Ok::<(Seq<char>, Seq<char>), ErrorKind>(pair) <==> (
            spec_message_text(frames) is Ok && spec_split_key_value(
                spec_message_text(frames)->Ok_0,
            ) == Some(pair)),
{
}

} // verus!
