use vstd::prelude::*;
use vstd::string::StringSliceAdditionalSpecFns;
use vstd::utf8::valid_utf8;

verus! {

/// The value of an ASCII hexadecimal digit, upper or lower case.
pub open spec fn hex_digit(byte: u8) -> Option<u8> {
    if 48 <= byte <= 57 {
        Some((byte - 48) as u8)
    } else if 97 <= byte <= 102 {
        Some((byte - 87) as u8)
    } else if 65 <= byte <= 70 {
        Some((byte - 55) as u8)
    } else {
        None
    }
}

/// Percent-decoding of a URI path: `%XY` with two hex digits stands for the byte
/// `0xXY`; any other `%` makes the whole path undecodable; other bytes stand for
/// themselves.
pub open spec fn percent_decoded(raw: Seq<u8>) -> Option<Seq<u8>>
    decreases raw.len(),
{
    if raw.len() == 0 {
        Some(Seq::empty())
    } else if raw[0] == 37 {
        if raw.len() >= 3 && hex_digit(raw[1]) is Some && hex_digit(raw[2]) is Some {
            match percent_decoded(raw.subrange(3, raw.len() as int)) {
                Some(rest) => Some(
                    seq![(hex_digit(raw[1])->0 * 16 + hex_digit(raw[2])->0) as u8] + rest,
                ),
                None => None,
            }
        } else {
            None
        }
    } else {
        match percent_decoded(raw.subrange(1, raw.len() as int)) {
            Some(rest) => Some(seq![raw[0]] + rest),
            None => None,
        }
    }
}

/// Text without a `%` decodes to itself.
pub proof fn law_decoding_without_percent_is_identity(raw: Seq<u8>)
    requires
        forall|i: int| 0 <= i < raw.len() ==> raw[i] != 37,
    ensures
        percent_decoded(raw) == Some(raw),
    decreases raw.len(),
{
    if raw.len() > 0 {
        let rest = raw.subrange(1, raw.len() as int);
        assert forall|i: int| 0 <= i < rest.len() implies rest[i] != 37 by {
            assert(rest[i] == raw[i + 1]);
        }
        law_decoding_without_percent_is_identity(rest);
        assert(seq![raw[0]] + rest =~= raw);
    }
}

/// A `%` not followed by two hex digits makes the whole text undecodable.
pub proof fn law_bad_escape_is_undecodable(before: Seq<u8>, after: Seq<u8>)
    requires
        forall|i: int| 0 <= i < before.len() ==> before[i] != 37,
        after.len() < 2 || hex_digit(after[0]) is None || hex_digit(after[1]) is None,
    ensures
        percent_decoded(before + seq![37u8] + after) is None,
    decreases before.len(),
{
    let raw = before + seq![37u8] + after;
    if before.len() == 0 {
        assert(raw[0] == 37);
        if raw.len() >= 3 {
            assert(raw[1] == after[0] && raw[2] == after[1]);
        }
    } else {
        let rest = before.subrange(1, before.len() as int);
        assert forall|i: int| 0 <= i < rest.len() implies rest[i] != 37 by {
            assert(rest[i] == before[i + 1]);
        }
        law_bad_escape_is_undecodable(rest, after);
        assert(raw.subrange(1, raw.len() as int) =~= rest + seq![37u8] + after);
        assert(raw[0] == before[0]);
    }
}

/// The bytes of `file://`.
pub open spec fn file_scheme() -> Seq<u8> {
    seq![102u8, 105u8, 108u8, 101u8, 58u8, 47u8, 47u8]
}

/// The file-system path named by a `file://` URI: what follows the scheme,
/// percent-decoded, provided the result is well-formed UTF-8.
pub open spec fn file_uri_path(uri: Seq<u8>) -> Option<Seq<u8>> {
    if uri.len() >= 7 && uri.subrange(0, 7) == file_scheme() {
        match percent_decoded(uri.subrange(7, uri.len() as int)) {
            Some(decoded) => if valid_utf8(decoded) {
                Some(decoded)
            } else {
                None
            },
            None => None,
        }
    } else {
        None
    }
}

/// The contents of an optional byte vector.
pub open spec fn opt_bytes(o: Option<Vec<u8>>) -> Option<Seq<u8>> {
    match o {
        Some(v) => Some(v@),
        None => None,
    }
}

/// `std::str::from_utf8`: it succeeds exactly on well-formed UTF-8.
#[verifier::external_body]
fn is_well_formed_utf8(bytes: &[u8]) -> (res: bool)
    ensures
        res == valid_utf8(bytes@),
{
    std::str::from_utf8(bytes).is_ok()
}

/// The value of a hexadecimal digit byte.
pub fn hex_value(byte: u8) -> (res: Option<u8>)
    ensures
        res == hex_digit(byte),
{
    if 48 <= byte && byte <= 57 {
        Some(byte - 48)
    } else if 97 <= byte && byte <= 102 {
        Some(byte - 87)
    } else if 65 <= byte && byte <= 70 {
        Some(byte - 55)
    } else {
        None
    }
}

/// Percent-decodes `raw[start..]`, or `None` where a `%` is not followed by two hex
/// digits or the decoded bytes are not UTF-8.
pub fn percent_decode_uri_path(raw: &[u8], start: usize) -> (res: Option<Vec<u8>>)
    requires
        start <= raw@.len(),
    ensures
        opt_bytes(res) == match percent_decoded(raw@.subrange(start as int, raw@.len() as int)) {
            Some(decoded) => if valid_utf8(decoded) {
                Some(decoded)
            } else {
                None
            },
            None => None,
        },
        (forall|i: int| start <= i < raw@.len() ==> raw@[i] != 37) && valid_utf8(
            raw@.subrange(start as int, raw@.len() as int),
        ) ==> opt_bytes(res) == Some(raw@.subrange(start as int, raw@.len() as int)),
{
    let ghost whole = raw@.subrange(start as int, raw@.len() as int);
    proof {
        if forall|i: int| start <= i < raw@.len() ==> raw@[i] != 37 {
            assert forall|i: int| 0 <= i < whole.len() implies whole[i] != 37 by {
                assert(whole[i] == raw@[i + start]);
            }
            law_decoding_without_percent_is_identity(whole);
        }
    }
    let mut decoded: Vec<u8> = Vec::new();
    let mut index: usize = start;
    while index < raw.len()
        invariant
            start <= index <= raw@.len(),
            whole == raw@.subrange(start as int, raw@.len() as int),
            percent_decoded(whole) == match percent_decoded(
                raw@.subrange(index as int, raw@.len() as int),
            ) {
                Some(rest) => Some(decoded@ + rest),
                None => None::<Seq<u8>>,
            },
        decreases raw@.len() - index,
    {
        let ghost tail = raw@.subrange(index as int, raw@.len() as int);
        if raw[index] == 37 {
            if raw.len() - index < 3 {
                proof {
                    assert(tail.len() < 3);
                    assert(percent_decoded(tail) is None);
                }
                return None;
            }
            let high = hex_value(raw[index + 1]);
            let low = hex_value(raw[index + 2]);
            match (high, low) {
                (Some(h), Some(l)) => {
                    proof {
                        assert(tail[1] == raw@[index + 1]);
                        assert(tail[2] == raw@[index + 2]);
                        assert(tail.subrange(3, tail.len() as int) =~= raw@.subrange(
                            index + 3,
                            raw@.len() as int,
                        ));
                        assert(decoded@.push((h * 16 + l) as u8) =~= decoded@ + seq![
                            (h * 16 + l) as u8,
                        ]);
                        match percent_decoded(raw@.subrange(index + 3, raw@.len() as int)) {
                            Some(rest) => {
                                assert(decoded@ + (seq![(h * 16 + l) as u8] + rest) =~= decoded@
                                    + seq![(h * 16 + l) as u8] + rest);
                            },
                            None => {},
                        }
                    }
                    decoded.push(h * 16 + l);
                    index = index + 3;
                },
                _ => {
                    proof {
                        assert(tail[1] == raw@[index + 1]);
                        assert(tail[2] == raw@[index + 2]);
                    }
                    return None;
                },
            }
        } else {
            proof {
                assert(tail[0] == raw@[index as int]);
                assert(tail.subrange(1, tail.len() as int) =~= raw@.subrange(
                    index + 1,
                    raw@.len() as int,
                ));
                match percent_decoded(raw@.subrange(index + 1, raw@.len() as int)) {
                    Some(rest) => {
                        assert(decoded@ + (seq![raw@[index as int]] + rest) =~= decoded@.push(
                            raw@[index as int],
                        ) + rest);
                    },
                    None => {},
                }
            }
            decoded.push(raw[index]);
            index = index + 1;
        }
    }
    proof {
        assert(raw@.subrange(index as int, raw@.len() as int) =~= Seq::<u8>::empty());
        assert(decoded@ + Seq::<u8>::empty() =~= decoded@);
    }
    if is_well_formed_utf8(decoded.as_slice()) {
        Some(decoded)
    } else {
        None
    }
}

/// The path bytes named by a `file://` URI (see `file_uri_path`).
pub fn file_uri_to_path(uri: &str) -> (res: Option<Vec<u8>>)
    ensures
        opt_bytes(res) == file_uri_path(uri.spec_bytes()),
{
    let bytes = uri.as_bytes();
    if bytes.len() < 7 {
        return None;
    }
    let scheme_matches = bytes[0] == 102 && bytes[1] == 105 && bytes[2] == 108 && bytes[3] == 101
        && bytes[4] == 58 && bytes[5] == 47 && bytes[6] == 47;
    proof {
        if scheme_matches {
            assert(bytes@.subrange(0, 7) =~= file_scheme());
        } else {
            assert(bytes@.subrange(0, 7) != file_scheme()) by {
                let s = bytes@.subrange(0, 7);
                assert(s[0] == bytes@[0] && s[1] == bytes@[1] && s[2] == bytes@[2] && s[3]
                    == bytes@[3] && s[4] == bytes@[4] && s[5] == bytes@[5] && s[6] == bytes@[6]);
            }
        }
    }
    if !scheme_matches {
        return None;
    }
    percent_decode_uri_path(bytes, 7)
}

} // verus!
