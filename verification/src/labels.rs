use vstd::prelude::*;
use vstd::string::{StringExecFns, StringSliceAdditionalSpecFns};
use vstd::utf8::encode_utf8_valid_utf8;

use crate::text::{lemma_boundary_after_ascii, str_equal};

verus! {

/// The characters that may continue a CSS identifier: ASCII letters and digits,
/// `-` and `_`.
pub open spec fn css_identifier_char(c: char) -> bool {
    ('0' <= c <= '9') || ('a' <= c <= 'z') || ('A' <= c <= 'Z') || c == '-' || c == '_'
}

/// Whether `ch` may continue a CSS identifier.
pub fn is_css_identifier_continue(ch: char) -> (res: bool)
    ensures
        res == css_identifier_char(ch),
{
    ('0' <= ch && ch <= '9') || ('a' <= ch && ch <= 'z') || ('A' <= ch && ch <= 'Z') || ch
        == '-' || ch == '_'
}

/// Where the last `/`-separated segment of `bytes` starts.
pub open spec fn last_segment_start(bytes: Seq<u8>) -> int
    decreases bytes.len(),
{
    if bytes.len() == 0 {
        0
    } else if bytes.last() == 47 {
        bytes.len() as int
    } else {
        last_segment_start(bytes.drop_last())
    }
}

/// The label of a URI: its text after the last `/`, or the whole URI where that
/// text is empty.
pub open spec fn file_label(bytes: Seq<u8>) -> Seq<u8> {
    let start = last_segment_start(bytes);
    if start == bytes.len() {
        bytes
    } else {
        bytes.subrange(start, bytes.len() as int)
    }
}

/// The file label of a URI (see `file_label`).
pub fn file_label_from_uri(uri: &str) -> (res: &str)
    ensures
        res.spec_bytes() == file_label(uri.spec_bytes()),
{
    let bytes = uri.as_bytes();
    let ghost b = bytes@;
    let mut start: usize = bytes.len();
    assert(b.subrange(0, b.len() as int) =~= b);
    while start > 0 && bytes[start - 1] != 47
        invariant
            b == bytes@,
            start <= b.len(),
            last_segment_start(b) == last_segment_start(b.subrange(0, start as int)),
        decreases start,
    {
        let ghost prefix = b.subrange(0, start as int);
        assert(prefix.drop_last() =~= b.subrange(0, start - 1));
        start = start - 1;
    }
    proof {
        let prefix = b.subrange(0, start as int);
        if start > 0 {
            assert(prefix.last() == 47);
        }
        assert(b.subrange(0, b.len() as int) =~= b);
    }
    if start == bytes.len() {
        return uri;
    }
    proof {
        encode_utf8_valid_utf8(uri@);
        if start > 0 {
            lemma_boundary_after_ascii(b, start - 1);
        } else {
            vstd::utf8::is_char_boundary_start_end_of_seq(b);
        }
    }
    let (_, label) = uri.split_at(start);
    label
}

/// The LSP severity code of a severity name.
pub fn diagnostic_severity_code(value: &str) -> (res: Option<u8>)
    ensures
        res == if value@ == "error"@ {
            Some(1u8)
        } else if value@ == "warning"@ {
            Some(2u8)
        } else if value@ == "information"@ {
            Some(3u8)
        } else if value@ == "hint"@ {
            Some(4u8)
        } else {
            None
        },
{
    if str_equal(value, "error") {
        Some(1)
    } else if str_equal(value, "warning") {
        Some(2)
    } else if str_equal(value, "information") {
        Some(3)
    } else if str_equal(value, "hint") {
        Some(4)
    } else {
        None
    }
}

/// The decimal digits of `n`, most significant first, without leading zeros.
pub open spec fn decimal_chars(n: nat) -> Seq<char>
    decreases n,
{
    if n < 10 {
        seq![(48 + n) as char]
    } else {
        decimal_chars(n / 10).push((48 + n % 10) as char)
    }
}

fn digit_text(d: usize) -> (res: &'static str)
    requires
        d < 10,
    ensures
        res@ == seq![(48 + d) as char],
{
    proof {
        reveal_strlit("0");
        reveal_strlit("1");
        reveal_strlit("2");
        reveal_strlit("3");
        reveal_strlit("4");
        reveal_strlit("5");
        reveal_strlit("6");
        reveal_strlit("7");
        reveal_strlit("8");
        reveal_strlit("9");
    }
    if d == 0 {
        "0"
    } else if d == 1 {
        "1"
    } else if d == 2 {
        "2"
    } else if d == 3 {
        "3"
    } else if d == 4 {
        "4"
    } else if d == 5 {
        "5"
    } else if d == 6 {
        "6"
    } else if d == 7 {
        "7"
    } else if d == 8 {
        "8"
    } else {
        "9"
    }
}

pub(crate) fn append_decimal(out: &mut String, n: usize)
    ensures
        final(out)@ == old(out)@ + decimal_chars(n as nat),
    decreases n,
{
    if n >= 10 {
        append_decimal(out, n / 10);
    }
    out.append(digit_text(n % 10));
    proof {
        if n >= 10 {
            assert(old(out)@ + decimal_chars((n / 10) as nat) + seq![(48 + n % 10) as char]
                =~= old(out)@ + decimal_chars(n as nat));
        } else {
            assert(decimal_chars(n as nat) == seq![(48 + n) as char]);
        }
    }
}

/// The title of a references code lens: `1 reference`, or the count and `references`.
pub fn reference_lens_title(count: usize) -> (res: String)
    ensures
        res@ == if count == 1 {
            "1 reference"@
        } else {
            decimal_chars(count as nat) + " references"@
        },
{
    if count == 1 {
        return "1 reference".to_owned();
    }
    let mut title = String::new();
    append_decimal(&mut title, count);
    title.append(" references");
    proof {
        assert(Seq::<char>::empty() + decimal_chars(count as nat) =~= decimal_chars(count as nat));
    }
    title
}

} // verus!
