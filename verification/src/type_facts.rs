use vstd::prelude::*;
use vstd::string::{StrSliceExecFns, StringExecFns, StringSliceAdditionalSpecFns};

use crate::completion::css_identifier_byte;
use crate::registry::text_bytes;
use crate::text::str_equal;
use crate::uri_set::{members, strings_sorted, UriSet};

verus! {

/// Whether every byte of `bytes` belongs to a CSS identifier character. These
/// characters are ASCII, so UTF-8 text passes exactly when each of its characters
/// is one.
pub open spec fn identifier_text(bytes: Seq<u8>) -> bool {
    forall|i: int| 0 <= i < bytes.len() ==> css_identifier_byte(#[trigger] bytes[i])
}

/// Whether the type checker's answer projects the selector name `name` for a
/// target written as `prefix`, a value, and `suffix`: the type is a union, one of
/// its values consists of identifier characters, and `name` is that value between
/// the prefix and the suffix, not empty.
pub open spec fn projects_name(
    kind: Seq<char>,
    values: Seq<String>,
    prefix: Seq<char>,
    suffix: Seq<char>,
    name: Seq<char>,
) -> bool {
    &&& kind == "union"@
    &&& name.len() > 0
    &&& exists|i: int|
        0 <= i < values.len() && identifier_text(text_bytes(values[i])) && name == prefix
            + #[trigger] values[i]@ + suffix
}

fn is_identifier_text(text: &str) -> (res: bool)
    ensures
        res == identifier_text(text.spec_bytes()),
{
    let bytes = text.as_bytes();
    let mut i: usize = 0;
    while i < bytes.len()
        invariant
            i <= bytes@.len(),
            bytes@ == text.spec_bytes(),
            forall|k: int| 0 <= k < i ==> css_identifier_byte(#[trigger] bytes@[k]),
        decreases bytes@.len() - i,
    {
        let b = bytes[i];
        if !((48 <= b && b <= 57) || (97 <= b && b <= 122) || (65 <= b && b <= 90) || b == 45 || b
            == 95) {
            return false;
        }
        i = i + 1;
    }
    true
}

/// The selector names that a type checker's answer for a class-name expression
/// projects (see `projects_name`): each once, in byte order. `kind` and `values`
/// are the kind and the literal values of the resolved type.
pub fn project_type_fact_names(kind: &str, values: &[String], prefix: &str, suffix: &str) -> (res:
    Vec<String>)
    ensures
        strings_sorted(res@),
        forall|u: Seq<char>|
            members(res@).contains(u) <==> projects_name(kind@, values@, prefix@, suffix@, u),
{
    let mut names = UriSet::new();
    if !str_equal(kind, "union") {
        let res = names.into_vec();
        assert(members(res@) =~= Set::<Seq<char>>::empty());
        return res;
    }
    let mut i: usize = 0;
    while i < values.len()
        invariant
            i <= values@.len(),
            names.wf(),
            kind@ == "union"@,
            forall|u: Seq<char>|
                names.set().contains(u) <==> (u.len() > 0 && exists|k: int|
                    0 <= k < i && identifier_text(text_bytes(values@[k])) && u == prefix@
                        + #[trigger] values@[k]@ + suffix@),
        decreases values@.len() - i,
    {
        let value = values[i].as_str();
        let ghost before = names.set();
        let ghost name = prefix@ + values@[i as int]@ + suffix@;
        if is_identifier_text(value) {
            let mut name_text = prefix.to_owned();
            name_text.append(value);
            name_text.append(suffix);
            assert(name_text@ == name);
            if name_text.as_str().unicode_len() > 0 {
                names.insert(name_text.as_str());
            }
        }
        proof {
            assert forall|u: Seq<char>|
                names.set().contains(u) <==> (u.len() > 0 && exists|k: int|
                    0 <= k < i + 1 && identifier_text(text_bytes(values@[k])) && u == prefix@
                        + #[trigger] values@[k]@ + suffix@) by {
                if exists|k: int|
                    0 <= k < i + 1 && identifier_text(text_bytes(values@[k])) && u == prefix@
                        + #[trigger] values@[k]@ + suffix@ {
                    let k = choose|k: int|
                        0 <= k < i + 1 && identifier_text(text_bytes(values@[k])) && u == prefix@
                            + #[trigger] values@[k]@ + suffix@;
                    if k < i && u.len() > 0 {
                        assert(before.contains(u));
                    }
                }
            }
        }
        i = i + 1;
    }
    let ghost found = names.set();
    let res = names.into_vec();
    assert(members(res@) == found);
    res
}

} // verus!
