use vstd::prelude::*;
use vstd::string::StringExecFns;
use vstd::utf8::encode_utf8_decode_utf8;

use crate::actions::file_label_text;
use crate::documents::LspStyleHoverCandidate;
use crate::labels::{append_decimal, decimal_chars, file_label_from_uri};
use crate::publications::opt_view;
use crate::text::str_equal;

verus! {

/// Where a hover shows a definition: the file label of its document and its
/// one-based line.
pub open spec fn hover_location(document_uri: Seq<char>, line: nat) -> Seq<char> {
    file_label_text(document_uri) + ":"@ + decimal_chars(line + 1)
}

/// The markdown of a hover over a style candidate of kind `kind` named `name`, at
/// zero-based `line` of the document `document_uri`, showing the source `snippet`:
/// for a selector, a custom property reference or a custom property declaration;
/// none for other kinds.
pub open spec fn hover_markdown(
    kind: Seq<char>,
    name: Seq<char>,
    document_uri: Seq<char>,
    line: nat,
    snippet: Seq<char>,
) -> Option<Seq<char>> {
    let tail = "`** - _"@ + hover_location(document_uri, line) + "_\n\n```scss\n"@ + snippet
        + "\n```"@;
    if kind == "selector"@ {
        Some("**`."@ + name + tail)
    } else if kind == "customPropertyReference"@ {
        Some("**`var("@ + name + ")"@ + tail)
    } else if kind == "customPropertyDeclaration"@ {
        Some("**`"@ + name + tail)
    } else {
        None
    }
}

/// The location a hover shows (see `hover_location`).
pub fn render_hover_location(document_uri: &str, line: usize) -> (res: String)
    requires
        line < usize::MAX,
    ensures
        res@ == hover_location(document_uri@, line as nat),
{
    let label = file_label_from_uri(document_uri);
    let mut text = String::new();
    text.append(label);
    text.append(":");
    append_decimal(&mut text, line + 1);
    proof {
        encode_utf8_decode_utf8(label@);
        assert(text@ =~= hover_location(document_uri@, line as nat));
    }
    text
}

/// The hover markdown of a selector or custom property candidate (see
/// `hover_markdown`).
pub fn render_style_hover_markdown(
    kind: &str,
    name: &str,
    document_uri: &str,
    line: usize,
    snippet: &str,
) -> (res: Option<String>)
    requires
        line < usize::MAX,
    ensures
        match res {
            Some(text) => hover_markdown(kind@, name@, document_uri@, line as nat, snippet@)
                == Some(text@),
            None => hover_markdown(kind@, name@, document_uri@, line as nat, snippet@) is None,
        },
{
    let mut text = if str_equal(kind, "selector") {
        let mut t = "**`.".to_owned();
        t.append(name);
        t
    } else if str_equal(kind, "customPropertyReference") {
        let mut t = "**`var(".to_owned();
        t.append(name);
        t.append(")");
        t
    } else if str_equal(kind, "customPropertyDeclaration") {
        let mut t = "**`".to_owned();
        t.append(name);
        t
    } else {
        return None;
    };
    let ghost head = text@;
    let location = render_hover_location(document_uri, line);
    text.append("`** - _");
    text.append(location.as_str());
    text.append("_\n\n```scss\n");
    text.append(snippet);
    text.append("\n```");
    proof {
        assert(text@ =~= head + ("`** - _"@ + hover_location(document_uri@, line as nat)
            + "_\n\n```scss\n"@ + snippet@ + "\n```"@));
    }
    Some(text)
}

/// The kind of a Sass module symbol.
#[derive(Debug, Clone, Copy, PartialEq, Eq)]
pub enum SassSymbolKind {
    Variable,
    Mixin,
    Function,
}

/// How the style index classifies a candidate's kind: whether it is a Sass symbol
/// candidate at all, the kind of symbol it names, and whether it declares it.
#[derive(Debug, Clone, Copy, PartialEq, Eq)]
pub struct SassSymbolClass {
    pub is_candidate: bool,
    pub symbol_kind: Option<SassSymbolKind>,
    pub is_declaration: bool,
}

/// What the style index reads out of the source around a candidate for its hover:
/// the snippet shown, and for Sass symbols the value and signature declared.
#[derive(Debug, Clone, PartialEq, Eq)]
pub struct StyleHoverRenderParts {
    pub snippet: String,
    pub value: Option<String>,
    pub signature: Option<String>,
}

/// `namespace.` before a namespaced symbol, nothing before one of the document itself.
pub open spec fn namespace_prefix(namespace: Option<Seq<char>>) -> Seq<char> {
    match namespace {
        Some(n) => n + "."@,
        None => Seq::empty(),
    }
}

/// How a Sass symbol is written in its hover: `$name` for a variable, `@mixin name`
/// for a mixin declaration, `@include name` for a mixin use, `name()` for a
/// function, the namespace first where there is one (but for a mixin declaration).
pub open spec fn sass_symbol_label(
    name: Seq<char>,
    namespace: Option<Seq<char>>,
    class: SassSymbolClass,
) -> Seq<char> {
    match class.symbol_kind {
        Some(SassSymbolKind::Variable) => namespace_prefix(namespace) + "$"@ + name,
        Some(SassSymbolKind::Mixin) => if class.is_declaration {
            "@mixin "@ + name
        } else {
            "@include "@ + namespace_prefix(namespace) + name
        },
        Some(SassSymbolKind::Function) => namespace_prefix(namespace) + name + "()"@,
        None => name,
    }
}

/// The hover of a Sass symbol: its label (for a declared mixin or function, its
/// signature where one was read), its location, the value of a declared variable
/// where one was read, and the snippet.
pub open spec fn sass_symbol_hover_markdown(
    label: Seq<char>,
    location: Seq<char>,
    class: SassSymbolClass,
    value: Option<Seq<char>>,
    signature: Option<Seq<char>>,
    snippet: Seq<char>,
) -> Seq<char> {
    let callable = class.symbol_kind == Some(SassSymbolKind::Mixin) || class.symbol_kind == Some(
        SassSymbolKind::Function,
    );
    let shown = if class.is_declaration && callable && signature is Some {
        signature->0
    } else {
        label
    };
    let value_line = if class.is_declaration && class.symbol_kind == Some(SassSymbolKind::Variable)
        && value is Some {
        "\n\nValue: `"@ + value->0 + "`"@
    } else {
        Seq::empty()
    };
    "**`"@ + shown + "`** - _"@ + location + "_"@ + value_line + "\n\n```scss\n"@ + snippet
        + "\n```"@
}

/// The hover of any style candidate: that of a selector or custom property (see
/// `hover_markdown`), else that of a Sass symbol, else the candidate's name.
pub open spec fn style_candidate_hover_markdown(
    document_uri: Seq<char>,
    candidate: LspStyleHoverCandidate,
    parts: StyleHoverRenderParts,
    class: SassSymbolClass,
) -> Seq<char> {
    let line = candidate.range.start.line as nat;
    match hover_markdown(candidate.kind@, candidate.name@, document_uri, line, parts.snippet@) {
        Some(markdown) => markdown,
        None => if class.is_candidate {
            sass_symbol_hover_markdown(
                sass_symbol_label(candidate.name@, opt_view(candidate.namespace), class),
                hover_location(document_uri, line),
                class,
                opt_view(parts.value),
                opt_view(parts.signature),
                parts.snippet@,
            )
        } else {
            candidate.name@
        },
    }
}

/// The label of a Sass symbol (see `sass_symbol_label`).
pub fn render_sass_symbol_label(name: &str, namespace: Option<&str>, class: SassSymbolClass) -> (res:
    String)
    ensures
        res@ == sass_symbol_label(
            name@,
            match namespace {
                Some(n) => Some(n@),
                None => None,
            },
            class,
        ),
{
    let mut prefix = String::new();
    if let Some(n) = namespace {
        prefix.append(n);
        prefix.append(".");
    }
    let ghost ns: Option<Seq<char>> = match namespace {
        Some(n) => Some(n@),
        None => None,
    };
    assert(prefix@ =~= namespace_prefix(ns));
    let mut text = String::new();
    match class.symbol_kind {
        Some(SassSymbolKind::Variable) => {
            text.append(prefix.as_str());
            text.append("$");
            text.append(name);
        },
        Some(SassSymbolKind::Mixin) => {
            if class.is_declaration {
                text.append("@mixin ");
                text.append(name);
            } else {
                text.append("@include ");
                text.append(prefix.as_str());
                text.append(name);
            }
        },
        Some(SassSymbolKind::Function) => {
            text.append(prefix.as_str());
            text.append(name);
            text.append("()");
        },
        None => {
            text.append(name);
        },
    }
    proof {
        assert(text@ =~= sass_symbol_label(name@, ns, class));
    }
    text
}

/// The hover of a Sass symbol (see `sass_symbol_hover_markdown`).
pub fn render_sass_symbol_hover_markdown(
    label: &str,
    location: &str,
    class: SassSymbolClass,
    parts: &StyleHoverRenderParts,
) -> (res: String)
    ensures
        res@ == sass_symbol_hover_markdown(
            label@,
            location@,
            class,
            opt_view(parts.value),
            opt_view(parts.signature),
            parts.snippet@,
        ),
{
    let callable = match class.symbol_kind {
        Some(SassSymbolKind::Mixin) | Some(SassSymbolKind::Function) => true,
        _ => false,
    };
    let is_variable = match class.symbol_kind {
        Some(SassSymbolKind::Variable) => true,
        _ => false,
    };
    let mut text = "**`".to_owned();
    match &parts.signature {
        Some(signature) if class.is_declaration && callable => text.append(signature.as_str()),
        _ => text.append(label),
    }
    text.append("`** - _");
    text.append(location);
    text.append("_");
    let ghost head = text@;
    match &parts.value {
        Some(value) if class.is_declaration && is_variable => {
            text.append("\n\nValue: `");
            text.append(value.as_str());
            text.append("`");
        },
        _ => {},
    }
    let ghost with_value = text@;
    text.append("\n\n```scss\n");
    text.append(parts.snippet.as_str());
    text.append("\n```");
    proof {
        assert(text@ =~= with_value + "\n\n```scss\n"@ + parts.snippet@ + "\n```"@);
    }
    text
}

/// The hover of a style candidate of `document_uri` (see
/// `style_candidate_hover_markdown`).
pub fn render_style_hover_candidate_markdown(
    document_uri: &str,
    candidate: &LspStyleHoverCandidate,
    parts: &StyleHoverRenderParts,
    class: SassSymbolClass,
) -> (res: String)
    requires
        candidate.range.start.line < usize::MAX,
    ensures
        res@ == style_candidate_hover_markdown(document_uri@, *candidate, *parts, class),
{
    let line = candidate.range.start.line;
    if let Some(markdown) = render_style_hover_markdown(
        candidate.kind,
        candidate.name.as_str(),
        document_uri,
        line,
        parts.snippet.as_str(),
    ) {
        return markdown;
    }
    if class.is_candidate {
        let namespace = match &candidate.namespace {
            Some(n) => Some(n.as_str()),
            None => None,
        };
        let label = render_sass_symbol_label(candidate.name.as_str(), namespace, class);
        let location = render_hover_location(document_uri, line);
        return render_sass_symbol_hover_markdown(label.as_str(), location.as_str(), class, parts);
    }
    candidate.name.clone()
}

/// The sections of a hover, one after another, a rule between each two.
pub open spec fn joined_sections(sections: Seq<Seq<char>>) -> Seq<char>
    decreases sections.len(),
{
    if sections.len() == 0 {
        Seq::empty()
    } else if sections.len() == 1 {
        sections[0]
    } else {
        joined_sections(sections.drop_last()) + "\n\n---\n\n"@ + sections.last()
    }
}

/// The views of a list of strings.
pub open spec fn text_views(sections: Seq<String>) -> Seq<Seq<char>> {
    sections.map_values(|s: String| s@)
}

/// The hover of several definitions: their sections joined, none when there are none.
pub fn join_hover_sections(sections: &Vec<String>) -> (res: Option<String>)
    ensures
        match res {
            Some(text) => sections@.len() > 0 && text@ == joined_sections(text_views(sections@)),
            None => sections@.len() == 0,
        },
{
    if sections.len() == 0 {
        return None;
    }
    let mut text = String::new();
    text.append(sections[0].as_str());
    let mut i: usize = 1;
    while i < sections.len()
        invariant
            1 <= i <= sections@.len(),
            text@ == joined_sections(text_views(sections@.subrange(0, i as int))),
        decreases sections@.len() - i,
    {
        proof {
            let prefix = text_views(sections@.subrange(0, i as int + 1));
            assert(prefix.drop_last() =~= text_views(sections@.subrange(0, i as int)));
        }
        text.append("\n\n---\n\n");
        text.append(sections[i].as_str());
        i = i + 1;
    }
    proof {
        assert(sections@.subrange(0, sections@.len() as int) =~= sections@);
    }
    Some(text)
}

/// The hover of a source reference to the selector `name`: the hovers of the
/// definitions it resolves to, joined; the selector's name alone where none was
/// rendered.
pub fn render_source_hover_markdown(sections: &Vec<String>, name: &str) -> (res: String)
    ensures
        res@ == if sections@.len() > 0 {
            joined_sections(text_views(sections@))
        } else {
            "**`."@ + name@ + "`**"@
        },
{
    match join_hover_sections(sections) {
        Some(text) => text,
        None => {
            let mut text = "**`.".to_owned();
            text.append(name);
            text.append("`**");
            text
        },
    }
}

} // verus!
