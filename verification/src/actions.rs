use vstd::prelude::*;
use vstd::string::{StringExecFns, StringSliceAdditionalSpecFns};
use vstd::utf8::{decode_utf8, encode_utf8, encode_utf8_decode_utf8};

use crate::labels::{file_label, file_label_from_uri};

verus! {

/// A fix that a diagnostic carries: create `name` in the style document `uri` by
/// inserting `new_text` there.
#[derive(Debug, Clone, PartialEq, Eq)]
pub struct CreateFixPayload {
    pub uri: String,
    pub new_text: String,
    pub name: String,
}

/// The fixes that one diagnostic carries: a missing custom property or a missing
/// selector to create.
#[derive(Debug, Clone, PartialEq, Eq)]
pub struct DiagnosticFixes {
    pub create_custom_property: Option<CreateFixPayload>,
    pub create_selector: Option<CreateFixPayload>,
}

/// The two kinds of quick fix.
#[derive(Debug, Clone, Copy, PartialEq, Eq, Structural)]
pub enum QuickFixKind {
    CreateCustomProperty,
    CreateSelector,
}

/// A quick fix to offer: of diagnostic number `diagnostic_index`, titled `title`,
/// inserting `new_text` into the document `uri`.
#[derive(Debug, Clone, PartialEq, Eq)]
pub struct QuickFixPlan {
    pub kind: QuickFixKind,
    pub diagnostic_index: usize,
    pub title: String,
    pub uri: String,
    pub new_text: String,
}

/// The label of a URI as text: the characters of its last `/`-separated segment.
pub open spec fn file_label_text(uri: Seq<char>) -> Seq<char> {
    decode_utf8(file_label(encode_utf8(uri)))
}

/// The fix of `kind` that `fixes` carries, if any.
pub open spec fn payload_of(fixes: DiagnosticFixes, kind: QuickFixKind) -> Option<CreateFixPayload> {
    match kind {
        QuickFixKind::CreateCustomProperty => fixes.create_custom_property,
        QuickFixKind::CreateSelector => fixes.create_selector,
    }
}

/// The title of a fix: `Add '<name>' to <file>` for a custom property, and
/// `Add '.<name>' to <file>` for a selector.
pub open spec fn quick_fix_title(kind: QuickFixKind, payload: CreateFixPayload) -> Seq<char> {
    match kind {
        QuickFixKind::CreateCustomProperty => "Add '"@ + payload.name@ + "' to "@ + file_label_text(
            payload.uri@,
        ),
        QuickFixKind::CreateSelector => "Add '."@ + payload.name@ + "' to "@ + file_label_text(
            payload.uri@,
        ),
    }
}

/// A quick fix as values: kind, diagnostic index, title, URI and new text.
pub type QuickFixView = (QuickFixKind, int, Seq<char>, Seq<char>, Seq<char>);

/// The view of a planned quick fix.
pub open spec fn plan_view(plan: QuickFixPlan) -> QuickFixView {
    (plan.kind, plan.diagnostic_index as int, plan.title@, plan.uri@, plan.new_text@)
}

/// The fixes of `kind` that `diagnostics` carry, in the order of the diagnostics.
pub open spec fn fixes_of(diagnostics: Seq<DiagnosticFixes>, kind: QuickFixKind) -> Seq<QuickFixView>
    decreases diagnostics.len(),
{
    if diagnostics.len() == 0 {
        Seq::empty()
    } else {
        let prior = fixes_of(diagnostics.drop_last(), kind);
        match payload_of(diagnostics.last(), kind) {
            Some(p) => prior.push(
                (kind, diagnostics.len() - 1, quick_fix_title(kind, p), p.uri@, p.new_text@),
            ),
            None => prior,
        }
    }
}

/// The quick fixes for `diagnostics`: every custom property fix, then every
/// selector fix.
pub open spec fn quick_fixes(diagnostics: Seq<DiagnosticFixes>) -> Seq<QuickFixView> {
    fixes_of(diagnostics, QuickFixKind::CreateCustomProperty) + fixes_of(
        diagnostics,
        QuickFixKind::CreateSelector,
    )
}

/// The index a quick fix of `kind` names as its source.
pub fn quick_fix_source(kind: QuickFixKind) -> (res: &'static str)
    ensures
        res@ == match kind {
            QuickFixKind::CreateCustomProperty => "openedStyleDocumentIndex"@,
            QuickFixKind::CreateSelector => "omenaQuerySourceSyntaxIndex"@,
        },
{
    match kind {
        QuickFixKind::CreateCustomProperty => "openedStyleDocumentIndex",
        QuickFixKind::CreateSelector => "omenaQuerySourceSyntaxIndex",
    }
}

fn quick_fix_title_of(kind: QuickFixKind, payload: &CreateFixPayload) -> (res: String)
    ensures
        res@ == quick_fix_title(kind, *payload),
{
    let label = file_label_from_uri(payload.uri.as_str());
    let mut title = match kind {
        QuickFixKind::CreateCustomProperty => "Add '".to_owned(),
        QuickFixKind::CreateSelector => "Add '.".to_owned(),
    };
    title.append(payload.name.as_str());
    title.append("' to ");
    title.append(label);
    proof {
        encode_utf8_decode_utf8(label@);
    }
    title
}

fn payload_for(fixes: &DiagnosticFixes, kind: QuickFixKind) -> (res: &Option<CreateFixPayload>)
    ensures
        *res == payload_of(*fixes, kind),
{
    match kind {
        QuickFixKind::CreateCustomProperty => &fixes.create_custom_property,
        QuickFixKind::CreateSelector => &fixes.create_selector,
    }
}

fn push_fixes_of(diagnostics: &[DiagnosticFixes], kind: QuickFixKind, plans: &mut Vec<QuickFixPlan>)
    ensures
        final(plans)@.map_values(|q: QuickFixPlan| plan_view(q)) == old(plans)@.map_values(
            |q: QuickFixPlan| plan_view(q),
        ) + fixes_of(diagnostics@, kind),
{
    let ghost start = plans@.map_values(|q: QuickFixPlan| plan_view(q));
    let mut i: usize = 0;
    assert(diagnostics@.subrange(0, 0) =~= Seq::<DiagnosticFixes>::empty());
    assert(start + Seq::<QuickFixView>::empty() =~= start);
    while i < diagnostics.len()
        invariant
            i <= diagnostics@.len(),
            plans@.map_values(|q: QuickFixPlan| plan_view(q)) == start + fixes_of(
                diagnostics@.subrange(0, i as int),
                kind,
            ),
        decreases diagnostics@.len() - i,
    {
        let ghost prefix = diagnostics@.subrange(0, i + 1);
        assert(prefix.drop_last() =~= diagnostics@.subrange(0, i as int));
        assert(prefix.last() == diagnostics@[i as int]);
        if let Some(payload) = payload_for(&diagnostics[i], kind) {
            let plan = QuickFixPlan {
                kind,
                diagnostic_index: i,
                title: quick_fix_title_of(kind, payload),
                uri: payload.uri.clone(),
                new_text: payload.new_text.clone(),
            };
            let ghost before = plans@;
            plans.push(plan);
            proof {
                assert(plans@.map_values(|q: QuickFixPlan| plan_view(q)) =~= before.map_values(
                    |q: QuickFixPlan| plan_view(q),
                ).push(plan_view(plan)));
            }
        }
        i = i + 1;
    }
    assert(diagnostics@.subrange(0, diagnostics@.len() as int) =~= diagnostics@);
}

/// The quick fixes to offer for the diagnostics of a code action request: every
/// custom property fix, then every selector fix, each in the order of the
/// diagnostics; none where no diagnostic carries a fix.
pub fn plan_code_actions(diagnostics: &[DiagnosticFixes]) -> (res: Option<Vec<QuickFixPlan>>)
    ensures
        match res {
            Some(plans) => plans@.len() > 0 && plans@.map_values(|q: QuickFixPlan| plan_view(q))
                == quick_fixes(diagnostics@),
            None => quick_fixes(diagnostics@).len() == 0,
        },
{
    let mut plans: Vec<QuickFixPlan> = Vec::new();
    assert(plans@.map_values(|q: QuickFixPlan| plan_view(q)) =~= Seq::<QuickFixView>::empty());
    push_fixes_of(diagnostics, QuickFixKind::CreateCustomProperty, &mut plans);
    push_fixes_of(diagnostics, QuickFixKind::CreateSelector, &mut plans);
    proof {
        assert(Seq::<QuickFixView>::empty() + fixes_of(diagnostics@, QuickFixKind::CreateCustomProperty)
            =~= fixes_of(diagnostics@, QuickFixKind::CreateCustomProperty));
    }
    if plans.len() == 0 {
        None
    } else {
        Some(plans)
    }
}

} // verus!
