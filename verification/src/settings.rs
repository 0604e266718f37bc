use vstd::prelude::*;

use crate::labels::diagnostic_severity_code;

verus! {

/// Which providers the client has enabled.
#[derive(Debug, Clone, Copy, PartialEq, Eq)]
pub struct LspFeatureSettings {
    pub definition: bool,
    pub hover: bool,
    pub completion: bool,
    pub references: bool,
    pub rename: bool,
}

impl Default for LspFeatureSettings {
    /// Every provider is enabled.
    fn default() -> (res: Self)
        ensures
            res.definition && res.hover && res.completion && res.references && res.rename,
    {
        LspFeatureSettings {
            definition: true,
            hover: true,
            completion: true,
            references: true,
            rename: true,
        }
    }
}

/// The severity that diagnostics are published with.
#[derive(Debug, Clone, Copy, PartialEq, Eq)]
pub struct LspDiagnosticSettings {
    pub severity: u8,
}

impl Default for LspDiagnosticSettings {
    /// Warnings.
    fn default() -> (res: Self)
        ensures
            res.severity == 2,
    {
        LspDiagnosticSettings { severity: 2 }
    }
}

/// The feature switches a configuration change carries; an absent switch leaves
/// the feature as it was.
#[derive(Debug, Clone, Copy, PartialEq, Eq)]
pub struct LspFeatureToggles {
    pub definition: Option<bool>,
    pub hover: Option<bool>,
    pub completion: Option<bool>,
    pub references: Option<bool>,
    pub rename: Option<bool>,
}

/// The switch itself where it is given, else the current setting.
pub open spec fn toggled(current: bool, switch: Option<bool>) -> bool {
    match switch {
        Some(v) => v,
        None => current,
    }
}

/// The feature settings after applying `toggles`.
pub open spec fn features_toggled(f: LspFeatureSettings, toggles: LspFeatureToggles) -> LspFeatureSettings {
    LspFeatureSettings {
        definition: toggled(f.definition, toggles.definition),
        hover: toggled(f.hover, toggles.hover),
        completion: toggled(f.completion, toggles.completion),
        references: toggled(f.references, toggles.references),
        rename: toggled(f.rename, toggles.rename),
    }
}

fn toggle(current: bool, switch: Option<bool>) -> (res: bool)
    ensures
        res == toggled(current, switch),
{
    match switch {
        Some(v) => v,
        None => current,
    }
}

impl LspFeatureSettings {
    /// Applies the switches that `toggles` gives.
    pub fn apply(&mut self, toggles: LspFeatureToggles)
        ensures
            *final(self) == features_toggled(*old(self), toggles),
    {
        self.definition = toggle(self.definition, toggles.definition);
        self.hover = toggle(self.hover, toggles.hover);
        self.completion = toggle(self.completion, toggles.completion);
        self.references = toggle(self.references, toggles.references);
        self.rename = toggle(self.rename, toggles.rename);
    }
}

/// The severity code named by `name`, if it names one (see `diagnostic_severity_code`).
pub open spec fn severity_code_of(name: Seq<char>) -> Option<u8> {
    if name == "error"@ {
        Some(1u8)
    } else if name == "warning"@ {
        Some(2u8)
    } else if name == "information"@ {
        Some(3u8)
    } else if name == "hint"@ {
        Some(4u8)
    } else {
        None
    }
}

impl LspDiagnosticSettings {
    /// Takes the severity named by `severity` where it names one; anything else
    /// leaves the severity as it was.
    pub fn apply(&mut self, severity: Option<&str>)
        ensures
            final(self).severity == match severity {
                Some(name) => match severity_code_of(name@) {
                    Some(code) => code,
                    None => old(self).severity,
                },
                None => old(self).severity,
            },
    {
        if let Some(name) = severity {
            if let Some(code) = diagnostic_severity_code(name) {
                self.severity = code;
            }
        }
    }
}

/// A file change the client reported.
#[derive(Debug, PartialEq, Eq)]
pub struct LspWatchedFileChangeState {
    pub uri: String,
    pub change_type: u64,
}

impl Clone for LspWatchedFileChangeState {
    fn clone(&self) -> (res: Self)
        ensures
            res == *self,
    {
        LspWatchedFileChangeState { uri: self.uri.clone(), change_type: self.change_type }
    }
}

} // verus!
