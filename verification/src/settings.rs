//! The shortcut settings shared by the settings window and the resident
//! daemon, and the rules for changing them.
use vstd::prelude::*;
use vstd::string::*;
use crate::text::{has_prefix, str_eq, str_starts_with};

verus! {

/// Which global shortcut a setting binds.
#[derive(Clone, Copy, PartialEq, Eq, Structural, Debug)]
pub enum ShortcutKind {
    Capture,
    Fullscreen,
    Picker,
}

impl ShortcutKind {
    /// The kind the settings page names `capture`, `fullscreen` or `picker`.
    pub open spec fn spec_named(name: Seq<char>) -> Option<ShortcutKind> {
        if name == "capture"@ {
            Some(ShortcutKind::Capture)
        } else if name == "fullscreen"@ {
            Some(ShortcutKind::Fullscreen)
        } else if name == "picker"@ {
            Some(ShortcutKind::Picker)
        } else {
            None
        }
    }

    pub fn named(name: &str) -> (r: Option<ShortcutKind>)
        ensures
            r == ShortcutKind::spec_named(name@),
    {
        if str_eq(name, "capture") {
            Some(ShortcutKind::Capture)
        } else if str_eq(name, "fullscreen") {
            Some(ShortcutKind::Fullscreen)
        } else if str_eq(name, "picker") {
            Some(ShortcutKind::Picker)
        } else {
            None
        }
    }
}

/// The recorded accelerators; `None` leaves a shortcut unbound.
pub struct Settings {
    pub capture_shortcut: Option<String>,
    pub fullscreen_shortcut: Option<String>,
    pub picker_shortcut: Option<String>,
}

impl Default for Settings {
    fn default() -> (s: Settings)
        ensures
            s.capture_shortcut is None,
            s.fullscreen_shortcut is None,
            s.picker_shortcut is None,
    {
        Settings { capture_shortcut: None, fullscreen_shortcut: None, picker_shortcut: None }
    }
}

impl Settings {
    pub open spec fn spec_shortcut(&self, kind: ShortcutKind) -> Option<String> {
        match kind {
            ShortcutKind::Capture => self.capture_shortcut,
            ShortcutKind::Fullscreen => self.fullscreen_shortcut,
            ShortcutKind::Picker => self.picker_shortcut,
        }
    }

    /// The accelerator bound to a kind of shortcut.
    pub fn shortcut(&self, kind: ShortcutKind) -> (r: Option<String>)
        ensures
            r == self.spec_shortcut(kind),
    {
        match kind {
            ShortcutKind::Capture => self.capture_shortcut.clone(),
            ShortcutKind::Fullscreen => self.fullscreen_shortcut.clone(),
            ShortcutKind::Picker => self.picker_shortcut.clone(),
        }
    }

    /// These settings with one kind of shortcut bound to `accel`.
    pub open spec fn with_shortcut(self, kind: ShortcutKind, accel: Option<String>) -> Settings {
        match kind {
            ShortcutKind::Capture => Settings { capture_shortcut: accel, ..self },
            ShortcutKind::Fullscreen => Settings { fullscreen_shortcut: accel, ..self },
            ShortcutKind::Picker => Settings { picker_shortcut: accel, ..self },
        }
    }

    /// Binds (or with `None` clears) one kind of shortcut.
    pub fn set_shortcut_value(&mut self, kind: ShortcutKind, accel: Option<String>)
        ensures
            *final(self) == old(self).with_shortcut(kind, accel),
    {
        match kind {
            ShortcutKind::Capture => self.capture_shortcut = accel,
            ShortcutKind::Fullscreen => self.fullscreen_shortcut = accel,
            ShortcutKind::Picker => self.picker_shortcut = accel,
        }
    }
}

/// What a shortcut change needs before it may be saved.
#[derive(Clone, Copy, PartialEq, Eq, Structural, Debug)]
pub enum ShortcutChange {
    /// Register the new accelerator once and let it go again, to prove it
    /// is valid and free.
    ProbeFirst,
    /// Save right away: the binding is cleared, or re-recorded unchanged
    /// (the daemon holds it already).
    SaveNow,
}

/// The settings state of the settings window.
pub struct SettingsState {
    pub settings: Settings,
}

/// What changing the shortcut of kind `kind` to `accel` needs, or the
/// error when the kind is unknown.
pub open spec fn change_plan(s: Settings, kind: Seq<char>, accel: Option<Seq<char>>) -> Option<ShortcutChange> {
    match ShortcutKind::spec_named(kind) {
        None => None,
        Some(k) => match accel {
            Some(a) => if s.spec_shortcut(k) matches Some(old) && old@ == a {
                Some(ShortcutChange::SaveNow)
            } else {
                Some(ShortcutChange::ProbeFirst)
            },
            None => Some(ShortcutChange::SaveNow),
        },
    }
}

pub open spec fn opt_view(o: Option<String>) -> Option<Seq<char>> {
    match o {
        Some(s) => Some(s@),
        None => None,
    }
}

impl SettingsState {
    /// Decides whether a shortcut change must be probed before saving.
    pub fn plan_shortcut_change(&self, kind: &str, accel: &Option<String>) -> (r: Result<ShortcutChange, String>)
        ensures
            match change_plan(self.settings, kind@, opt_view(*accel)) {
                Some(step) => r == Ok::<ShortcutChange, String>(step),
                None => r matches Err(e) && e@ == "unknown shortcut kind"@,
            },
    {
        let k = match ShortcutKind::named(kind) {
            Some(k) => k,
            None => {
                let e = String::from_str("unknown shortcut kind");
                proof {
                    reveal_strlit("unknown shortcut kind");
                }
                return Err(e);
            },
        };
        match accel {
            Some(a) => {
                let old = self.settings.shortcut(k);
                match old {
                    Some(o) => {
                        if str_eq(o.as_str(), a.as_str()) {
                            Ok(ShortcutChange::SaveNow)
                        } else {
                            Ok(ShortcutChange::ProbeFirst)
                        }
                    },
                    None => Ok(ShortcutChange::ProbeFirst),
                }
            },
            None => Ok(ShortcutChange::SaveNow),
        }
    }

    /// Records a shortcut change that passed its probe.
    pub fn apply_shortcut_change(&mut self, kind: &str, accel: Option<String>)
        ensures
            match ShortcutKind::spec_named(kind@) {
                Some(k) => final(self).settings == old(self).settings.with_shortcut(k, accel),
                None => final(self).settings == old(self).settings,
            },
    {
        match ShortcutKind::named(kind) {
            Some(k) => self.settings.set_shortcut_value(k, accel),
            None => {},
        }
    }
}

/// Reading a shortcut back gives what was set, and setting one kind
/// leaves the others as they were.
pub proof fn lemma_shortcut_read_after_write(s: Settings, kind: ShortcutKind, accel: Option<String>, other: ShortcutKind)
    ensures
        s.with_shortcut(kind, accel).spec_shortcut(kind) == accel,
        other != kind ==> s.with_shortcut(kind, accel).spec_shortcut(other) == s.spec_shortcut(other),
{
}

/// Once a shortcut is saved, recording the same accelerator again needs
/// no probe.
pub proof fn lemma_rerecord_needs_no_probe(s: Settings, kind: Seq<char>, accel: String)
    requires
        ShortcutKind::spec_named(kind) is Some,
    ensures
        change_plan(
            s.with_shortcut(ShortcutKind::spec_named(kind).unwrap(), Some(accel)),
            kind,
            Some(accel@),
        ) == Some(ShortcutChange::SaveNow),
{
}

/// A new accelerator for a shortcut is always probed before it is saved.
pub proof fn lemma_new_accel_is_probed(s: Settings, kind: Seq<char>, accel: Seq<char>)
    requires
        ShortcutKind::spec_named(kind) matches Some(k) && !(s.spec_shortcut(k) matches Some(old) && old@ == accel),
    ensures
        change_plan(s, kind, Some(accel)) == Some(ShortcutChange::ProbeFirst),
{
}

/// The pages the settings window may open: the project's own site and
/// repository.
pub open spec fn url_allowed(url: Seq<char>) -> bool {
    has_prefix(url, "https://deekahy.github.io/toolshot"@) || has_prefix(url, "https://github.com/DeeKahy/toolshot"@)
}

/// Refuses any URL outside the project's own pages.
pub fn check_url(url: &str) -> (r: Result<(), String>)
    ensures
        url_allowed(url@) ==> r is Ok,
        !url_allowed(url@) ==> (r matches Err(e) && e@ == "refusing to open unexpected url"@),
{
    let allowed = str_starts_with(url, "https://deekahy.github.io/toolshot") || str_starts_with(
        url,
        "https://github.com/DeeKahy/toolshot",
    );
    if !allowed {
        let e = String::from_str("refusing to open unexpected url");
        proof {
            reveal_strlit("refusing to open unexpected url");
        }
        return Err(e);
    }
    Ok(())
}

} // verus!
