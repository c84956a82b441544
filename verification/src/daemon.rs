//! Decisions of the resident tray daemon: which shortcuts it should hold,
//! which are still to be registered, and what a menu click or a hotkey
//! press does to the running sessions.
use vstd::prelude::*;
use global_hotkey::hotkey::HotKey;
use global_hotkey::GlobalHotKeyManager;
use crate::accel::{accel_outcome, parse_accel};
use crate::settings::{opt_view, Settings, ShortcutKind};
use crate::text::str_eq;

verus! {

/// What a session of the UI process is started for.
#[derive(Clone, Copy, PartialEq, Eq, Structural, Debug)]
pub enum Action {
    Capture,
    Fullscreen,
    Picker,
}

impl Action {
    pub open spec fn spec_arg(self) -> Seq<char> {
        match self {
            Action::Capture => "capture"@,
            Action::Fullscreen => "fullscreen"@,
            Action::Picker => "pick"@,
        }
    }

    pub open spec fn spec_settings_key(self) -> Seq<char> {
        match self {
            Action::Capture => "capture_shortcut"@,
            Action::Fullscreen => "fullscreen_shortcut"@,
            Action::Picker => "picker_shortcut"@,
        }
    }

    pub open spec fn kind(self) -> ShortcutKind {
        match self {
            Action::Capture => ShortcutKind::Capture,
            Action::Fullscreen => ShortcutKind::Fullscreen,
            Action::Picker => ShortcutKind::Picker,
        }
    }

    /// The mode argument the UI process is started with.
    pub fn arg(self) -> (r: &'static str)
        ensures
            r@ == self.spec_arg(),
    {
        match self {
            Action::Capture => "capture",
            Action::Fullscreen => "fullscreen",
            Action::Picker => "pick",
        }
    }

    /// The settings file's key for this action's shortcut.
    pub fn settings_key(self) -> (r: &'static str)
        ensures
            r@ == self.spec_settings_key(),
    {
        match self {
            Action::Capture => "capture_shortcut",
            Action::Fullscreen => "fullscreen_shortcut",
            Action::Picker => "picker_shortcut",
        }
    }
}

/// A binding as plain values: the action and its accelerator.
pub open spec fn binding_view(b: (Action, String)) -> (Action, Seq<char>) {
    (b.0, b.1@)
}

pub open spec fn bindings_view(bs: Seq<(Action, String)>) -> Seq<(Action, Seq<char>)> {
    bs.map_values(|b: (Action, String)| binding_view(b))
}

/// The shortcuts the settings ask for, in the order capture, fullscreen,
/// picker, skipping unbound ones.
pub open spec fn desired_of(s: Settings) -> Seq<(Action, Seq<char>)> {
    let c = match s.capture_shortcut {
        Some(a) => seq![(Action::Capture, a@)],
        None => Seq::empty(),
    };
    let f = match s.fullscreen_shortcut {
        Some(a) => seq![(Action::Fullscreen, a@)],
        None => Seq::empty(),
    };
    let p = match s.picker_shortcut {
        Some(a) => seq![(Action::Picker, a@)],
        None => Seq::empty(),
    };
    c + f + p
}

/// The daemon wants exactly the accelerators the settings bind, one per
/// action: the key it reads for an action names that action's setting.
pub proof fn lemma_desired_matches_settings(s: Settings, a: Action, accel: Seq<char>)
    ensures
        desired_of(s).contains((a, accel)) <==> (s.spec_shortcut(a.kind()) matches Some(x) && x@ == accel),
{
    let d = desired_of(s);
    if s.spec_shortcut(a.kind()) matches Some(x) && x@ == accel {
        match a {
            Action::Capture => assert(d[0] == (a, accel)),
            Action::Fullscreen => {
                let k = if s.capture_shortcut is Some { 1int } else { 0int };
                assert(d[k] == (a, accel));
            },
            Action::Picker => {
                let k = (if s.capture_shortcut is Some { 1int } else { 0int }) + (if s.fullscreen_shortcut is Some { 1int } else { 0int });
                assert(d[k] == (a, accel));
            },
        }
    }
}

/// The string stored under `key` at the top level of the JSON text `text`,
/// or `None` when the text is not JSON, has no such key, or holds
/// something other than a string there.
pub uninterp spec fn json_string_field(text: Seq<char>, key: Seq<char>) -> Option<Seq<char>>;

/// `serde_json::from_str::<serde_json::Value>`, then `Value::get` and
/// `Value::as_str`: the top-level string field `key` of a JSON text.
/// Claimed: the result depends on the text and the key alone.
#[verifier::external_body]
fn json_string_at(text: &str, key: &str) -> (r: Option<String>)
    ensures
        opt_view(r) == json_string_field(text@, key@),
{
    match serde_json::from_str::<serde_json::Value>(text) {
        Ok(value) => match value.get(key) {
            Some(field) => match field.as_str() {
                Some(s) => Some(s.to_string()),
                None => None,
            },
            None => None,
        },
        Err(_) => None,
    }
}

/// The daemon's reading of the settings file: for each action, the string
/// under its settings key, if any.
pub fn settings_from_json(text: &str) -> (s: Settings)
    ensures
        opt_view(s.capture_shortcut) == json_string_field(text@, Action::Capture.spec_settings_key()),
        opt_view(s.fullscreen_shortcut) == json_string_field(text@, Action::Fullscreen.spec_settings_key()),
        opt_view(s.picker_shortcut) == json_string_field(text@, Action::Picker.spec_settings_key()),
{
    Settings {
        capture_shortcut: json_string_at(text, Action::Capture.settings_key()),
        fullscreen_shortcut: json_string_at(text, Action::Fullscreen.settings_key()),
        picker_shortcut: json_string_at(text, Action::Picker.settings_key()),
    }
}

/// Some registered hotkey belongs to `action`.
pub open spec fn is_registered(reg: Seq<(u32, Action, HotKey)>, action: Action) -> bool {
    exists|i: int| 0 <= i < reg.len() && #[trigger] reg[i].1 == action
}

/// The wanted bindings whose action holds no registered hotkey yet, in
/// the order wanted.
pub open spec fn missing_of(desired: Seq<(Action, Seq<char>)>, reg: Seq<(u32, Action, HotKey)>) -> Seq<(Action, Seq<char>)>
    decreases desired.len(),
{
    if desired.len() == 0 {
        Seq::empty()
    } else {
        let rest = missing_of(desired.drop_last(), reg);
        if is_registered(reg, desired.last().0) {
            rest
        } else {
            rest.push(desired.last())
        }
    }
}

/// The action of the first registered hotkey with id `id`.
pub open spec fn action_of_id(reg: Seq<(u32, Action, HotKey)>, id: u32) -> Option<Action>
    decreases reg.len(),
{
    if reg.len() == 0 {
        None
    } else if reg[0].0 == id {
        Some(reg[0].1)
    } else {
        action_of_id(reg.drop_first(), id)
    }
}

/// The shortcuts the daemon wants, and those it actually holds. They can
/// differ for a while: a combination the OS has not released yet is
/// retried on every poll tick.
pub struct Bindings {
    pub desired: Vec<(Action, String)>,
    pub registered: Vec<(u32, Action, HotKey)>,
}

fn copy_binding(b: &(Action, String)) -> (r: (Action, String))
    ensures
        r == *b,
{
    (b.0, b.1.clone())
}

/// The shortcuts the settings ask for.
pub fn desired_shortcuts(settings: &Settings) -> (r: Vec<(Action, String)>)
    ensures
        bindings_view(r@) == desired_of(*settings),
{
    let mut r: Vec<(Action, String)> = Vec::new();
    match &settings.capture_shortcut {
        Some(a) => r.push((Action::Capture, a.clone())),
        None => {},
    }
    match &settings.fullscreen_shortcut {
        Some(a) => r.push((Action::Fullscreen, a.clone())),
        None => {},
    }
    match &settings.picker_shortcut {
        Some(a) => r.push((Action::Picker, a.clone())),
        None => {},
    }
    assert(bindings_view(r@) =~= desired_of(*settings));
    r
}

impl Bindings {
    pub fn new() -> (b: Bindings)
        ensures
            b.desired@.len() == 0,
            b.registered@.len() == 0,
    {
        Bindings { desired: Vec::new(), registered: Vec::new() }
    }

    /// Takes up freshly read settings: forgets every registered hotkey,
    /// handing them back for unregistering, and wants what the settings
    /// ask for.
    pub fn reload(&mut self, settings: &Settings) -> (dropped: Vec<HotKey>)
        ensures
            final(self).registered@.len() == 0,
            bindings_view(final(self).desired@) == desired_of(*settings),
            dropped@ == old(self).registered@.map_values(|e: (u32, Action, HotKey)| e.2),
    {
        let mut dropped: Vec<HotKey> = Vec::new();
        let mut i: usize = 0;
        while i < self.registered.len()
            invariant
                i <= self.registered@.len(),
                self.registered@ == old(self).registered@,
                dropped@ == self.registered@.take(i as int).map_values(|e: (u32, Action, HotKey)| e.2),
            decreases self.registered@.len() - i,
        {
            let hk = self.registered[i].2;
            dropped.push(hk);
            proof {
                assert(self.registered@.take(i + 1).map_values(|e: (u32, Action, HotKey)| e.2) =~= self.registered@.take(
                    i as int,
                ).map_values(|e: (u32, Action, HotKey)| e.2).push(hk));
            }
            i = i + 1;
        }
        assert(self.registered@.take(self.registered@.len() as int) =~= self.registered@);
        self.registered = Vec::new();
        self.desired = desired_shortcuts(settings);
        dropped
    }

    fn holds(&self, action: Action) -> (r: bool)
        ensures
            r == is_registered(self.registered@, action),
    {
        let mut i: usize = 0;
        while i < self.registered.len()
            invariant
                i <= self.registered@.len(),
                forall|k: int| 0 <= k < i ==> #[trigger] self.registered@[k].1 != action,
            decreases self.registered@.len() - i,
        {
            if self.registered[i].1 == action {
                return true;
            }
            i = i + 1;
        }
        false
    }

    /// The wanted bindings that still have to be registered.
    pub fn missing(&self) -> (r: Vec<(Action, String)>)
        ensures
            bindings_view(r@) == missing_of(bindings_view(self.desired@), self.registered@),
    {
        let mut r: Vec<(Action, String)> = Vec::new();
        let mut i: usize = 0;
        assert(bindings_view(self.desired@.take(0)) =~= Seq::empty());
        assert(bindings_view(r@) =~= Seq::empty());
        while i < self.desired.len()
            invariant
                i <= self.desired@.len(),
                bindings_view(r@) == missing_of(bindings_view(self.desired@.take(i as int)), self.registered@),
            decreases self.desired@.len() - i,
        {
            proof {
                let d = self.desired@;
                assert(bindings_view(d.take(i + 1)).drop_last() =~= bindings_view(d.take(i as int)));
                assert(bindings_view(d.take(i + 1)).last() == binding_view(d[i as int]));
            }
            if !self.holds(self.desired[i].0) {
                let ghost before = r@;
                r.push(copy_binding(&self.desired[i]));
                proof {
                    assert(bindings_view(r@) =~= bindings_view(before).push(binding_view(self.desired@[i as int])));
                }
            }
            i = i + 1;
        }
        assert(self.desired@.take(self.desired@.len() as int) =~= self.desired@);
        r
    }

    /// Notes a hotkey that the OS accepted for an action.
    pub fn record(&mut self, id: u32, action: Action, hotkey: HotKey)
        ensures
            final(self).desired == old(self).desired,
            final(self).registered@ == old(self).registered@.push((id, action, hotkey)),
    {
        self.registered.push((id, action, hotkey));
    }

    /// The action bound to a pressed hotkey's id.
    pub fn action_for(&self, id: u32) -> (r: Option<Action>)
        ensures
            r == action_of_id(self.registered@, id),
    {
        let mut i: usize = 0;
        assert(self.registered@.skip(0) =~= self.registered@);
        while i < self.registered.len()
            invariant
                i <= self.registered@.len(),
                action_of_id(self.registered@, id) == action_of_id(self.registered@.skip(i as int), id),
            decreases self.registered@.len() - i,
        {
            proof {
                assert(self.registered@.skip(i as int).drop_first() =~= self.registered@.skip(i + 1));
            }
            if self.registered[i].0 == id {
                return Some(self.registered[i].1);
            }
            i = i + 1;
        }
        proof {
            assert(self.registered@.skip(i as int).len() == 0);
        }
        None
    }
}

#[verifier::external_type_specification]
#[verifier::external_body]
pub struct ExGlobalHotKeyManager(GlobalHotKeyManager);

#[verifier::external_type_specification]
#[verifier::external_body]
pub struct ExHotKeyError(global_hotkey::Error);

/// The id `global_hotkey` gives a hotkey.
pub uninterp spec fn hotkey_id_of(hk: HotKey) -> u32;

/// `HotKey::id` of `global_hotkey`: the id stored when the hotkey was
/// built. Claimed: it depends on the hotkey alone.
#[verifier::external_body]
fn hotkey_id(hk: &HotKey) -> (r: u32)
    ensures
        r == hotkey_id_of(*hk),
{
    hk.id()
}

/// `GlobalHotKeyManager::register` of `global_hotkey`: asks the OS for the
/// hotkey. Nothing is claimed of the outcome, which depends on the OS and
/// on what other programs hold.
#[verifier::external_body]
fn register_hotkey(manager: &GlobalHotKeyManager, hk: HotKey) -> Result<(), global_hotkey::Error> {
    manager.register(hk)
}

/// What became of a wanted binding whose action held no hotkey when its
/// turn came.
pub enum AttemptOutcome {
    /// The accelerator does not parse; the parser's message.
    Unparsed(String),
    /// The accelerator parses to this hotkey, which was handed to the OS,
    /// and this is the OS's answer.
    Answered(HotKey, Result<(), global_hotkey::Error>),
}

/// One registration attempt: which wanted binding (its position in the
/// wanted list, its action and accelerator) and what came of it.
pub struct Attempt {
    pub index: usize,
    pub action: Action,
    pub accel: String,
    pub outcome: AttemptOutcome,
}

/// The registrations a run of attempts adds: one for each hotkey the OS
/// accepted, under that hotkey's id, in the order of the attempts.
pub open spec fn recorded(at: Seq<Attempt>) -> Seq<(u32, Action, HotKey)>
    decreases at.len(),
{
    if at.len() == 0 {
        Seq::empty()
    } else {
        let r = recorded(at.drop_last());
        match at.last().outcome {
            AttemptOutcome::Answered(hk, Ok(_)) => r.push((hotkey_id_of(hk), at.last().action, hk)),
            _ => r,
        }
    }
}

/// How many of the attempts (in increasing position) concern wanted
/// bindings before position `j`.
pub open spec fn count_before(at: Seq<Attempt>, j: int) -> nat
    decreases at.len(),
{
    if at.len() == 0 {
        0
    } else if at.last().index < j {
        at.len()
    } else {
        count_before(at.drop_last(), j)
    }
}

/// Attempt `k` concerns a wanted binding whose action held no hotkey after
/// the earlier attempts, and carries what the parser makes of its
/// accelerator: the message, or the hotkey handed to the OS.
pub open spec fn attempt_fits(d: Seq<(Action, Seq<char>)>, base: Seq<(u32, Action, HotKey)>, at: Seq<Attempt>, k: int) -> bool {
    let a = at[k];
    &&& a.index < d.len()
    &&& d[a.index as int] == (a.action, a.accel@)
    &&& !is_registered(base + recorded(at.take(k)), a.action)
    &&& match a.outcome {
        AttemptOutcome::Unparsed(m) => accel_outcome(d[a.index as int].1) == Err::<HotKey, Seq<char>>(m@),
        AttemptOutcome::Answered(hk, _) => accel_outcome(d[a.index as int].1) == Ok::<HotKey, Seq<char>>(hk),
    }
}

/// The attempts are exactly the registration run over the first `upto`
/// wanted bindings, starting from the registrations `base`: in order, one
/// for each binding whose action held no hotkey when its turn came, and
/// none for the others.
pub open spec fn registration_run(d: Seq<(Action, Seq<char>)>, base: Seq<(u32, Action, HotKey)>, at: Seq<Attempt>, upto: int) -> bool {
    &&& forall|p: int, q: int| 0 <= p < q < at.len() ==> #[trigger] at[p].index < #[trigger] at[q].index
    &&& forall|k: int| 0 <= k < at.len() ==> (#[trigger] at[k]).index < upto && attempt_fits(d, base, at, k)
    &&& forall|j: int|
        0 <= j < upto && (forall|k: int| 0 <= k < at.len() ==> (#[trigger] at[k]).index != j) ==> is_registered(
            base + recorded(at.take(count_before(at, j) as int)),
            (#[trigger] d[j]).0,
        )
}

proof fn lemma_count_before_all(at: Seq<Attempt>, j: int)
    requires
        forall|k: int| 0 <= k < at.len() ==> (#[trigger] at[k]).index < j,
    ensures
        count_before(at, j) == at.len(),
{
    if at.len() > 0 {
        assert(at[at.len() - 1] == at.last());
    }
}

proof fn lemma_count_before_le(at: Seq<Attempt>, j: int)
    ensures
        count_before(at, j) <= at.len(),
    decreases at.len(),
{
    if at.len() > 0 {
        lemma_count_before_le(at.drop_last(), j);
    }
}

/// A binding whose action holds a hotkey when its turn comes is passed over.
proof fn lemma_run_skip(d: Seq<(Action, Seq<char>)>, base: Seq<(u32, Action, HotKey)>, at: Seq<Attempt>, i: int)
    requires
        0 <= i < d.len(),
        registration_run(d, base, at, i),
        is_registered(base + recorded(at), d[i].0),
    ensures
        registration_run(d, base, at, i + 1),
{
    lemma_count_before_all(at, i);
    assert(at.take(at.len() as int) =~= at);
}

/// A binding whose action holds no hotkey when its turn comes gets an
/// attempt.
proof fn lemma_run_attempt(d: Seq<(Action, Seq<char>)>, base: Seq<(u32, Action, HotKey)>, at: Seq<Attempt>, a: Attempt, i: int)
    requires
        0 <= i < d.len(),
        registration_run(d, base, at, i),
        a.index == i,
        d[i] == (a.action, a.accel@),
        !is_registered(base + recorded(at), a.action),
        match a.outcome {
            AttemptOutcome::Unparsed(m) => accel_outcome(d[i].1) == Err::<HotKey, Seq<char>>(m@),
            AttemptOutcome::Answered(hk, _) => accel_outcome(d[i].1) == Ok::<HotKey, Seq<char>>(hk),
        },
    ensures
        registration_run(d, base, at.push(a), i + 1),
{
    let at2 = at.push(a);
    assert forall|p: int, q: int| 0 <= p < q < at2.len() implies #[trigger] at2[p].index < #[trigger] at2[q].index by {
        assert(at2[p] == at[p]);
        if q < at.len() {
            assert(at2[q] == at[q]);
        }
    }
    assert forall|k: int| 0 <= k < at2.len() implies (#[trigger] at2[k]).index < i + 1 && attempt_fits(d, base, at2, k) by {
        if k < at.len() {
            assert(at2[k] == at[k]);
            assert(at2.take(k) =~= at.take(k));
            assert(attempt_fits(d, base, at, k));
        } else {
            assert(at2.take(k) =~= at);
        }
    }
    assert forall|j: int|
        0 <= j < i + 1 && (forall|k: int| 0 <= k < at2.len() ==> (#[trigger] at2[k]).index != j) implies is_registered(
        base + recorded(at2.take(count_before(at2, j) as int)),
        (#[trigger] d[j]).0,
    ) by {
        assert(at2[at.len() as int] == a);
        assert(j != i);
        assert(at2.drop_last() =~= at);
        lemma_count_before_le(at, j);
        assert(at2.take(count_before(at2, j) as int) =~= at.take(count_before(at, j) as int));
        assert forall|k: int| 0 <= k < at.len() implies (#[trigger] at[k]).index != j by {
            assert(at2[k] == at[k]);
        }
    }
}

/// Recording a hotkey for an action that held none keeps every action to
/// at most one hotkey.
proof fn lemma_unique_push(r: Seq<(u32, Action, HotKey)>, e: (u32, Action, HotKey))
    requires
        unique_actions(r),
        !is_registered(r, e.1),
    ensures
        unique_actions(r.push(e)),
{
    let r2 = r.push(e);
    assert forall|p: int, q: int| 0 <= p < q < r2.len() implies #[trigger] r2[p].1 != #[trigger] r2[q].1 by {
        assert(r2[p] == r[p]);
        if q < r.len() {
            assert(r2[q] == r[q]);
        }
    }
}

/// The attempt ended without a hotkey: the accelerator did not parse or
/// the OS refused the hotkey.
pub open spec fn attempt_failed(o: AttemptOutcome) -> bool {
    o is Unparsed || o matches AttemptOutcome::Answered(_, Err(_))
}

proof fn lemma_recorded_has_accepted(at: Seq<Attempt>)
    ensures
        forall|k: int|
            0 <= k < at.len() ==> ((#[trigger] at[k]).outcome matches AttemptOutcome::Answered(hk, Ok(_))
                ==> recorded(at).contains((hotkey_id_of(hk), at[k].action, hk))),
    decreases at.len(),
{
    if at.len() > 0 {
        let t = at.drop_last();
        lemma_recorded_has_accepted(t);
        assert forall|k: int|
            0 <= k < at.len() implies ((#[trigger] at[k]).outcome matches AttemptOutcome::Answered(hk, Ok(_))
                ==> recorded(at).contains((hotkey_id_of(hk), at[k].action, hk))) by {
            if k < at.len() - 1 {
                assert(at[k] == t[k]);
                if let AttemptOutcome::Answered(hk, Ok(_)) = at[k].outcome {
                    let e = (hotkey_id_of(hk), at[k].action, hk);
                    assert(recorded(t).contains(e));
                    let m = choose|m: int| 0 <= m < recorded(t).len() && recorded(t)[m] == e;
                    assert(recorded(at)[m] == e);
                }
            } else {
                assert(at[k] == at.last());
                if let AttemptOutcome::Answered(hk, Ok(_)) = at[k].outcome {
                    assert(recorded(at).last() == (hotkey_id_of(hk), at[k].action, hk));
                }
            }
        }
    }
}

proof fn lemma_recorded_prefix(at: Seq<Attempt>, c: int)
    requires
        0 <= c <= at.len(),
    ensures
        recorded(at.take(c)).len() <= recorded(at).len(),
        forall|i: int| 0 <= i < recorded(at.take(c)).len() ==> recorded(at)[i] == #[trigger] recorded(at.take(c))[i],
    decreases at.len(),
{
    if c == at.len() {
        assert(at.take(c) =~= at);
    } else {
        let t = at.drop_last();
        assert(at.take(c) =~= t.take(c));
        lemma_recorded_prefix(t, c);
    }
}

/// After a registration run every wanted action holds a hotkey, unless the
/// run made an attempt for its binding and that attempt failed; and every
/// hotkey the OS accepted in the run is held under its id by the action
/// it was wanted for.
pub proof fn lemma_run_leaves_only_failures(
    d: Seq<(Action, Seq<char>)>,
    base: Seq<(u32, Action, HotKey)>,
    at: Seq<Attempt>,
)
    requires
        registration_run(d, base, at, d.len() as int),
    ensures
        forall|k: int|
            0 <= k < at.len() ==> ((#[trigger] at[k]).outcome matches AttemptOutcome::Answered(hk, Ok(_))
                ==> (base + recorded(at)).contains((hotkey_id_of(hk), at[k].action, hk))),
        forall|j: int|
            0 <= j < d.len() ==> is_registered(base + recorded(at), (#[trigger] d[j]).0) || exists|k: int|
                0 <= k < at.len() && at[k].index == j && attempt_failed(#[trigger] at[k].outcome),
{
    let fin = base + recorded(at);
    lemma_recorded_has_accepted(at);
    assert forall|k: int|
        0 <= k < at.len() implies ((#[trigger] at[k]).outcome matches AttemptOutcome::Answered(hk, Ok(_))
            ==> fin.contains((hotkey_id_of(hk), at[k].action, hk))) by {
        if let AttemptOutcome::Answered(hk, Ok(_)) = at[k].outcome {
            let e = (hotkey_id_of(hk), at[k].action, hk);
            let m = choose|m: int| 0 <= m < recorded(at).len() && recorded(at)[m] == e;
            assert(fin[base.len() + m] == e);
        }
    }
    assert forall|j: int| 0 <= j < d.len() implies is_registered(fin, (#[trigger] d[j]).0) || exists|k: int|
        0 <= k < at.len() && at[k].index == j && attempt_failed(#[trigger] at[k].outcome) by {
        if exists|k: int| 0 <= k < at.len() && (#[trigger] at[k]).index == j {
            let k = choose|k: int| 0 <= k < at.len() && (#[trigger] at[k]).index == j;
            assert(attempt_fits(d, base, at, k));
            if !attempt_failed(at[k].outcome) {
                if let AttemptOutcome::Answered(hk, Ok(_)) = at[k].outcome {
                    let e = (hotkey_id_of(hk), at[k].action, hk);
                    assert(fin.contains(e));
                    let m = choose|m: int| 0 <= m < fin.len() && fin[m] == e;
                    assert(fin[m].1 == d[j].0);
                }
            }
        } else {
            let c = count_before(at, j) as int;
            lemma_count_before_le(at, j);
            lemma_recorded_prefix(at, c);
            let pre = base + recorded(at.take(c));
            assert(is_registered(pre, d[j].0));
            let m = choose|m: int| 0 <= m < pre.len() && #[trigger] pre[m].1 == d[j].0;
            if m < base.len() {
                assert(fin[m] == pre[m]);
            } else {
                assert(recorded(at)[m - base.len()] == recorded(at.take(c))[m - base.len()]);
                assert(fin[m] == pre[m]);
            }
        }
    }
}

/// No action holds two registered hotkeys.
pub open spec fn unique_actions(reg: Seq<(u32, Action, HotKey)>) -> bool {
    forall|p: int, q: int| 0 <= p < q < reg.len() ==> #[trigger] reg[p].1 != #[trigger] reg[q].1
}

impl Bindings {
    /// Goes through the wanted bindings in order and, for each whose action
    /// holds no hotkey yet, parses its accelerator, hands the hotkey to the
    /// OS and records it when the OS accepts. Hands back every attempt with
    /// its outcome.
    pub fn register_missing(&mut self, manager: &GlobalHotKeyManager) -> (attempts: Vec<Attempt>)
        ensures
            final(self).desired == old(self).desired,
            final(self).registered@ == old(self).registered@ + recorded(attempts@),
            registration_run(bindings_view(old(self).desired@), old(self).registered@, attempts@, old(self).desired@.len() as int),
            unique_actions(old(self).registered@) ==> unique_actions(final(self).registered@),
    {
        let ghost base = self.registered@;
        let ghost d = bindings_view(self.desired@);
        let mut attempts: Vec<Attempt> = Vec::new();
        let mut i: usize = 0;
        assert(base + recorded(attempts@) =~= base);
        while i < self.desired.len()
            invariant
                self.desired == old(self).desired,
                d == bindings_view(self.desired@),
                base == old(self).registered@,
                i <= self.desired@.len(),
                self.registered@ == base + recorded(attempts@),
                registration_run(d, base, attempts@, i as int),
                unique_actions(base) ==> unique_actions(self.registered@),
            decreases self.desired@.len() - i,
        {
            let action = self.desired[i].0;
            proof {
                assert(d[i as int] == binding_view(self.desired@[i as int]));
            }
            if self.holds(action) {
                proof {
                    lemma_run_skip(d, base, attempts@, i as int);
                }
            } else {
                let ghost at0 = attempts@;
                let ghost reg0 = self.registered@;
                let accel = self.desired[i].1.clone();
                let outcome = match parse_accel(accel.as_str()) {
                    Ok(hk) => {
                        let answer = register_hotkey(manager, hk);
                        if answer.is_ok() {
                            let id = hotkey_id(&hk);
                            self.record(id, action, hk);
                            proof {
                                if unique_actions(base) {
                                    lemma_unique_push(reg0, (id, action, hk));
                                }
                            }
                        }
                        AttemptOutcome::Answered(hk, answer)
                    },
                    Err(msg) => AttemptOutcome::Unparsed(msg),
                };
                let a = Attempt { index: i, action, accel, outcome };
                proof {
                    lemma_run_attempt(d, base, at0, a, i as int);
                    assert(at0.push(a).drop_last() =~= at0);
                }
                attempts.push(a);
                proof {
                    assert(self.registered@ =~= base + recorded(attempts@));
                }
            }
            i = i + 1;
        }
        attempts
    }
}

/// No binding left to register belongs to an action that holds a hotkey.
pub proof fn lemma_missing_unregistered(desired: Seq<(Action, Seq<char>)>, reg: Seq<(u32, Action, HotKey)>)
    ensures
        forall|i: int|
            0 <= i < missing_of(desired, reg).len() ==> !is_registered(reg, #[trigger] missing_of(desired, reg)[i].0),
        forall|i: int|
            0 <= i < missing_of(desired, reg).len() ==> desired.contains(#[trigger] missing_of(desired, reg)[i]),
    decreases desired.len(),
{
    if desired.len() > 0 {
        lemma_missing_unregistered(desired.drop_last(), reg);
        let rest = missing_of(desired.drop_last(), reg);
        assert forall|i: int| 0 <= i < missing_of(desired, reg).len() implies desired.contains(
            #[trigger] missing_of(desired, reg)[i],
        ) by {
            if i < rest.len() {
                let e = rest[i];
                let j = choose|j: int| 0 <= j < desired.drop_last().len() && desired.drop_last()[j] == e;
                assert(desired[j] == e);
            } else {
                assert(desired[desired.len() - 1] == desired.last());
            }
        }
    }
}

/// With nothing registered, every wanted binding is still to be
/// registered; this is where a reload leaves the daemon.
pub proof fn lemma_reload_all_missing(desired: Seq<(Action, Seq<char>)>, reg: Seq<(u32, Action, HotKey)>)
    requires
        reg.len() == 0,
    ensures
        missing_of(desired, reg) == desired,
    decreases desired.len(),
{
    if desired.len() > 0 {
        lemma_reload_all_missing(desired.drop_last(), reg);
        assert(desired.drop_last().push(desired.last()) =~= desired);
    }
}

/// Once a hotkey is recorded for an action, none of that action's
/// bindings is still to be registered.
pub proof fn lemma_recorded_not_missing(
    desired: Seq<(Action, Seq<char>)>,
    reg: Seq<(u32, Action, HotKey)>,
    id: u32,
    action: Action,
    hotkey: HotKey,
)
    ensures
        forall|i: int|
            0 <= i < missing_of(desired, reg.push((id, action, hotkey))).len() ==> (#[trigger] missing_of(
                desired,
                reg.push((id, action, hotkey)),
            )[i]).0 != action,
{
    let r2 = reg.push((id, action, hotkey));
    assert(r2[reg.len() as int].1 == action);
    assert(is_registered(r2, action));
    lemma_missing_unregistered(desired, r2);
}

/// A pressed hotkey finds the action of the first registration with its id.
pub proof fn lemma_action_of_new_id(reg: Seq<(u32, Action, HotKey)>, id: u32, action: Action, hotkey: HotKey)
    requires
        forall|i: int| 0 <= i < reg.len() ==> #[trigger] reg[i].0 != id,
    ensures
        action_of_id(reg.push((id, action, hotkey)), id) == Some(action),
    decreases reg.len(),
{
    if reg.len() > 0 {
        let r2 = reg.push((id, action, hotkey));
        assert(r2.drop_first() =~= reg.drop_first().push((id, action, hotkey)));
        assert forall|i: int| 0 <= i < reg.drop_first().len() implies #[trigger] reg.drop_first()[i].0 != id by {
            assert(reg.drop_first()[i] == reg[i + 1]);
        }
        lemma_action_of_new_id(reg.drop_first(), id, action, hotkey);
    }
}

/// What the daemon is asked to do.
#[derive(Clone, Copy, PartialEq, Eq, Structural, Debug)]
pub enum DaemonCommand {
    /// Start a capture or colour-pick session, or dismiss the one open.
    Toggle(Action),
    /// Replace any open session with a full-screen capture.
    Fullscreen,
    /// Bring up the settings window unless it is open.
    OpenSettings,
    /// End every session and the daemon.
    Quit,
}

pub open spec fn menu_command_of(id: Seq<char>) -> Option<DaemonCommand> {
    if id == "capture"@ {
        Some(DaemonCommand::Toggle(Action::Capture))
    } else if id == "capture_fullscreen"@ {
        Some(DaemonCommand::Fullscreen)
    } else if id == "color_picker"@ {
        Some(DaemonCommand::Toggle(Action::Picker))
    } else if id == "settings"@ {
        Some(DaemonCommand::OpenSettings)
    } else if id == "quit"@ {
        Some(DaemonCommand::Quit)
    } else {
        None
    }
}

/// The command behind a tray menu item.
pub fn menu_command(id: &str) -> (r: Option<DaemonCommand>)
    ensures
        r == menu_command_of(id@),
{
    if str_eq(id, "capture") {
        Some(DaemonCommand::Toggle(Action::Capture))
    } else if str_eq(id, "capture_fullscreen") {
        Some(DaemonCommand::Fullscreen)
    } else if str_eq(id, "color_picker") {
        Some(DaemonCommand::Toggle(Action::Picker))
    } else if str_eq(id, "settings") {
        Some(DaemonCommand::OpenSettings)
    } else if str_eq(id, "quit") {
        Some(DaemonCommand::Quit)
    } else {
        None
    }
}

pub open spec fn action_command(a: Action) -> DaemonCommand {
    match a {
        Action::Capture => DaemonCommand::Toggle(Action::Capture),
        Action::Fullscreen => DaemonCommand::Fullscreen,
        Action::Picker => DaemonCommand::Toggle(Action::Picker),
    }
}

/// The command behind a hotkey event: only presses count, and only of
/// hotkeys the daemon registered.
pub fn hotkey_command(bindings: &Bindings, id: u32, pressed: bool) -> (r: Option<DaemonCommand>)
    ensures
        r == if !pressed {
            None
        } else {
            match action_of_id(bindings.registered@, id) {
                Some(a) => Some(action_command(a)),
                None => None,
            }
        },
{
    if !pressed {
        return None;
    }
    match bindings.action_for(id) {
        Some(Action::Capture) => Some(DaemonCommand::Toggle(Action::Capture)),
        Some(Action::Fullscreen) => Some(DaemonCommand::Fullscreen),
        Some(Action::Picker) => Some(DaemonCommand::Toggle(Action::Picker)),
        None => None,
    }
}

/// The process work a command comes down to, in order: kill the open
/// session, kill the settings window, start a process, leave the loop.
#[derive(Clone, Copy, PartialEq, Eq, Structural, Debug)]
pub struct DaemonStep {
    pub kill_session: bool,
    pub kill_settings: bool,
    pub spawn: Option<Spawn>,
    pub exit: bool,
}

/// A UI process to start.
#[derive(Clone, Copy, PartialEq, Eq, Structural, Debug)]
pub enum Spawn {
    Session(Action),
    Settings,
}

impl Spawn {
    pub open spec fn spec_arg(self) -> Seq<char> {
        match self {
            Spawn::Session(a) => a.spec_arg(),
            Spawn::Settings => "settings"@,
        }
    }

    /// The mode argument the UI process is started with.
    pub fn arg(self) -> (r: &'static str)
        ensures
            r@ == self.spec_arg(),
    {
        match self {
            Spawn::Session(a) => a.arg(),
            Spawn::Settings => "settings",
        }
    }
}

/// One capture, pick or full-screen session at a time; capture and pick
/// toggle; settings stays separate so it can be open while capturing.
pub open spec fn step_of(cmd: DaemonCommand, session_alive: bool, settings_alive: bool) -> DaemonStep {
    match cmd {
        DaemonCommand::Toggle(a) => if session_alive {
            DaemonStep { kill_session: true, kill_settings: false, spawn: None, exit: false }
        } else {
            DaemonStep { kill_session: false, kill_settings: false, spawn: Some(Spawn::Session(a)), exit: false }
        },
        DaemonCommand::Fullscreen => DaemonStep {
            kill_session: session_alive,
            kill_settings: false,
            spawn: Some(Spawn::Session(Action::Fullscreen)),
            exit: false,
        },
        DaemonCommand::OpenSettings => if settings_alive {
            DaemonStep { kill_session: false, kill_settings: false, spawn: None, exit: false }
        } else {
            DaemonStep { kill_session: false, kill_settings: false, spawn: Some(Spawn::Settings), exit: false }
        },
        DaemonCommand::Quit => DaemonStep { kill_session: true, kill_settings: true, spawn: None, exit: true },
    }
}

/// What a command does, given whether a session and the settings window
/// are running.
pub fn plan_step(cmd: DaemonCommand, session_alive: bool, settings_alive: bool) -> (r: DaemonStep)
    ensures
        r == step_of(cmd, session_alive, settings_alive),
{
    match cmd {
        DaemonCommand::Toggle(a) => if session_alive {
            DaemonStep { kill_session: true, kill_settings: false, spawn: None, exit: false }
        } else {
            DaemonStep { kill_session: false, kill_settings: false, spawn: Some(Spawn::Session(a)), exit: false }
        },
        DaemonCommand::Fullscreen => DaemonStep {
            kill_session: session_alive,
            kill_settings: false,
            spawn: Some(Spawn::Session(Action::Fullscreen)),
            exit: false,
        },
        DaemonCommand::OpenSettings => if settings_alive {
            DaemonStep { kill_session: false, kill_settings: false, spawn: None, exit: false }
        } else {
            DaemonStep { kill_session: false, kill_settings: false, spawn: Some(Spawn::Settings), exit: false }
        },
        DaemonCommand::Quit => DaemonStep { kill_session: true, kill_settings: true, spawn: None, exit: true },
    }
}

/// Triggering capture or pick twice dismisses the session the first
/// trigger started; after a step at most one session runs.
pub proof fn lemma_toggle_twice_dismisses(a: Action)
    ensures
        step_of(DaemonCommand::Toggle(a), false, false).spawn == Some(Spawn::Session(a)),
        step_of(DaemonCommand::Toggle(a), true, false).kill_session,
        step_of(DaemonCommand::Toggle(a), true, false).spawn is None,
{
}

/// A session is only ever started once the previous one is gone or was
/// never running.
pub proof fn lemma_one_session_at_a_time(cmd: DaemonCommand, session_alive: bool, settings_alive: bool)
    ensures
        ({
            let st = step_of(cmd, session_alive, settings_alive);
            st.spawn matches Some(Spawn::Session(_)) && session_alive ==> st.kill_session
        }),
{
}

/// Capture Fullscreen always starts a full-screen session, whatever is
/// running: it ends the open session first if there is one, leaves the
/// settings window alone and keeps the daemon running.
pub proof fn lemma_fullscreen_always_starts(session_alive: bool, settings_alive: bool)
    ensures
        step_of(DaemonCommand::Fullscreen, session_alive, settings_alive).spawn == Some(
            Spawn::Session(Action::Fullscreen),
        ),
        step_of(DaemonCommand::Fullscreen, session_alive, settings_alive).kill_session == session_alive,
        !step_of(DaemonCommand::Fullscreen, session_alive, settings_alive).kill_settings,
        !step_of(DaemonCommand::Fullscreen, session_alive, settings_alive).exit,
{
}

/// Capture and pick toggle: with a session open they only end it, with
/// none open they start their own session; the settings window is never
/// touched and the daemon keeps running.
pub proof fn lemma_toggle_starts_or_ends(a: Action, session_alive: bool, settings_alive: bool)
    ensures
        step_of(DaemonCommand::Toggle(a), session_alive, settings_alive).kill_session == session_alive,
        step_of(DaemonCommand::Toggle(a), session_alive, settings_alive).spawn == if session_alive {
            None
        } else {
            Some(Spawn::Session(a))
        },
        !step_of(DaemonCommand::Toggle(a), session_alive, settings_alive).kill_settings,
        !step_of(DaemonCommand::Toggle(a), session_alive, settings_alive).exit,
{
}

/// Settings opens the settings window exactly when it is not already
/// open, and touches nothing else.
pub proof fn lemma_settings_opens_once(session_alive: bool, settings_alive: bool)
    ensures
        step_of(DaemonCommand::OpenSettings, session_alive, settings_alive).spawn == if settings_alive {
            None
        } else {
            Some(Spawn::Settings)
        },
        !step_of(DaemonCommand::OpenSettings, session_alive, settings_alive).kill_session,
        !step_of(DaemonCommand::OpenSettings, session_alive, settings_alive).kill_settings,
        !step_of(DaemonCommand::OpenSettings, session_alive, settings_alive).exit,
{
}

/// Only Quit leaves the daemon, and it ends the session and the settings
/// window and starts nothing; no other command ends the settings window.
pub proof fn lemma_only_quit_exits(cmd: DaemonCommand, session_alive: bool, settings_alive: bool)
    ensures
        step_of(cmd, session_alive, settings_alive).exit <==> cmd == DaemonCommand::Quit,
        step_of(cmd, session_alive, settings_alive).kill_settings <==> cmd == DaemonCommand::Quit,
        cmd == DaemonCommand::Quit ==> step_of(cmd, session_alive, settings_alive).kill_session
            && step_of(cmd, session_alive, settings_alive).spawn is None,
{
}

/// One entry of the tray menu.
pub enum MenuEntry {
    Item { id: &'static str, label: &'static str, enabled: bool },
    Separator,
}

/// The tray menu, top to bottom: capture, full-screen capture, colour
/// picker, presenting mode (not yet available), settings and quit.
pub open spec fn tray_menu_items() -> Seq<(Seq<char>, Seq<char>, bool)> {
    seq![
        ("capture"@, "Capture"@, true),
        ("capture_fullscreen"@, "Capture Fullscreen"@, true),
        ("color_picker"@, "Color Picker"@, true),
        ("presenting"@, "Presenting Mode"@, false),
        ("settings"@, "Settings"@, true),
        ("quit"@, "Quit Toolshot"@, true),
    ]
}

/// Where the two separators of the tray menu stand.
pub open spec fn is_separator_slot(i: int) -> bool {
    i == 2 || i == 5
}

pub open spec fn entry_view(e: MenuEntry) -> Option<(Seq<char>, Seq<char>, bool)> {
    match e {
        MenuEntry::Item { id, label, enabled } => Some((id@, label@, enabled)),
        MenuEntry::Separator => None,
    }
}

/// The tray menu's entries in order.
pub fn tray_menu() -> (r: Vec<MenuEntry>)
    ensures
        r@.len() == 8,
        forall|i: int| 0 <= i < 8 ==> (is_separator_slot(i) <==> entry_view(#[trigger] r@[i]) is None),
        entry_view(r@[0]) == Some(tray_menu_items()[0]),
        entry_view(r@[1]) == Some(tray_menu_items()[1]),
        entry_view(r@[3]) == Some(tray_menu_items()[2]),
        entry_view(r@[4]) == Some(tray_menu_items()[3]),
        entry_view(r@[6]) == Some(tray_menu_items()[4]),
        entry_view(r@[7]) == Some(tray_menu_items()[5]),
{
    let ghost items = tray_menu_items();
    assert(items[0] == ("capture"@, "Capture"@, true));
    assert(items[1] == ("capture_fullscreen"@, "Capture Fullscreen"@, true));
    assert(items[2] == ("color_picker"@, "Color Picker"@, true));
    assert(items[3] == ("presenting"@, "Presenting Mode"@, false));
    assert(items[4] == ("settings"@, "Settings"@, true));
    assert(items[5] == ("quit"@, "Quit Toolshot"@, true));
    let mut r: Vec<MenuEntry> = Vec::new();
    r.push(MenuEntry::Item { id: "capture", label: "Capture", enabled: true });
    r.push(MenuEntry::Item { id: "capture_fullscreen", label: "Capture Fullscreen", enabled: true });
    r.push(MenuEntry::Separator);
    r.push(MenuEntry::Item { id: "color_picker", label: "Color Picker", enabled: true });
    r.push(MenuEntry::Item { id: "presenting", label: "Presenting Mode", enabled: false });
    r.push(MenuEntry::Separator);
    r.push(MenuEntry::Item { id: "settings", label: "Settings", enabled: true });
    r.push(MenuEntry::Item { id: "quit", label: "Quit Toolshot", enabled: true });
    assert forall|i: int| 0 <= i < 8 implies (is_separator_slot(i) <==> entry_view(#[trigger] r@[i]) is None) by {
        if i == 2 || i == 5 {
            assert(r@[i] is Separator);
        } else {
            assert(r@[i] is Item);
        }
    }
    r
}

/// Every enabled tray menu item leads to a daemon command, and the
/// disabled one to none.
pub proof fn lemma_enabled_items_have_commands()
    ensures
        forall|i: int|
            0 <= i < tray_menu_items().len() ==> (#[trigger] tray_menu_items()[i].2 <==> menu_command_of(
                tray_menu_items()[i].0,
            ) is Some),
{
    reveal_strlit("capture");
    reveal_strlit("capture_fullscreen");
    reveal_strlit("color_picker");
    reveal_strlit("presenting");
    reveal_strlit("settings");
    reveal_strlit("quit");
    assert forall|i: int| 0 <= i < tray_menu_items().len() implies (#[trigger] tray_menu_items()[i].2
        <==> menu_command_of(tray_menu_items()[i].0) is Some) by {
        if i == 3 {
            assert("presenting"@[0] != "capture"@[0]);
            assert("presenting"@[0] != "capture_fullscreen"@[0]);
            assert("presenting"@ != "color_picker"@);
            assert("presenting"@ != "settings"@);
            assert("presenting"@ != "quit"@);
        }
    }
}

} // verus!
