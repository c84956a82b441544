//! Global shortcut accelerators as the settings page records them:
//! modifiers, then a W3C key code, joined by `+`, e.g. `Cmd+Shift+KeyC`.
use vstd::prelude::*;
use vstd::string::*;
use global_hotkey::hotkey::{Code, HotKey, Modifiers};
use crate::text::str_eq;

verus! {

#[verifier::external_type_specification]
#[verifier::external_body]
pub struct ExCode(Code);

#[verifier::external_type_specification]
#[verifier::external_body]
pub struct ExModifiers(Modifiers);

#[verifier::external_type_specification]
#[verifier::external_body]
pub struct ExHotKey(HotKey);

/// The key code that `keyboard_types` reads from a W3C code name, if any.
pub uninterp spec fn key_code_of(name: Seq<char>) -> Option<Code>;

/// The modifier set whose flag bits are `bits`.
pub uninterp spec fn modifiers_of_bits(bits: u32) -> Modifiers;

/// The `keyboard_types` flag of one modifier key.
pub uninterp spec fn modifier_flag_of(key: ModifierKey) -> Modifiers;

/// The union of two `keyboard_types` modifier sets.
pub uninterp spec fn modifiers_union_of(a: Modifiers, b: Modifiers) -> Modifiers;

/// The hotkey `global_hotkey` builds from a modifier set and a key.
pub uninterp spec fn hotkey_of(mods: Modifiers, key: Code) -> HotKey;

/// `Code::from_str` of `keyboard_types`: the key code named by a W3C code
/// name such as `KeyC` or `F12`. Claimed: the result depends on the name
/// alone.
#[verifier::external_body]
fn key_code(name: &str) -> (r: Option<Code>)
    ensures
        r == key_code_of(name@),
{
    <Code as std::str::FromStr>::from_str(name).ok()
}

/// `Modifiers::from_bits_retain` of `keyboard_types`: the modifier set
/// with exactly the given flag bits. Claimed: the result depends on the
/// bits alone.
#[verifier::external_body]
fn modifiers_from_bits(bits: u32) -> (m: Modifiers)
    ensures
        m == modifiers_of_bits(bits),
{
    Modifiers::from_bits_retain(bits)
}

/// The `keyboard_types` constant of a modifier key: `Modifiers::META`,
/// `CONTROL`, `ALT` or `SHIFT`. Claimed: it depends on the key alone.
#[verifier::external_body]
fn modifier_flag(key: ModifierKey) -> (m: Modifiers)
    ensures
        m == modifier_flag_of(key),
{
    match key {
        ModifierKey::Meta => Modifiers::META,
        ModifierKey::Control => Modifiers::CONTROL,
        ModifierKey::Alt => Modifiers::ALT,
        ModifierKey::Shift => Modifiers::SHIFT,
    }
}

/// `BitOr` of `keyboard_types` modifier sets. Claimed: the union depends
/// on the two sets alone.
#[verifier::external_body]
fn modifiers_union(a: Modifiers, b: Modifiers) -> (m: Modifiers)
    ensures
        m == modifiers_union_of(a, b),
{
    a | b
}

/// `HotKey::new` of `global_hotkey` with the given modifiers. Claimed: the
/// hotkey depends on the modifiers and the key alone.
#[verifier::external_body]
fn new_hotkey(mods: Modifiers, key: Code) -> (hk: HotKey)
    ensures
        hk == hotkey_of(mods, key),
{
    HotKey::new(Some(mods), key)
}

/// The modifier keys named in an accelerator.
#[derive(Clone, Copy, PartialEq, Eq, Structural, Debug)]
pub struct ModifierSet {
    pub meta: bool,
    pub control: bool,
    pub alt: bool,
    pub shift: bool,
}

/// One of the modifier keys an accelerator can name.
#[derive(Clone, Copy, PartialEq, Eq, Structural, Debug)]
pub enum ModifierKey {
    Meta,
    Control,
    Alt,
    Shift,
}

impl ModifierSet {
    pub open spec fn none() -> ModifierSet {
        ModifierSet { meta: false, control: false, alt: false, shift: false }
    }

    pub open spec fn is_none(self) -> bool {
        !self.meta && !self.control && !self.alt && !self.shift
    }

    /// The set with the modifier named `name` added, or `None` when the
    /// name is not one of `Cmd`, `Ctrl`, `Alt`, `Shift`.
    pub open spec fn with_name(self, name: Seq<char>) -> Option<ModifierSet> {
        if name == "Cmd"@ {
            Some(ModifierSet { meta: true, ..self })
        } else if name == "Ctrl"@ {
            Some(ModifierSet { control: true, ..self })
        } else if name == "Alt"@ {
            Some(ModifierSet { alt: true, ..self })
        } else if name == "Shift"@ {
            Some(ModifierSet { shift: true, ..self })
        } else {
            None
        }
    }

    /// The `keyboard_types` modifier set with this set's modifiers: no
    /// flags, then the flag of each modifier in the set added in turn.
    pub open spec fn spec_modifiers(self) -> Modifiers {
        let m0 = modifiers_of_bits(0);
        let m1 = if self.meta { modifiers_union_of(m0, modifier_flag_of(ModifierKey::Meta)) } else { m0 };
        let m2 = if self.control { modifiers_union_of(m1, modifier_flag_of(ModifierKey::Control)) } else { m1 };
        let m3 = if self.alt { modifiers_union_of(m2, modifier_flag_of(ModifierKey::Alt)) } else { m2 };
        if self.shift { modifiers_union_of(m3, modifier_flag_of(ModifierKey::Shift)) } else { m3 }
    }

    /// The `keyboard_types` modifier set with this set's modifiers.
    pub fn to_modifiers(&self) -> (m: Modifiers)
        ensures
            m == self.spec_modifiers(),
    {
        let mut m = modifiers_from_bits(0);
        if self.meta {
            m = modifiers_union(m, modifier_flag(ModifierKey::Meta));
        }
        if self.control {
            m = modifiers_union(m, modifier_flag(ModifierKey::Control));
        }
        if self.alt {
            m = modifiers_union(m, modifier_flag(ModifierKey::Alt));
        }
        if self.shift {
            m = modifiers_union(m, modifier_flag(ModifierKey::Shift));
        }
        m
    }
}

/// The `+`-separated tokens of `s`, always at least one.
pub open spec fn split_plus(s: Seq<char>) -> Seq<Seq<char>>
    decreases s.len(),
{
    if s.len() == 0 {
        seq![Seq::<char>::empty()]
    } else {
        let t = split_plus(s.drop_last());
        if s.last() == '+' {
            t.push(Seq::<char>::empty())
        } else {
            t.update(t.len() - 1, t.last().push(s.last()))
        }
    }
}

pub proof fn lemma_split_plus_nonempty(s: Seq<char>)
    ensures
        split_plus(s).len() >= 1,
    decreases s.len(),
{
    if s.len() > 0 {
        lemma_split_plus_nonempty(s.drop_last());
    }
}

/// Reads modifier names left to right: the set they name, or the first
/// name that is not a modifier.
pub open spec fn read_modifiers(names: Seq<Seq<char>>) -> Result<ModifierSet, Seq<char>>
    decreases names.len(),
{
    if names.len() == 0 {
        Ok(ModifierSet::none())
    } else {
        match read_modifiers(names.drop_last()) {
            Err(bad) => Err(bad),
            Ok(set) => match set.with_name(names.last()) {
                Some(next) => Ok(next),
                None => Err(names.last()),
            },
        }
    }
}

proof fn lemma_read_modifiers_stops(names: Seq<Seq<char>>, m: int)
    requires
        0 <= m <= names.len(),
        read_modifiers(names.take(m)) is Err,
    ensures
        read_modifiers(names) == read_modifiers(names.take(m)),
    decreases names.len() - m,
{
    if m < names.len() {
        assert(names.take(m + 1).drop_last() =~= names.take(m));
        lemma_read_modifiers_stops(names, m + 1);
    } else {
        assert(names.take(m) =~= names);
    }
}

/// What the modifier part of an accelerator gives: the modifier set and
/// the key name, or the error message.
pub open spec fn accel_parts(accel: Seq<char>) -> Result<(ModifierSet, Seq<char>), Seq<char>> {
    let tokens = split_plus(accel);
    match read_modifiers(tokens.drop_last()) {
        Err(bad) => Err("unknown modifier: "@ + bad),
        Ok(set) => if set.is_none() {
            Err("shortcut needs at least one modifier"@)
        } else {
            Ok((set, tokens.last()))
        },
    }
}

/// The outcome of parsing an accelerator, given what `keyboard_types`
/// reads from its key name.
pub open spec fn accel_outcome(accel: Seq<char>) -> Result<HotKey, Seq<char>> {
    match accel_parts(accel) {
        Err(msg) => Err(msg),
        Ok((set, key)) => match key_code_of(key) {
            None => Err("unknown key: "@ + key),
            Some(code) => Ok(hotkey_of(set.spec_modifiers(), code)),
        },
    }
}

/// A shortcut always has at least one modifier, and its key is what
/// follows the last `+`.
pub proof fn lemma_accel_needs_modifier(accel: Seq<char>)
    ensures
        accel_outcome(accel) is Ok ==> (accel_parts(accel) matches Ok((set, key)) && !set.is_none() && key
            == split_plus(accel).last()),
{
}

/// `s` holds no `+`.
pub open spec fn no_plus(s: Seq<char>) -> bool {
    forall|i: int| 0 <= i < s.len() ==> s[i] != '+'
}

/// One of the four modifier names an accelerator may use.
pub open spec fn is_modifier_name(m: Seq<char>) -> bool {
    m == "Cmd"@ || m == "Ctrl"@ || m == "Alt"@ || m == "Shift"@
}

/// The modifier part of an accelerator: each name followed by `+`, i.e.
/// `names.join("+") + "+"` for a non-empty list.
pub open spec fn modifier_prefix(names: Seq<Seq<char>>) -> Seq<char>
    decreases names.len(),
{
    if names.len() == 0 {
        Seq::empty()
    } else {
        modifier_prefix(names.drop_last()) + names.last() + seq!['+']
    }
}

/// The modifiers a list of names turns on: a modifier is set when its name
/// occurs anywhere in the list.
pub open spec fn modifiers_named(names: Seq<Seq<char>>) -> ModifierSet {
    ModifierSet {
        meta: names.contains("Cmd"@),
        control: names.contains("Ctrl"@),
        alt: names.contains("Alt"@),
        shift: names.contains("Shift"@),
    }
}

/// `tokens` with `extra` appended to its last token.
pub open spec fn extend_last(tokens: Seq<Seq<char>>, extra: Seq<char>) -> Seq<Seq<char>> {
    tokens.update(tokens.len() - 1, tokens.last() + extra)
}

proof fn lemma_split_plus_append(s: Seq<char>, t: Seq<char>)
    requires
        no_plus(t),
    ensures
        split_plus(s + t) == extend_last(split_plus(s), t),
    decreases t.len(),
{
    lemma_split_plus_nonempty(s);
    if t.len() == 0 {
        assert(s + t =~= s);
        let p = split_plus(s);
        assert(p.last() + t =~= p.last());
        assert(extend_last(p, t) =~= p);
    } else {
        let t0 = t.drop_last();
        assert(no_plus(t0));
        lemma_split_plus_append(s, t0);
        assert((s + t).drop_last() =~= s + t0);
        assert((s + t).last() == t.last());
        let p = split_plus(s);
        let u = extend_last(p, t0);
        assert(s + t0 + seq![t.last()] =~= s + t);
        assert(u.len() == p.len());
        assert(u.last() == p.last() + t0);
        assert(u.last().push(t.last()) =~= p.last() + t);
        assert(u.update(u.len() - 1, u.last().push(t.last())) =~= extend_last(p, t));
    }
}

proof fn lemma_split_plus_sep(s: Seq<char>)
    ensures
        split_plus(s + seq!['+']) == split_plus(s).push(Seq::<char>::empty()),
{
    assert((s + seq!['+']).drop_last() =~= s);
}

/// An accelerator made of `+`-free names and key splits into those names
/// then the key.
pub proof fn lemma_split_modifier_prefix(names: Seq<Seq<char>>, key: Seq<char>)
    requires
        forall|i: int| 0 <= i < names.len() ==> no_plus(#[trigger] names[i]),
        no_plus(key),
    ensures
        split_plus(modifier_prefix(names) + key) == names.push(key),
    decreases names.len(),
{
    if names.len() == 0 {
        lemma_split_plus_append(Seq::empty(), key);
        assert(modifier_prefix(names) + key =~= Seq::<char>::empty() + key);
        assert(extend_last(seq![Seq::<char>::empty()], key) =~= names.push(key));
    } else {
        let front = names.drop_last();
        let m = names.last();
        assert(no_plus(names[names.len() - 1]));
        assert forall|i: int| 0 <= i < front.len() implies no_plus(#[trigger] front[i]) by {
            assert(front[i] == names[i]);
        }
        lemma_split_modifier_prefix(front, m);
        let p = modifier_prefix(front);
        lemma_split_plus_sep(p + m);
        lemma_split_plus_append(p + m + seq!['+'], key);
        assert(modifier_prefix(names) + key =~= (p + m + seq!['+']) + key);
        let q = front.push(m).push(Seq::<char>::empty());
        assert(Seq::<char>::empty() + key =~= key);
        assert(extend_last(q, key) =~= names.push(key));
        assert(front.push(m) =~= names);
    }
}

/// Reading a list of modifier names turns on exactly the modifiers named.
pub proof fn lemma_read_modifier_names(names: Seq<Seq<char>>)
    requires
        forall|i: int| 0 <= i < names.len() ==> is_modifier_name(#[trigger] names[i]),
    ensures
        read_modifiers(names) == Ok::<ModifierSet, Seq<char>>(modifiers_named(names)),
    decreases names.len(),
{
    if names.len() > 0 {
        let front = names.drop_last();
        assert forall|i: int| 0 <= i < front.len() implies is_modifier_name(#[trigger] front[i]) by {
            assert(front[i] == names[i]);
        }
        lemma_read_modifier_names(front);
        reveal_strlit("Cmd");
        reveal_strlit("Ctrl");
        reveal_strlit("Alt");
        reveal_strlit("Shift");
        assert("Cmd"@.len() == 3 && "Ctrl"@.len() == 4 && "Alt"@.len() == 3 && "Shift"@.len() == 5);
        assert("Cmd"@[0] != "Alt"@[0]);
        assert("Cmd"@ != "Ctrl"@ && "Cmd"@ != "Alt"@ && "Cmd"@ != "Shift"@);
        assert("Ctrl"@ != "Alt"@ && "Ctrl"@ != "Shift"@ && "Alt"@ != "Shift"@);
        assert(is_modifier_name(names[names.len() - 1]));
        assert(names =~= front.push(names.last()));
        assert forall|x: Seq<char>| names.contains(x) <==> (front.contains(x) || x == names.last()) by {
            if names.contains(x) {
                let i = choose|i: int| 0 <= i < names.len() && names[i] == x;
                if i < front.len() {
                    assert(front[i] == x);
                }
            }
            if front.contains(x) {
                let i = choose|i: int| 0 <= i < front.len() && front[i] == x;
                assert(names[i] == x);
            }
            if x == names.last() {
                assert(names[names.len() - 1] == x);
            }
        }
    }
}

proof fn lemma_modifier_names_have_no_plus(m: Seq<char>)
    requires
        is_modifier_name(m),
    ensures
        no_plus(m),
{
    reveal_strlit("Cmd");
    reveal_strlit("Ctrl");
    reveal_strlit("Alt");
    reveal_strlit("Shift");
}

/// An accelerator of modifier names, then `+`, then a `+`-free key, gives
/// the hotkey of the modifiers named and that key, whatever their order
/// and however often a name repeats.
pub proof fn lemma_accel_of_modifier_names(names: Seq<Seq<char>>, key: Seq<char>)
    requires
        names.len() > 0,
        forall|i: int| 0 <= i < names.len() ==> is_modifier_name(#[trigger] names[i]),
        no_plus(key),
    ensures
        accel_outcome(modifier_prefix(names) + key) == match key_code_of(key) {
            None => Err("unknown key: "@ + key),
            Some(code) => Ok(hotkey_of(modifiers_named(names).spec_modifiers(), code)),
        },
{
    assert forall|i: int| 0 <= i < names.len() implies no_plus(#[trigger] names[i]) by {
        lemma_modifier_names_have_no_plus(names[i]);
    }
    lemma_split_modifier_prefix(names, key);
    let toks = split_plus(modifier_prefix(names) + key);
    assert(toks.drop_last() =~= names);
    lemma_read_modifier_names(names);
    assert(is_modifier_name(names[0]));
    assert(names.contains(names[0]));
}

/// Splitting an accelerator whose front is `+`-free names each followed by
/// `+` gives those names, then the tokens of the rest.
pub proof fn lemma_split_after_prefix(names: Seq<Seq<char>>, rest: Seq<char>)
    requires
        forall|i: int| 0 <= i < names.len() ==> no_plus(#[trigger] names[i]),
    ensures
        split_plus(modifier_prefix(names) + rest) == names + split_plus(rest),
    decreases rest.len(),
{
    let p = modifier_prefix(names);
    if rest.len() == 0 {
        assert(p + rest =~= p);
        if names.len() == 0 {
            assert(names + split_plus(rest) =~= seq![Seq::<char>::empty()]);
        } else {
            let front = names.drop_last();
            assert forall|i: int| 0 <= i < front.len() implies no_plus(#[trigger] front[i]) by {
                assert(front[i] == names[i]);
            }
            assert(no_plus(names[names.len() - 1]));
            lemma_split_modifier_prefix(front, names.last());
            lemma_split_plus_sep(modifier_prefix(front) + names.last());
            assert(front.push(names.last()) =~= names);
            assert(names + split_plus(rest) =~= names.push(Seq::<char>::empty()));
        }
    } else {
        let r0 = rest.drop_last();
        let c = rest.last();
        lemma_split_after_prefix(names, r0);
        lemma_split_plus_nonempty(r0);
        assert((p + rest).drop_last() =~= p + r0);
        assert((p + rest).last() == c);
        let t = split_plus(r0);
        if c == '+' {
            assert((names + t).push(Seq::<char>::empty()) =~= names + t.push(Seq::<char>::empty()));
        } else {
            let u = names + t;
            assert(u.update(u.len() - 1, u.last().push(c)) =~= names + t.update(t.len() - 1, t.last().push(c)));
        }
    }
}

/// Continues reading modifier names from the set `start`.
pub open spec fn read_modifiers_from(start: ModifierSet, names: Seq<Seq<char>>) -> Result<ModifierSet, Seq<char>>
    decreases names.len(),
{
    if names.len() == 0 {
        Ok(start)
    } else {
        match read_modifiers_from(start, names.drop_last()) {
            Err(bad) => Err(bad),
            Ok(set) => match set.with_name(names.last()) {
                Some(next) => Ok(next),
                None => Err(names.last()),
            },
        }
    }
}

/// Reading `first` then `rest` is reading `rest` on from what `first` gave.
pub proof fn lemma_read_modifiers_concat(first: Seq<Seq<char>>, rest: Seq<Seq<char>>)
    ensures
        read_modifiers(first + rest) == match read_modifiers(first) {
            Err(bad) => Err(bad),
            Ok(set) => read_modifiers_from(set, rest),
        },
    decreases rest.len(),
{
    if rest.len() == 0 {
        assert(first + rest =~= first);
    } else {
        lemma_read_modifiers_concat(first, rest.drop_last());
        assert((first + rest).drop_last() =~= first + rest.drop_last());
        assert((first + rest).last() == rest.last());
    }
}

/// Reordering or repeating the modifier names at the front of an
/// accelerator does not change the hotkey it parses to, or the error:
/// only which modifiers are named counts. The rest may be anything,
/// `+` included.
pub proof fn lemma_accel_modifier_order_irrelevant(names1: Seq<Seq<char>>, names2: Seq<Seq<char>>, rest: Seq<char>)
    requires
        forall|i: int| 0 <= i < names1.len() ==> is_modifier_name(#[trigger] names1[i]),
        forall|i: int| 0 <= i < names2.len() ==> is_modifier_name(#[trigger] names2[i]),
        forall|m: Seq<char>| names1.contains(m) <==> names2.contains(m),
    ensures
        accel_outcome(modifier_prefix(names1) + rest) == accel_outcome(modifier_prefix(names2) + rest),
{
    assert forall|i: int| 0 <= i < names1.len() implies no_plus(#[trigger] names1[i]) by {
        lemma_modifier_names_have_no_plus(names1[i]);
    }
    assert forall|i: int| 0 <= i < names2.len() implies no_plus(#[trigger] names2[i]) by {
        lemma_modifier_names_have_no_plus(names2[i]);
    }
    lemma_split_after_prefix(names1, rest);
    lemma_split_after_prefix(names2, rest);
    lemma_split_plus_nonempty(rest);
    let t = split_plus(rest);
    let rest_names = t.drop_last();
    assert((names1 + t).drop_last() =~= names1 + rest_names);
    assert((names2 + t).drop_last() =~= names2 + rest_names);
    assert((names1 + t).last() == t.last());
    assert((names2 + t).last() == t.last());
    lemma_read_modifier_names(names1);
    lemma_read_modifier_names(names2);
    lemma_read_modifiers_concat(names1, rest_names);
    lemma_read_modifiers_concat(names2, rest_names);
    assert(modifiers_named(names1) == modifiers_named(names2));
}

fn modifier_named(set: ModifierSet, name: &str) -> (r: Option<ModifierSet>)
    ensures
        r == set.with_name(name@),
{
    if str_eq(name, "Cmd") {
        Some(ModifierSet { meta: true, ..set })
    } else if str_eq(name, "Ctrl") {
        Some(ModifierSet { control: true, ..set })
    } else if str_eq(name, "Alt") {
        Some(ModifierSet { alt: true, ..set })
    } else if str_eq(name, "Shift") {
        Some(ModifierSet { shift: true, ..set })
    } else {
        None
    }
}

fn concat_message(head: &str, tail: &str) -> (m: String)
    ensures
        m@ == head@ + tail@,
{
    let mut m = String::from_str(head);
    m.append(tail);
    m
}

/// Splits an accelerator into its modifier set and key name.
pub fn parse_accel_parts(accel: &str) -> (r: Result<(ModifierSet, &str), String>)
    ensures
        match accel_parts(accel@) {
            Ok((set, key)) => r matches Ok((rs, rk)) && rs == set && rk@ == key,
            Err(msg) => r matches Err(e) && e@ == msg,
        },
{
    let n = accel.unicode_len();
    let mut tokens: Vec<&str> = Vec::new();
    let mut start: usize = 0;
    let mut i: usize = 0;
    proof {
        assert(accel@.subrange(0, 0) =~= Seq::<char>::empty());
        assert(tokens@.map_values(|t: &str| t@).push(accel@.subrange(0, 0)) =~= seq![Seq::<char>::empty()]);
    }
    while i < n
        invariant
            n == accel@.len(),
            start <= i <= n,
            tokens@.map_values(|t: &str| t@).push(accel@.subrange(start as int, i as int)) == split_plus(
                accel@.subrange(0, i as int),
            ),
        decreases n - i,
    {
        let c = accel.get_char(i);
        let ghost before = tokens@.map_values(|t: &str| t@);
        proof {
            assert(accel@.subrange(0, i + 1).drop_last() =~= accel@.subrange(0, i as int));
            assert(accel@.subrange(0, i + 1).last() == c);
        }
        if c == '+' {
            let tok = accel.substring_char(start, i);
            tokens.push(tok);
            start = i + 1;
            proof {
                assert(tokens@.map_values(|t: &str| t@) =~= before.push(tok@));
                assert(accel@.subrange(start as int, i + 1) =~= Seq::<char>::empty());
            }
        } else {
            proof {
                assert(accel@.subrange(start as int, i + 1) =~= accel@.subrange(start as int, i as int).push(c));
                let whole = before.push(accel@.subrange(start as int, i as int));
                assert(whole.update(whole.len() - 1, whole.last().push(c)) =~= before.push(
                    accel@.subrange(start as int, i + 1),
                ));
            }
        }
        i = i + 1;
    }
    assert(accel@.subrange(0, n as int) =~= accel@);
    let key = accel.substring_char(start, n);
    let ghost names = tokens@.map_values(|t: &str| t@);
    assert(split_plus(accel@).drop_last() =~= names);
    let mut set = ModifierSet { meta: false, control: false, alt: false, shift: false };
    let mut k: usize = 0;
    while k < tokens.len()
        invariant
            k <= tokens@.len(),
            names == tokens@.map_values(|t: &str| t@),
            names == split_plus(accel@).drop_last(),
            read_modifiers(names.take(k as int)) == Ok::<ModifierSet, Seq<char>>(set),
        decreases tokens@.len() - k,
    {
        proof {
            assert(names.take(k + 1).drop_last() =~= names.take(k as int));
            assert(names.take(k + 1).last() == tokens@[k as int]@);
        }
        match modifier_named(set, tokens[k]) {
            Some(next) => {
                set = next;
            },
            None => {
                proof {
                    reveal_strlit("unknown modifier: ");
                    assert(read_modifiers(names.take(k + 1)) == Err::<ModifierSet, Seq<char>>(tokens@[k as int]@));
                    lemma_read_modifiers_stops(names, k + 1);
                    assert(read_modifiers(split_plus(accel@).drop_last()) == Err::<ModifierSet, Seq<char>>(tokens@[k as int]@));
                }
                return Err(concat_message("unknown modifier: ", tokens[k]));
            },
        }
        k = k + 1;
    }
    assert(names.take(tokens@.len() as int) =~= names);
    if !set.meta && !set.control && !set.alt && !set.shift {
        let e = String::from_str("shortcut needs at least one modifier");
        proof {
            reveal_strlit("shortcut needs at least one modifier");
        }
        return Err(e);
    }
    Ok((set, key))
}

/// Builds the hotkey for a modifier set and key name, given the key code
/// `keyboard_types` read from that name.
pub fn hotkey_from_parts(set: ModifierSet, key: &str, code: Option<Code>) -> (r: Result<HotKey, String>)
    ensures
        match code {
            None => r matches Err(e) && e@ == "unknown key: "@ + key@,
            Some(c) => r == Ok::<HotKey, String>(hotkey_of(set.spec_modifiers(), c)),
        },
{
    match code {
        None => {
            proof {
                reveal_strlit("unknown key: ");
            }
            Err(concat_message("unknown key: ", key))
        },
        Some(c) => {
            let mods = set.to_modifiers();
            Ok(new_hotkey(mods, c))
        },
    }
}

/// Parses an accelerator such as `Cmd+Shift+KeyC` into a global hotkey.
pub fn parse_accel(accel: &str) -> (r: Result<HotKey, String>)
    ensures
        match accel_outcome(accel@) {
            Ok(hk) => r == Ok::<HotKey, String>(hk),
            Err(msg) => r matches Err(e) && e@ == msg,
        },
{
    let (set, key) = parse_accel_parts(accel)?;
    let code = key_code(key);
    hotkey_from_parts(set, key, code)
}


/// The modifier keys in the order their flags are joined.
pub open spec fn all_modifier_keys() -> Seq<ModifierKey> {
    seq![ModifierKey::Meta, ModifierKey::Control, ModifierKey::Alt, ModifierKey::Shift]
}

/// Whether a modifier set names the key.
pub open spec fn names_key(s: ModifierSet, k: ModifierKey) -> bool {
    match k {
        ModifierKey::Meta => s.meta,
        ModifierKey::Control => s.control,
        ModifierKey::Alt => s.alt,
        ModifierKey::Shift => s.shift,
    }
}

/// The word an accelerator uses for a modifier key.
pub open spec fn key_word(k: ModifierKey) -> Seq<char> {
    match k {
        ModifierKey::Meta => "Cmd"@,
        ModifierKey::Control => "Ctrl"@,
        ModifierKey::Alt => "Alt"@,
        ModifierKey::Shift => "Shift"@,
    }
}

/// The keys of `ks` that `s` names, in the order of `ks`.
pub open spec fn keys_among(s: ModifierSet, ks: Seq<ModifierKey>) -> Seq<ModifierKey>
    decreases ks.len(),
{
    if ks.len() == 0 {
        Seq::empty()
    } else if names_key(s, ks.last()) {
        keys_among(s, ks.drop_last()).push(ks.last())
    } else {
        keys_among(s, ks.drop_last())
    }
}

/// `m` with the `keyboard_types` flag of each key of `ks` joined in turn.
pub open spec fn join_flags(m: Modifiers, ks: Seq<ModifierKey>) -> Modifiers
    decreases ks.len(),
{
    if ks.len() == 0 {
        m
    } else {
        modifiers_union_of(join_flags(m, ks.drop_last()), modifier_flag_of(ks.last()))
    }
}

/// The `keyboard_types` set of a modifier set is the empty set joined with
/// the flag of each key the set names and of no other key, each once: the
/// CONTROL flag is there exactly when Ctrl is named, META exactly when Cmd
/// is, ALT exactly when Alt is, SHIFT exactly when Shift is.
pub proof fn lemma_modifier_flags(s: ModifierSet)
    ensures
        s.spec_modifiers() == join_flags(modifiers_of_bits(0), keys_among(s, all_modifier_keys())),
        forall|k: ModifierKey| keys_among(s, all_modifier_keys()).contains(k) <==> names_key(s, k),
        keys_among(s, all_modifier_keys()).no_duplicates(),
{
    let all = all_modifier_keys();
    reveal_with_fuel(keys_among, 5);
    reveal_with_fuel(join_flags, 5);
    assert(all.drop_last() =~= seq![ModifierKey::Meta, ModifierKey::Control, ModifierKey::Alt]);
    assert(all.drop_last().drop_last() =~= seq![ModifierKey::Meta, ModifierKey::Control]);
    assert(all.drop_last().drop_last().drop_last() =~= seq![ModifierKey::Meta]);
    assert(all.drop_last().drop_last().drop_last().drop_last() =~= Seq::<ModifierKey>::empty());
    let k1 = keys_among(s, seq![ModifierKey::Meta]);
    let k2 = keys_among(s, seq![ModifierKey::Meta, ModifierKey::Control]);
    let k3 = keys_among(s, seq![ModifierKey::Meta, ModifierKey::Control, ModifierKey::Alt]);
    let k4 = keys_among(s, all);
    assert(k1 =~= if s.meta { seq![ModifierKey::Meta] } else { Seq::empty() });
    assert(k2 =~= if s.control { k1.push(ModifierKey::Control) } else { k1 });
    assert(k3 =~= if s.alt { k2.push(ModifierKey::Alt) } else { k2 });
    assert(k4 =~= if s.shift { k3.push(ModifierKey::Shift) } else { k3 });
    let m0 = modifiers_of_bits(0);
    assert(join_flags(m0, k1) == if s.meta { modifiers_union_of(m0, modifier_flag_of(ModifierKey::Meta)) } else { m0 }) by {
        if s.meta {
            assert(k1.drop_last() =~= Seq::<ModifierKey>::empty());
        }
    }
    assert(join_flags(m0, k2) == if s.control { modifiers_union_of(join_flags(m0, k1), modifier_flag_of(ModifierKey::Control)) } else { join_flags(m0, k1) }) by {
        if s.control {
            assert(k2.drop_last() =~= k1);
        }
    }
    assert(join_flags(m0, k3) == if s.alt { modifiers_union_of(join_flags(m0, k2), modifier_flag_of(ModifierKey::Alt)) } else { join_flags(m0, k2) }) by {
        if s.alt {
            assert(k3.drop_last() =~= k2);
        }
    }
    assert(join_flags(m0, k4) == if s.shift { modifiers_union_of(join_flags(m0, k3), modifier_flag_of(ModifierKey::Shift)) } else { join_flags(m0, k3) }) by {
        if s.shift {
            assert(k4.drop_last() =~= k3);
        }
    }
    assert forall|k: ModifierKey| k4.contains(k) <==> names_key(s, k) by {
        if names_key(s, k) {
            match k {
                ModifierKey::Meta => assert(k4[0] == k),
                ModifierKey::Control => assert(k4[if s.meta { 1int } else { 0int }] == k),
                ModifierKey::Alt => assert(k4[k2.len() as int] == k),
                ModifierKey::Shift => assert(k4[k3.len() as int] == k),
            }
        }
    }
}

/// An accelerator of modifier words, then `+`, then a `+`-free key,
/// parses to the hotkey whose modifiers are the empty set joined with the
/// flag of exactly the keys whose word occurs in the accelerator, each
/// once: `Ctrl+Shift+KeyP` gives CONTROL and SHIFT and neither META nor ALT.
pub proof fn lemma_accel_flags_of_words(names: Seq<Seq<char>>, key: Seq<char>)
    requires
        names.len() > 0,
        forall|i: int| 0 <= i < names.len() ==> is_modifier_name(#[trigger] names[i]),
        no_plus(key),
    ensures
        ({
            let ks = keys_among(modifiers_named(names), all_modifier_keys());
            &&& forall|k: ModifierKey| ks.contains(k) <==> names.contains(#[trigger] key_word(k))
            &&& ks.no_duplicates()
            &&& accel_outcome(modifier_prefix(names) + key) == match key_code_of(key) {
                None => Err("unknown key: "@ + key),
                Some(code) => Ok(hotkey_of(join_flags(modifiers_of_bits(0), ks), code)),
            }
        }),
{
    let s = modifiers_named(names);
    lemma_accel_of_modifier_names(names, key);
    lemma_modifier_flags(s);
    assert forall|k: ModifierKey| names_key(s, k) <==> names.contains(#[trigger] key_word(k)) by {
        match k {
            ModifierKey::Meta => {},
            ModifierKey::Control => {},
            ModifierKey::Alt => {},
            ModifierKey::Shift => {},
        }
    }
}

} // verus!
