//! Click-to-capture targets: the windows the overlay may offer, topmost
//! first so the overlay can hit test by taking the first match.
use vstd::prelude::*;
use crate::text::{eq_ignore_ascii_case, str_eq, str_eq_ignore_ascii_case};

verus! {

broadcast use vstd::seq_lib::group_to_multiset_ensures;

/// A window the overlay can offer for capture.
pub struct WindowInfo {
    pub id: u32,
    pub app_name: String,
    pub title: String,
    pub x: i32,
    pub y: i32,
    pub width: u32,
    pub height: u32,
    pub z: i32,
}

/// What the system reports of one window, before the overlay's filtering.
pub struct WindowCandidate {
    pub info: WindowInfo,
    pub minimized: bool,
}

/// System surfaces that make no sense as click-to-capture targets.
pub open spec fn is_excluded_app(name: Seq<char>) -> bool {
    ||| name == "Window Server"@
    ||| name == "Dock"@
    ||| name == "Control Center"@
    ||| name == "Control Centre"@
    ||| name == "Notification Center"@
    ||| name == "Notification Centre"@
    ||| name == "Spotlight"@
    ||| name == "Wallpaper"@
    ||| name == "Screenshot"@
}

/// A candidate the overlay offers: visible, not a system surface, not the
/// tool's own windows, and at least 40 pixels in each direction.
pub open spec fn is_listed(c: WindowCandidate) -> bool {
    &&& !c.minimized
    &&& !is_excluded_app(c.info.app_name@)
    &&& !eq_ignore_ascii_case(c.info.app_name@, "toolshot"@)
    &&& c.info.title@ != "toolshot overlay"@
    &&& c.info.width >= 40
    &&& c.info.height >= 40
}

/// The listed candidates' window descriptions, in the order reported.
pub open spec fn listed_windows(cs: Seq<WindowCandidate>) -> Seq<WindowInfo>
    decreases cs.len(),
{
    if cs.len() == 0 {
        Seq::empty()
    } else {
        let rest = listed_windows(cs.drop_last());
        if is_listed(cs.last()) {
            rest.push(cs.last().info)
        } else {
            rest
        }
    }
}

/// The first position in `s` whose window lies strictly below depth `z`.
pub open spec fn first_below(s: Seq<WindowInfo>, z: i32) -> nat
    decreases s.len(),
{
    if s.len() == 0 {
        0
    } else if s[0].z < z {
        0
    } else {
        1 + first_below(s.drop_first(), z)
    }
}

/// `s` with `w` placed after every window at least as high as it.
pub open spec fn insert_by_depth(s: Seq<WindowInfo>, w: WindowInfo) -> Seq<WindowInfo> {
    s.insert(first_below(s, w.z) as int, w)
}

/// `s` ordered topmost first; windows at equal depth keep their order.
pub open spec fn topmost_first(s: Seq<WindowInfo>) -> Seq<WindowInfo>
    decreases s.len(),
{
    if s.len() == 0 {
        s
    } else {
        insert_by_depth(topmost_first(s.drop_last()), s.last())
    }
}

/// No window comes after one that lies below it.
pub open spec fn depth_descending(s: Seq<WindowInfo>) -> bool {
    forall|i: int, j: int| 0 <= i < j < s.len() ==> #[trigger] s[i].z >= #[trigger] s[j].z
}

proof fn lemma_first_below_is(s: Seq<WindowInfo>, z: i32, j: int)
    requires
        0 <= j <= s.len(),
        forall|k: int| 0 <= k < j ==> #[trigger] s[k].z >= z,
        j < s.len() ==> s[j].z < z,
    ensures
        first_below(s, z) == j,
    decreases j,
{
    if j > 0 {
        let t = s.drop_first();
        assert forall|k: int| 0 <= k < j - 1 implies #[trigger] t[k].z >= z by {
            assert(t[k] == s[k + 1]);
        }
        lemma_first_below_is(t, z, j - 1);
    }
}

proof fn lemma_first_below_bounds(s: Seq<WindowInfo>, z: i32)
    ensures
        first_below(s, z) <= s.len(),
        forall|k: int| 0 <= k < first_below(s, z) ==> #[trigger] s[k].z >= z,
        first_below(s, z) < s.len() ==> s[first_below(s, z) as int].z < z,
    decreases s.len(),
{
    if s.len() > 0 && s[0].z >= z {
        let t = s.drop_first();
        lemma_first_below_bounds(t, z);
        assert forall|k: int| 0 <= k < first_below(s, z) implies #[trigger] s[k].z >= z by {
            if k > 0 {
                assert(s[k] == t[k - 1]);
            }
        }
    }
}

/// Ordering topmost first yields windows in descending depth.
pub proof fn lemma_topmost_first_descending(s: Seq<WindowInfo>)
    ensures
        depth_descending(topmost_first(s)),
        topmost_first(s).len() == s.len(),
    decreases s.len(),
{
    if s.len() > 0 {
        let p = topmost_first(s.drop_last());
        lemma_topmost_first_descending(s.drop_last());
        let w = s.last();
        lemma_first_below_bounds(p, w.z);
        let pos = first_below(p, w.z) as int;
        let r = p.insert(pos, w);
        p.insert_ensures(pos, w);
        assert forall|i: int, j: int| 0 <= i < j < r.len() implies #[trigger] r[i].z >= #[trigger] r[j].z by {
            if j < pos {
            } else if j == pos {
                assert(r[i] == p[i]);
            } else if i < pos {
                assert(r[j] == p[j - 1]);
                assert(r[i] == p[i]);
            } else if i == pos {
                assert(r[j] == p[j - 1]);
                assert(p[pos].z < w.z);
                if j - 1 > pos {
                    assert(p[pos].z >= p[j - 1].z);
                }
            } else {
                assert(r[j] == p[j - 1]);
                assert(r[i] == p[i - 1]);
            }
        }
    }
}

/// Ordering topmost first neither drops nor adds a window.
pub proof fn lemma_topmost_first_permutes(s: Seq<WindowInfo>)
    ensures
        topmost_first(s).to_multiset() == s.to_multiset(),
    decreases s.len(),
{
    if s.len() > 0 {
        lemma_topmost_first_permutes(s.drop_last());
        lemma_topmost_first_descending(s.drop_last());
        let p = topmost_first(s.drop_last());
        lemma_first_below_bounds(p, s.last().z);
        vstd::seq_lib::to_multiset_insert(p, first_below(p, s.last().z) as int, s.last());
        assert(s =~= s.drop_last().push(s.last()));
        vstd::seq_lib::to_multiset_build(s.drop_last(), s.last());
    }
}

/// Every offered window comes from a listed candidate.
pub proof fn lemma_listed_windows_come_from_listed(cs: Seq<WindowCandidate>)
    ensures
        forall|i: int|
            0 <= i < listed_windows(cs).len() ==> exists|j: int|
                0 <= j < cs.len() && is_listed(cs[j]) && #[trigger] listed_windows(cs)[i] == cs[j].info,
    decreases cs.len(),
{
    if cs.len() > 0 {
        let t = cs.drop_last();
        lemma_listed_windows_come_from_listed(t);
        assert forall|i: int| 0 <= i < listed_windows(cs).len() implies exists|j: int|
            0 <= j < cs.len() && is_listed(cs[j]) && #[trigger] listed_windows(cs)[i] == cs[j].info by {
            if i < listed_windows(t).len() {
                let j = choose|j: int| 0 <= j < t.len() && is_listed(t[j]) && listed_windows(t)[i] == t[j].info;
                assert(cs[j] == t[j]);
            } else {
                assert(cs[cs.len() - 1] == cs.last());
            }
        }
    }
}

/// Every listed candidate's window is among the listed windows.
proof fn lemma_listed_candidates_kept(cs: Seq<WindowCandidate>, j: int)
    requires
        0 <= j < cs.len(),
        is_listed(cs[j]),
    ensures
        listed_windows(cs).contains(cs[j].info),
    decreases cs.len(),
{
    let t = cs.drop_last();
    if j < cs.len() - 1 {
        assert(cs[j] == t[j]);
        lemma_listed_candidates_kept(t, j);
        let k = choose|k: int| 0 <= k < listed_windows(t).len() && listed_windows(t)[k] == cs[j].info;
        if is_listed(cs.last()) {
            assert(listed_windows(cs)[k] == cs[j].info);
        }
    } else {
        assert(cs.last() == cs[j]);
        assert(listed_windows(cs).last() == cs[j].info);
    }
}

/// Every window offered for capture, in the order offered, is at least 40
/// pixels wide and 40 pixels high, belongs to no system surface and is not
/// the tool's own, and comes from a candidate that is not minimized.
pub proof fn lemma_offered_windows_qualify(cs: Seq<WindowCandidate>)
    ensures
        forall|i: int| 0 <= i < topmost_first(listed_windows(cs)).len() ==> {
            let w = #[trigger] topmost_first(listed_windows(cs))[i];
            &&& w.width >= 40
            &&& w.height >= 40
            &&& !is_excluded_app(w.app_name@)
            &&& !eq_ignore_ascii_case(w.app_name@, "toolshot"@)
            &&& w.title@ != "toolshot overlay"@
            &&& exists|j: int| 0 <= j < cs.len() && cs[j].info == w && !cs[j].minimized
        },
{
    let l = listed_windows(cs);
    let t = topmost_first(l);
    lemma_topmost_first_permutes(l);
    lemma_listed_windows_come_from_listed(cs);
    assert forall|i: int| 0 <= i < t.len() implies {
        let w = #[trigger] t[i];
        &&& w.width >= 40
        &&& w.height >= 40
        &&& !is_excluded_app(w.app_name@)
        &&& !eq_ignore_ascii_case(w.app_name@, "toolshot"@)
        &&& w.title@ != "toolshot overlay"@
        &&& exists|j: int| 0 <= j < cs.len() && cs[j].info == w && !cs[j].minimized
    } by {
        let w = t[i];
        assert(t.contains(w));
        assert(t.to_multiset().count(w) > 0);
        assert(l.contains(w));
        let m = choose|m: int| 0 <= m < l.len() && l[m] == w;
        let j = choose|j: int| 0 <= j < cs.len() && is_listed(cs[j]) && #[trigger] l[m] == cs[j].info;
        assert(cs[j].info == w);
    }
}

/// Every candidate that is not minimized, at least 40 pixels wide and
/// high, not a system surface and not the tool's own is offered.
pub proof fn lemma_qualifying_windows_offered(cs: Seq<WindowCandidate>)
    ensures
        forall|j: int|
            0 <= j < cs.len() && !cs[j].minimized && cs[j].info.width >= 40 && cs[j].info.height >= 40
                && !is_excluded_app(cs[j].info.app_name@) && !eq_ignore_ascii_case(cs[j].info.app_name@, "toolshot"@)
                && cs[j].info.title@ != "toolshot overlay"@ ==> topmost_first(listed_windows(cs)).contains(
                #[trigger] cs[j].info,
            ),
{
    let l = listed_windows(cs);
    let t = topmost_first(l);
    lemma_topmost_first_permutes(l);
    assert forall|j: int|
        0 <= j < cs.len() && !cs[j].minimized && cs[j].info.width >= 40 && cs[j].info.height >= 40
            && !is_excluded_app(cs[j].info.app_name@) && !eq_ignore_ascii_case(cs[j].info.app_name@, "toolshot"@)
            && cs[j].info.title@ != "toolshot overlay"@ implies t.contains(#[trigger] cs[j].info) by {
        lemma_listed_candidates_kept(cs, j);
        assert(l.to_multiset().count(cs[j].info) > 0);
    }
}

fn copy_window(w: &WindowInfo) -> (r: WindowInfo)
    ensures
        r == *w,
{
    WindowInfo {
        id: w.id,
        app_name: w.app_name.clone(),
        title: w.title.clone(),
        x: w.x,
        y: w.y,
        width: w.width,
        height: w.height,
        z: w.z,
    }
}

fn excluded_app(name: &str) -> (r: bool)
    ensures
        r == is_excluded_app(name@),
{
    str_eq(name, "Window Server") || str_eq(name, "Dock") || str_eq(name, "Control Center")
        || str_eq(name, "Control Centre") || str_eq(name, "Notification Center") || str_eq(
        name,
        "Notification Centre",
    ) || str_eq(name, "Spotlight") || str_eq(name, "Wallpaper") || str_eq(name, "Screenshot")
}

/// Whether the overlay offers this candidate.
pub fn listed(c: &WindowCandidate) -> (r: bool)
    ensures
        r == is_listed(*c),
{
    if c.minimized {
        return false;
    }
    if excluded_app(c.info.app_name.as_str()) {
        return false;
    }
    if str_eq_ignore_ascii_case(c.info.app_name.as_str(), "toolshot") || str_eq(
        c.info.title.as_str(),
        "toolshot overlay",
    ) {
        return false;
    }
    c.info.width >= 40 && c.info.height >= 40
}

/// The windows the overlay offers for capture, topmost first.
pub fn select_windows(cands: &Vec<WindowCandidate>) -> (r: Vec<WindowInfo>)
    ensures
        r@ == topmost_first(listed_windows(cands@)),
        depth_descending(r@),
        r@.to_multiset() == listed_windows(cands@).to_multiset(),
{
    let mut kept: Vec<WindowInfo> = Vec::new();
    let mut i: usize = 0;
    while i < cands.len()
        invariant
            i <= cands@.len(),
            kept@ == listed_windows(cands@.take(i as int)),
        decreases cands@.len() - i,
    {
        assert(cands@.take(i + 1).drop_last() =~= cands@.take(i as int));
        assert(cands@.take(i + 1).last() == cands@[i as int]);
        if listed(&cands[i]) {
            kept.push(copy_window(&cands[i].info));
        }
        i = i + 1;
    }
    assert(cands@.take(cands@.len() as int) =~= cands@);
    let mut sorted: Vec<WindowInfo> = Vec::new();
    let mut k: usize = 0;
    while k < kept.len()
        invariant
            k <= kept@.len(),
            sorted@ == topmost_first(kept@.take(k as int)),
        decreases kept@.len() - k,
    {
        let z = kept[k].z;
        let mut j: usize = 0;
        while j < sorted.len() && sorted[j].z >= z
            invariant
                j <= sorted@.len(),
                forall|m: int| 0 <= m < j ==> #[trigger] sorted@[m].z >= z,
            decreases sorted@.len() - j,
        {
            j = j + 1;
        }
        proof {
            lemma_first_below_is(sorted@, z, j as int);
            assert(kept@.take(k + 1).drop_last() =~= kept@.take(k as int));
            assert(kept@.take(k + 1).last() == kept@[k as int]);
        }
        sorted.insert(j, copy_window(&kept[k]));
        k = k + 1;
    }
    assert(kept@.take(kept@.len() as int) =~= kept@);
    proof {
        lemma_topmost_first_descending(kept@);
        lemma_topmost_first_permutes(kept@);
    }
    sorted
}

} // verus!
