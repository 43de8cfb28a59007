//! Mod lists: the file that lists the active mods (`modlist.txt`), and the state of the
//! mod manager, which splits the installed mods into the available ones (in order of
//! installation) and the active ones (in load order).
use vstd::prelude::*;

use super::mod_info::{found_or, last_index_with, path_key, path_keys, ModInfo, ModRef, ModRefView, Mods};
use crate::text::{chars_of, string_of, trim, trim_chars};

verus! {

// ---------------------------------------------------------------------------
// The mod list file
// ---------------------------------------------------------------------------

/// The mod that a line of a mod list designates: none for a comment (a line that
/// starts with `#`), otherwise the installed mod whose archive path is the trimmed
/// line (as paths compare, see `path_key`), or that path as an unknown one.
pub open spec fn line_ref(mods: Seq<ModInfo>, line: Seq<char>) -> Option<ModRefView> {
    if line.len() > 0 && line[0] == '#' {
        None
    } else {
        Some(found_or(path_keys(mods), path_key(trim(line)), ModRefView::UnknownPakPath(trim(line))))
    }
}

/// The mods that the lines of a mod list designate, in order.
pub open spec fn spec_mod_list(mods: Seq<ModInfo>, lines: Seq<Seq<char>>) -> Seq<ModRefView>
    decreases lines.len(),
{
    if lines.len() == 0 {
        seq![]
    } else {
        let prev = spec_mod_list(mods, lines.drop_last());
        match line_ref(mods, lines.last()) {
            Some(r) => prev.push(r),
            None => prev,
        }
    }
}

/// The views of mod references.
pub open spec fn refs_view(v: Seq<ModRef>) -> Seq<ModRefView> {
    v.map_values(|r: ModRef| r.view())
}

/// The views of strings.
pub open spec fn lines_view(v: Seq<String>) -> Seq<Seq<char>> {
    v.map_values(|s: String| s@)
}

/// The mods that the lines of a mod list designate, in order.
pub fn mod_list_from_lines(mods: &Mods, lines: &[String]) -> (r: Vec<ModRef>)
    ensures
        refs_view(r@) == spec_mod_list(mods.view(), lines_view(lines@)),
{
    let mut out: Vec<ModRef> = Vec::new();
    let mut i: usize = 0;
    while i < lines.len()
        invariant
            i <= lines@.len(),
            refs_view(out@) == spec_mod_list(mods.view(), lines_view(lines@.take(i as int))),
        decreases lines.len() - i,
    {
        let ghost before = out@;
        assert(lines_view(lines@.take(i + 1)).drop_last() =~= lines_view(lines@.take(i as int)));
        assert(lines_view(lines@.take(i + 1)).last() == lines@[i as int]@);
        let cs = chars_of(lines[i].as_str());
        if !(cs.len() > 0 && cs[0] == '#') {
            let t = trim_chars(cs.as_slice());
            let ts = string_of(t.as_slice());
            let r = mods.by_pak_path(ts.as_str());
            out.push(r);
            assert(refs_view(out@) =~= refs_view(before).push(r.view()));
        }
        i += 1;
    }
    assert(lines@.take(lines@.len() as int) == lines@);
    out
}

/// The line that a mod list file holds for a mod: the archive path of an installed mod
/// or an unknown archive path; none for an unknown folder.
pub open spec fn ref_line(mods: Seq<ModInfo>, r: ModRefView) -> Option<Seq<char>> {
    match r {
        ModRefView::Installed(i) => Some(mods[i as int].pak_path@),
        ModRefView::UnknownPakPath(p) => Some(p),
        ModRefView::UnknownFolder(_) => None,
    }
}

/// The lines of a mod list file for `refs`, in order.
pub open spec fn spec_mod_list_lines(mods: Seq<ModInfo>, refs: Seq<ModRefView>) -> Seq<Seq<char>>
    decreases refs.len(),
{
    if refs.len() == 0 {
        seq![]
    } else {
        let prev = spec_mod_list_lines(mods, refs.drop_last());
        match ref_line(mods, refs.last()) {
            Some(l) => prev.push(l),
            None => prev,
        }
    }
}

/// Whether every installed mod that `refs` designates exists.
pub open spec fn refs_installed_valid(n: nat, refs: Seq<ModRefView>) -> bool {
    forall|k: int| 0 <= k < refs.len() ==> (#[trigger] refs[k] matches ModRefView::Installed(i) ==> i < n)
}

/// The lines of the mod list file for `mod_list`, in order (each is written followed by
/// a line break).
pub fn mod_list_lines(mods: &Mods, mod_list: &[ModRef]) -> (r: Vec<String>)
    requires
        refs_installed_valid(mods.view().len(), refs_view(mod_list@)),
    ensures
        lines_view(r@) == spec_mod_list_lines(mods.view(), refs_view(mod_list@)),
{
    let mut out: Vec<String> = Vec::new();
    let mut i: usize = 0;
    while i < mod_list.len()
        invariant
            i <= mod_list@.len(),
            refs_installed_valid(mods.view().len(), refs_view(mod_list@)),
            lines_view(out@) == spec_mod_list_lines(mods.view(), refs_view(mod_list@.take(i as int))),
        decreases mod_list.len() - i,
    {
        let ghost before = out@;
        assert(refs_view(mod_list@.take(i + 1)).drop_last() =~= refs_view(mod_list@.take(i as int)));
        assert(refs_view(mod_list@.take(i + 1)).last() == mod_list@[i as int].view());
        assert(refs_view(mod_list@)[i as int] == mod_list@[i as int].view());
        match &mod_list[i] {
            ModRef::Installed(m) => {
                let p = mods.at(*m).pak_path.clone();
                out.push(p);
                assert(lines_view(out@) =~= lines_view(before).push(mods.view()[*m as int].pak_path@));
            },
            ModRef::UnknownPakPath(p) => {
                out.push(p.clone());
                assert(lines_view(out@) =~= lines_view(before).push(p@));
            },
            ModRef::UnknownFolder(_) => {},
        }
        i += 1;
    }
    assert(mod_list@.take(mod_list@.len() as int) == mod_list@);
    out
}

/// Whether the line that a mod list file holds for `r` reads back as `r`: the path
/// neither starts with `#` nor has surrounding white space, and it designates the mod
/// itself (no later installed mod, and for an unknown path no installed mod, has the same
/// path). A mod known only by its folder has no line, so it holds of it too.
pub open spec fn reads_back(mods: Seq<ModInfo>, r: ModRefView) -> bool {
    match r {
        ModRefView::Installed(i) => {
            let p = mods[i as int].pak_path@;
            &&& i < mods.len()
            &&& !(p.len() > 0 && p[0] == '#')
            &&& trim(p) == p
            &&& last_index_with(path_keys(mods), path_key(p), mods.len() as int) == Some(i as int)
        },
        ModRefView::UnknownPakPath(p) => {
            &&& !(p.len() > 0 && p[0] == '#')
            &&& trim(p) == p
            &&& last_index_with(path_keys(mods), path_key(p), mods.len() as int) is None
        },
        ModRefView::UnknownFolder(_) => true,
    }
}

/// The mods of a list that its file holds: all but those known only by their folder.
pub open spec fn listed_refs(refs: Seq<ModRefView>) -> Seq<ModRefView>
    decreases refs.len(),
{
    if refs.len() == 0 {
        seq![]
    } else if refs.last() is UnknownFolder {
        listed_refs(refs.drop_last())
    } else {
        listed_refs(refs.drop_last()).push(refs.last())
    }
}

/// Saving a mod list and loading it back gives the same list, less the mods known only
/// by their folder (which the file cannot hold), for lists whose entries all read back.
pub proof fn lemma_mod_list_round_trip(mods: Seq<ModInfo>, refs: Seq<ModRefView>)
    requires
        forall|k: int| 0 <= k < refs.len() ==> reads_back(mods, #[trigger] refs[k]),
    ensures
        spec_mod_list(mods, spec_mod_list_lines(mods, refs)) == listed_refs(refs),
    decreases refs.len(),
{
    if refs.len() > 0 {
        let prev = refs.drop_last();
        assert forall|k: int| 0 <= k < prev.len() implies reads_back(mods, #[trigger] prev[k]) by {
            assert(prev[k] == refs[k]);
        }
        lemma_mod_list_round_trip(mods, prev);
        let r = refs.last();
        assert(reads_back(mods, refs[refs.len() - 1]));
        let lines = spec_mod_list_lines(mods, refs);
        if !(r is UnknownFolder) {
            let l = ref_line(mods, r).unwrap();
            assert(lines == spec_mod_list_lines(mods, prev).push(l));
            assert(lines.drop_last() == spec_mod_list_lines(mods, prev));
            assert(line_ref(mods, l) == Some(r));
        }
    }
}

// ---------------------------------------------------------------------------
// The mod manager
// ---------------------------------------------------------------------------

/// The row selected in the mod manager: in the list of available mods, or in the list
/// of active mods.
#[derive(Debug, Clone, Copy, PartialEq, Eq, Structural)]
pub enum Selection {
    Available(usize),
    Active(usize),
}

/// Which actions of the mod manager are enabled.
#[derive(Debug, Clone, Copy, PartialEq, Eq, Structural)]
pub struct ModActions {
    pub activate: bool,
    pub deactivate: bool,
    pub move_up: bool,
    pub move_down: bool,
    pub more_info: bool,
}

/// Whether `s` holds the installed mod `i`.
pub open spec fn has_installed(s: Seq<ModRef>, i: usize) -> bool {
    s.contains(ModRef::Installed(i))
}

/// The index of an installed mod's reference.
fn installed_index(r: &ModRef) -> (x: usize)
    ensures
        r is Installed ==> x == idx(*r),
{
    match r {
        ModRef::Installed(i) => *i,
        _ => 0,
    }
}

/// The index that an available entry holds.
pub open spec fn idx(r: ModRef) -> int {
    match r {
        ModRef::Installed(i) => i as int,
        _ => -1,
    }
}

/// The state of the mod manager.
pub struct ModListState {
    installed_count: usize,
    available: Vec<ModRef>,
    active: Vec<ModRef>,
    selection: Option<Selection>,
}

impl ModListState {
    /// The number of installed mods.
    pub closed spec fn count(&self) -> nat {
        self.installed_count as nat
    }

    /// The available mods, in order of installation.
    pub closed spec fn available_view(&self) -> Seq<ModRef> {
        self.available@
    }

    /// The active mods, in load order.
    pub closed spec fn active_view(&self) -> Seq<ModRef> {
        self.active@
    }

    /// The selected row.
    pub closed spec fn selected(&self) -> Option<Selection> {
        self.selection
    }

    /// The available mods are installed mods, in strictly increasing order.
    pub open spec fn wf(&self) -> bool {
        &&& forall|k: int|
            0 <= k < self.available_view().len() ==> (#[trigger] self.available_view()[k] is Installed
                && idx(self.available_view()[k]) < self.count())
        &&& forall|a: int, b: int|
            0 <= a < b < self.available_view().len() ==> idx(#[trigger] self.available_view()[a]) < idx(
                #[trigger] self.available_view()[b],
            )
    }

    /// Whether the selection designates a row.
    pub open spec fn selection_valid(&self) -> bool {
        match self.selected() {
            None => true,
            Some(Selection::Available(i)) => i < self.available_view().len(),
            Some(Selection::Active(i)) => i < self.active_view().len(),
        }
    }

    /// A manager of `installed_count` installed mods, none active and nothing selected.
    pub fn new(installed_count: usize) -> (r: Self)
        ensures
            r.wf(),
            r.count() == installed_count,
            r.available_view() == Seq::<ModRef>::empty(),
            r.active_view() == Seq::<ModRef>::empty(),
            r.selected() is None,
    {
        ModListState { installed_count, available: Vec::new(), active: Vec::new(), selection: None }
    }

    /// The available mods.
    pub fn available(&self) -> (r: &[ModRef])
        ensures
            r@ == self.available_view(),
    {
        self.available.as_slice()
    }

    /// The active mods.
    pub fn active(&self) -> (r: &[ModRef])
        ensures
            r@ == self.active_view(),
    {
        self.active.as_slice()
    }

    /// The selected row.
    pub fn selection(&self) -> (r: Option<Selection>)
        ensures
            r == self.selected(),
    {
        self.selection
    }

    /// The selected row of the available mods.
    pub fn get_selected_available(&self) -> (r: Option<usize>)
        ensures
            r == (match self.selected() {
                Some(Selection::Available(i)) => Some(i),
                _ => None,
            }),
    {
        match self.selection {
            Some(Selection::Available(i)) => Some(i),
            _ => None,
        }
    }

    /// The selected row of the active mods.
    pub fn get_selected_active(&self) -> (r: Option<usize>)
        ensures
            r == (match self.selected() {
                Some(Selection::Active(i)) => Some(i),
                _ => None,
            }),
    {
        match self.selection {
            Some(Selection::Active(i)) => Some(i),
            _ => None,
        }
    }

    /// The mod of the selected row, if a row is selected.
    pub open spec fn selected_ref(&self) -> Option<ModRef> {
        match self.selected() {
            Some(Selection::Available(i)) => Some(self.available_view()[i as int]),
            Some(Selection::Active(i)) => Some(self.active_view()[i as int]),
            None => None,
        }
    }

    /// The index among `n` installed mods of the selected row's mod, if it is one of them.
    pub open spec fn selected_installed(&self, n: nat) -> Option<usize> {
        match self.selected_ref() {
            Some(ModRef::Installed(i)) => if i < n {
                Some(i)
            } else {
                None
            },
            _ => None,
        }
    }

    /// The installed mod of the selected row, if it is one.
    pub fn selected_mod<'m>(&self, mods: &'m Mods) -> (r: Option<&'m ModInfo>)
        requires
            self.selection_valid(),
        ensures
            r matches Some(m) ==> (self.selected_installed(mods.view().len()) matches Some(i)
                && *m == mods.view()[i as int]),
            r is None ==> self.selected_installed(mods.view().len()) is None,
    {
        match self.selection {
            None => None,
            Some(Selection::Available(i)) => mods.get(&self.available[i]),
            Some(Selection::Active(i)) => mods.get(&self.active[i]),
        }
    }

    /// Shows `active_mods` as the active mods, and the installed mods that are not among
    /// them as the available ones.
    pub fn populate(&mut self, active_mods: Vec<ModRef>)
        requires
            forall|k: int|
                0 <= k < active_mods@.len() ==> (#[trigger] active_mods@[k] matches ModRef::Installed(i) ==> i
                    < old(self).count()),
        ensures
            final(self).wf(),
            final(self).count() == old(self).count(),
            final(self).active_view() == active_mods@,
            final(self).selected() == old(self).selected(),
            forall|i: usize|
                i < old(self).count() ==> (#[trigger] has_installed(final(self).available_view(), i)
                    <==> !has_installed(active_mods@, i)),
    {
        let n = self.installed_count;
        let mut available_set: Vec<bool> = Vec::new();
        let mut j: usize = 0;
        while j < n
            invariant
                j <= n,
                available_set@.len() == j,
                forall|k: int| 0 <= k < j ==> available_set@[k],
            decreases n - j,
        {
            available_set.push(true);
            j += 1;
        }
        let mut k: usize = 0;
        while k < active_mods.len()
            invariant
                n == old(self).count(),
                k <= active_mods@.len(),
                available_set@.len() == n,
                forall|q: int|
                    0 <= q < active_mods@.len() ==> (#[trigger] active_mods@[q] matches ModRef::Installed(i) ==> i < n),
                forall|i: int|
                    0 <= i < n ==> (available_set@[i] <==> !active_mods@.take(k as int).contains(
                        ModRef::Installed(i as usize),
                    )),
            decreases active_mods.len() - k,
        {
            let ghost old_set = available_set@;
            match &active_mods[k] {
                ModRef::Installed(m) => {
                    available_set.set(*m, false);
                },
                _ => {},
            }
            let ghost t0 = active_mods@.take(k as int);
            let ghost t1 = active_mods@.take(k + 1);
            assert(t1 == t0.push(active_mods@[k as int]));
            assert forall|i: int| 0 <= i < n implies (available_set@[i] <==> !t1.contains(
                ModRef::Installed(i as usize),
            )) by {
                if active_mods@[k as int] == ModRef::Installed(i as usize) {
                    assert(t1[k as int] == ModRef::Installed(i as usize));
                    assert(!available_set@[i]);
                } else {
                    assert(available_set@[i] == old_set[i]);
                }
                if t0.contains(ModRef::Installed(i as usize)) {
                    let w = choose|w: int| 0 <= w < t0.len() && t0[w] == ModRef::Installed(i as usize);
                    assert(t1[w] == ModRef::Installed(i as usize));
                }
                if t1.contains(ModRef::Installed(i as usize)) {
                    let w = choose|w: int| 0 <= w < t1.len() && t1[w] == ModRef::Installed(i as usize);
                    if w < k {
                        assert(t0[w] == ModRef::Installed(i as usize));
                    }
                }
            }
            k += 1;
        }
        assert(active_mods@.take(active_mods@.len() as int) == active_mods@);
        let mut available: Vec<ModRef> = Vec::new();
        let mut m: usize = 0;
        while m < n
            invariant
                n == old(self).count(),
                m <= n,
                available_set@.len() == n,
                forall|i: int|
                    0 <= i < n ==> (available_set@[i] <==> !active_mods@.contains(ModRef::Installed(i as usize))),
                forall|q: int|
                    0 <= q < available@.len() ==> (#[trigger] available@[q] is Installed && 0 <= idx(available@[q]) < m),
                forall|a: int, b: int|
                    0 <= a < b < available@.len() ==> idx(#[trigger] available@[a]) < idx(#[trigger] available@[b]),
                forall|i: int|
                    0 <= i < m ==> (available@.contains(ModRef::Installed(i as usize)) <==> available_set@[i]),
            decreases n - m,
        {
            let ghost before = available@;
            if available_set[m] {
                available.push(ModRef::Installed(m));
                assert(available@.last() == ModRef::Installed(m));
            }
            assert forall|i: int| 0 <= i < m + 1 implies (available@.contains(ModRef::Installed(i as usize))
                <==> available_set@[i]) by {
                if i < m {
                    if available@.contains(ModRef::Installed(i as usize)) {
                        let w = choose|w: int| 0 <= w < available@.len() && available@[w] == ModRef::Installed(i as usize);
                        if w < before.len() {
                            assert(before[w] == ModRef::Installed(i as usize));
                        }
                    }
                    if before.contains(ModRef::Installed(i as usize)) {
                        let w = choose|w: int| 0 <= w < before.len() && before[w] == ModRef::Installed(i as usize);
                        assert(available@[w] == ModRef::Installed(i as usize));
                    }
                } else {
                    if available@.contains(ModRef::Installed(i as usize)) {
                        let w = choose|w: int| 0 <= w < available@.len() && available@[w] == ModRef::Installed(i as usize);
                        if w < before.len() {
                            assert(idx(before[w]) < m);
                        }
                    }
                    if available_set@[i] {
                        assert(available@[available@.len() - 1] == ModRef::Installed(i as usize));
                    }
                }
            }
            m += 1;
        }
        self.available = available;
        self.active = active_mods;
        assert forall|i: usize| i < n implies (#[trigger] has_installed(self.available@, i)
            <==> !has_installed(self.active@, i)) by {
            assert(available_set@[i as int] <==> !self.active@.contains(ModRef::Installed(i)));
        }
    }

    /// Selects a row, or nothing.
    pub fn set_selection(&mut self, selection: Option<Selection>)
        ensures
            final(self).selected() == selection,
            final(self).available_view() == old(self).available_view(),
            final(self).active_view() == old(self).active_view(),
            final(self).count() == old(self).count(),
    {
        self.selection = selection;
    }

    /// Which actions are enabled: activating for a selected available mod, deactivating
    /// and moving for a selected active mod (up unless it is first, down unless it is
    /// last), more information for any selected mod.
    pub fn update_actions(&self) -> (r: ModActions)
        requires
            self.selection_valid(),
        ensures
            r == (match self.selected() {
                None => ModActions { activate: false, deactivate: false, move_up: false, move_down: false, more_info: false },
                Some(Selection::Available(_)) => ModActions {
                    activate: true,
                    deactivate: false,
                    move_up: false,
                    move_down: false,
                    more_info: true,
                },
                Some(Selection::Active(i)) => ModActions {
                    activate: false,
                    deactivate: true,
                    move_up: i > 0,
                    move_down: i < self.active_view().len() - 1,
                    more_info: true,
                },
            }),
    {
        match self.selection {
            None => ModActions { activate: false, deactivate: false, move_up: false, move_down: false, more_info: false },
            Some(Selection::Available(_)) => ModActions {
                activate: true,
                deactivate: false,
                move_up: false,
                move_down: false,
                more_info: true,
            },
            Some(Selection::Active(i)) => {
                let last_idx = self.active.len() - 1;
                ModActions { activate: false, deactivate: true, move_up: i > 0, move_down: i < last_idx, more_info: true }
            },
        }
    }

    /// Activates the selected available mod: it leaves the available mods and becomes
    /// the last active one; nothing stays selected.
    pub fn activate(&mut self)
        requires
            old(self).wf(),
            old(self).selected() matches Some(Selection::Available(i)) && i < old(self).available_view().len(),
        ensures
            final(self).wf(),
            final(self).count() == old(self).count(),
            final(self).selected() is None,
            old(self).selected() matches Some(Selection::Available(i)) && final(self).available_view()
                == old(self).available_view().remove(i as int) && final(self).active_view()
                == old(self).active_view().push(old(self).available_view()[i as int]),
    {
        let row_idx = match self.selection {
            Some(Selection::Available(i)) => i,
            _ => 0,
        };
        let m = self.available.remove(row_idx);
        self.active.push(m);
        self.selection = None;
        assert forall|a: int, b: int|
            0 <= a < b < self.available@.len() implies idx(#[trigger] self.available@[a]) < idx(
                #[trigger] self.available@[b],
            ) by {
            let oa = if a < row_idx { a } else { a + 1 };
            let ob = if b < row_idx { b } else { b + 1 };
            assert(self.available@[a] == old(self).available@[oa]);
            assert(self.available@[b] == old(self).available@[ob]);
        }
        assert forall|k: int| 0 <= k < self.available@.len() implies (#[trigger] self.available@[k] is Installed
            && idx(self.available@[k]) < self.installed_count) by {
            let ok = if k < row_idx { k } else { k + 1 };
            assert(self.available@[k] == old(self).available@[ok]);
        }
    }

    /// Deactivates the selected active mod: it leaves the active mods and, when it is an
    /// installed mod, returns to the available mods at its place in installation order;
    /// nothing stays selected.
    pub fn deactivate(&mut self)
        requires
            old(self).wf(),
            old(self).selected() matches Some(Selection::Active(i)) && i < old(self).active_view().len()
                && (old(self).active_view()[i as int] matches ModRef::Installed(m) ==> m < old(self).count()
                && !old(self).available_view().contains(ModRef::Installed(m))),
        ensures
            final(self).wf(),
            final(self).count() == old(self).count(),
            final(self).selected() is None,
            old(self).selected() matches Some(Selection::Active(i)) && final(self).active_view()
                == old(self).active_view().remove(i as int) && (match old(self).active_view()[i as int] {
                ModRef::Installed(m) => exists|p: int|
                    0 <= p <= old(self).available_view().len() && final(self).available_view()
                        == old(self).available_view().insert(p, ModRef::Installed(m)),
                _ => final(self).available_view() == old(self).available_view(),
            }),
    {
        let row_idx = match self.selection {
            Some(Selection::Active(i)) => i,
            _ => 0,
        };
        let r = self.active.remove(row_idx);
        self.selection = None;
        match r {
            ModRef::Installed(m) => {
                let mut p: usize = 0;
                while p < self.available.len() && installed_index(&self.available[p]) < m
                    invariant
                        p <= self.available@.len(),
                        self.available@ == old(self).available@,
                        forall|q: int| 0 <= q < p ==> idx(#[trigger] self.available@[q]) < m,
                    decreases self.available.len() - p,
                {
                    p += 1;
                }
                assert(p < self.available@.len() ==> idx(self.available@[p as int]) > m) by {
                    if p < self.available@.len() {
                        assert(self.available@[p as int] is Installed);
                        if idx(self.available@[p as int]) == m {
                            assert(self.available@[p as int] == ModRef::Installed(m));
                        }
                    }
                }
                let ghost before = self.available@;
                self.available.insert(p, ModRef::Installed(m));
                assert forall|a: int, b: int|
                    0 <= a < b < self.available@.len() implies idx(#[trigger] self.available@[a]) < idx(
                        #[trigger] self.available@[b],
                    ) by {
                    if a < p && b > p {
                        assert(self.available@[b] == before[b - 1]);
                        assert(idx(before[p as int]) > m);
                    }
                    if a == p as int && b > p {
                        assert(self.available@[b] == before[b - 1]);
                        assert(idx(before[p as int]) > m);
                    }
                    if a > p && b > p {
                        assert(self.available@[a] == before[a - 1]);
                        assert(self.available@[b] == before[b - 1]);
                    }
                }
            },
            _ => {},
        }
    }

    /// Moves the selected active mod to the top, and keeps it selected.
    pub fn move_top(&mut self)
        requires
            old(self).selected() matches Some(Selection::Active(i)) && i < old(self).active_view().len(),
        ensures
            final(self).available_view() == old(self).available_view(),
            final(self).count() == old(self).count(),
            final(self).selected() == Some(Selection::Active(0)),
            old(self).selected() matches Some(Selection::Active(i)) && final(self).active_view()
                == seq![old(self).active_view()[i as int]] + old(self).active_view().remove(i as int),
    {
        let row_idx = match self.selection {
            Some(Selection::Active(i)) => i,
            _ => 0,
        };
        let m = self.active.remove(row_idx);
        self.active.insert(0, m);
        self.selection = Some(Selection::Active(0));
        assert(self.active@ =~= seq![m] + old(self).active@.remove(row_idx as int));
    }

    /// Moves the selected active mod up by one, and keeps it selected.
    pub fn move_up(&mut self)
        requires
            old(self).selected() matches Some(Selection::Active(i)) && 0 < i < old(self).active_view().len(),
        ensures
            final(self).available_view() == old(self).available_view(),
            final(self).count() == old(self).count(),
            old(self).selected() matches Some(Selection::Active(i)) && final(self).selected() == Some(
                Selection::Active((i - 1) as usize),
            ) && final(self).active_view() == old(self).active_view().update(
                i - 1,
                old(self).active_view()[i as int],
            ).update(i as int, old(self).active_view()[i - 1]),
    {
        let row_idx = match self.selection {
            Some(Selection::Active(i)) => i,
            _ => 1,
        };
        let m = self.active.remove(row_idx);
        self.active.insert(row_idx - 1, m);
        self.selection = Some(Selection::Active(row_idx - 1));
        assert(self.active@ =~= old(self).active@.update(row_idx - 1, old(self).active@[row_idx as int]).update(
            row_idx as int,
            old(self).active@[row_idx - 1],
        ));
    }

    /// Moves the selected active mod down by one, and keeps it selected.
    pub fn move_down(&mut self)
        requires
            old(self).selected() matches Some(Selection::Active(i)) && i + 1 < old(self).active_view().len(),
        ensures
            final(self).available_view() == old(self).available_view(),
            final(self).count() == old(self).count(),
            old(self).selected() matches Some(Selection::Active(i)) && final(self).selected() == Some(
                Selection::Active((i + 1) as usize),
            ) && final(self).active_view() == old(self).active_view().update(
                i + 1,
                old(self).active_view()[i as int],
            ).update(i as int, old(self).active_view()[i + 1]),
    {
        let row_idx = match self.selection {
            Some(Selection::Active(i)) => i,
            _ => 0,
        };
        let len = self.active.len();
        assert(row_idx + 1 < len);
        let next = row_idx + 1;
        let m = self.active.remove(row_idx);
        self.active.insert(next, m);
        self.selection = Some(Selection::Active(next));
        assert(self.active@ =~= old(self).active@.update(row_idx + 1, old(self).active@[row_idx as int]).update(
            row_idx as int,
            old(self).active@[row_idx + 1],
        ));
    }

    /// Moves the selected active mod to the bottom, and keeps it selected.
    pub fn move_bottom(&mut self)
        requires
            old(self).selected() matches Some(Selection::Active(i)) && i < old(self).active_view().len(),
        ensures
            final(self).available_view() == old(self).available_view(),
            final(self).count() == old(self).count(),
            final(self).selected() == Some(Selection::Active((old(self).active_view().len() - 1) as usize)),
            old(self).selected() matches Some(Selection::Active(i)) && final(self).active_view()
                == old(self).active_view().remove(i as int).push(old(self).active_view()[i as int]),
    {
        let row_idx = match self.selection {
            Some(Selection::Active(i)) => i,
            _ => 0,
        };
        let m = self.active.remove(row_idx);
        self.active.push(m);
        let last_idx = self.active.len() - 1;
        self.selection = Some(Selection::Active(last_idx));
    }
}

/// Moving a mod up and then down again restores the load order.
pub proof fn lemma_move_up_then_down(active: Seq<ModRef>, i: int)
    requires
        0 < i < active.len(),
    ensures
        ({
            let up = active.update(i - 1, active[i]).update(i, active[i - 1]);
            up.update(i, up[i - 1]).update(i - 1, up[i]) == active
        }),
{
    let up = active.update(i - 1, active[i]).update(i, active[i - 1]);
    assert(up.update(i, up[i - 1]).update(i - 1, up[i]) =~= active);
}

/// Deactivating a mod right after activating it returns the available mods to what they
/// were: the mod goes back to its place.
pub proof fn lemma_activate_then_deactivate(available: Seq<ModRef>, i: int, p: int)
    requires
        0 <= i < available.len(),
        forall|k: int| 0 <= k < available.len() ==> #[trigger] available[k] is Installed,
        forall|a: int, b: int| 0 <= a < b < available.len() ==> idx(#[trigger] available[a]) < idx(#[trigger] available[b]),
        0 <= p <= available.len() - 1,
        forall|a: int, b: int|
            0 <= a < b < available.len() ==> idx(#[trigger] available.remove(i).insert(p, available[i])[a]) < idx(
                #[trigger] available.remove(i).insert(p, available[i])[b],
            ),
    ensures
        available.remove(i).insert(p, available[i]) == available,
{
    let back = available.remove(i).insert(p, available[i]);
    if p < i {
        assert(idx(back[p]) < idx(back[p + 1]));
        assert(back[p + 1] == available[p]);
        assert(idx(available[p]) < idx(available[i]));
        assert(false);
    } else if p > i {
        assert(idx(back[p - 1]) < idx(back[p]));
        assert(back[p - 1] == available[p]);
        assert(idx(available[i]) < idx(available[p]));
        assert(false);
    }
    assert(back =~= available);
}

} // verus!
