//! Single-player games: the game in progress on each map, the backups of games, and the
//! state of the screen that manages them.
use vstd::prelude::*;

use super::engine::map::MapInfo;
use super::mod_info::{has_drive, path_key, path_key_of};
use crate::text::{chars_le, chars_of, lex_le, lemma_lex_total, str_eq, string_of, sub_chars, trim, trim_chars};

verus! {

/// The character that was played last in a game.
#[derive(Debug, Clone)]
pub struct Character {
    pub name: String,
    pub clan: Option<String>,
    pub level: u32,
    /// When it was last played, in seconds since the Unix epoch.
    pub last_played_timestamp: i64,
}

/// A game database: its file, its map, and the character played last.
#[derive(Debug)]
pub struct GameDB {
    pub file_name: String,
    pub map_id: usize,
    pub last_played_char: Option<Character>,
}

impl Character {
    /// A copy of the character.
    pub fn copy(&self) -> (r: Character)
        ensures
            r == *self,
    {
        let clan = match &self.clan {
            Some(c) => Some(c.clone()),
            None => None,
        };
        Character {
            name: self.name.clone(),
            clan,
            level: self.level,
            last_played_timestamp: self.last_played_timestamp,
        }
    }
}

impl GameDB {
    /// The same game under another file name.
    pub fn copy_from(other: &GameDB, file_name: &str) -> (r: GameDB)
        ensures
            r.file_name@ == file_name@,
            r.map_id == other.map_id,
            r.last_played_char == other.last_played_char,
    {
        let c = match &other.last_played_char {
            Some(c) => Some(c.copy()),
            None => None,
        };
        GameDB { file_name: file_name.to_string(), map_id: other.map_id, last_played_char: c }
    }
}

/// Whether `g` is game `other` under the file name `name`.
pub open spec fn copy_of(g: GameDB, other: GameDB, name: Seq<char>) -> bool {
    g.file_name@ == name && g.map_id == other.map_id && g.last_played_char == other.last_played_char
}

/// The first backup at or after `j` whose file name is `name`.
pub open spec fn find_backup(src: Seq<GameDB>, name: Seq<char>, j: int) -> Option<int>
    decreases src.len() - j,
{
    if j < 0 || j >= src.len() {
        None
    } else if src[j].file_name@ == name {
        Some(j)
    } else {
        find_backup(src, name, j + 1)
    }
}

/// Whether backup `a` comes before backup `b` in the list: by file name, then by
/// position.
pub open spec fn before(src: Seq<GameDB>, a: usize, b: usize) -> bool {
    &&& lex_le(src[a as int].file_name@, src[b as int].file_name@)
    &&& (src[a as int].file_name@ == src[b as int].file_name@ ==> a < b)
}

/// Whether `v` lists, by file name, exactly the backups of map `map`.
pub open spec fn is_view(src: Seq<GameDB>, map: usize, v: Seq<usize>) -> bool {
    &&& forall|k: int| 0 <= k < v.len() ==> (#[trigger] v[k]) < src.len() && src[v[k] as int].map_id == map
    &&& forall|i: usize| i < src.len() && src[i as int].map_id == map ==> #[trigger] v.contains(i)
    &&& forall|a: int, b: int| 0 <= a < b < v.len() ==> v[a] != v[b]
    &&& forall|k: int| 0 <= k < v.len() - 1 ==> before(src, #[trigger] v[k], v[k + 1])
}

/// Where backup `i` goes in the list `v`: after the last entry whose file name comes
/// before or equals its own, looking from position `p` down.
pub open spec fn insert_pos(src: Seq<GameDB>, v: Seq<usize>, i: usize, p: int) -> int
    decreases p,
{
    if p > 0 && p <= v.len() && !lex_le(src[v[p - 1] as int].file_name@, src[i as int].file_name@) {
        insert_pos(src, v, i, p - 1)
    } else {
        p
    }
}

/// The list of the backups of map `map` among the first `n`, by file name (backups with
/// the same name keep their order).
pub open spec fn view_of(src: Seq<GameDB>, map: usize, n: nat) -> Seq<usize>
    decreases n,
{
    if n == 0 {
        seq![]
    } else {
        let v = view_of(src, map, (n - 1) as nat);
        if src[n - 1].map_id == map {
            v.insert(insert_pos(src, v, (n - 1) as usize, v.len() as int), (n - 1) as usize)
        } else {
            v
        }
    }
}

/// How many games are the database of their map.
pub open spec fn db_count(maps: Seq<MapInfo>, gs: Seq<GameDB>) -> nat
    decreases gs.len(),
{
    if gs.len() == 0 {
        0
    } else {
        db_count(maps, gs.drop_last()) + (if gs.last().file_name@ == maps[gs.last().map_id as int].db_name@ {
            1nat
        } else {
            0nat
        })
    }
}

/// Inserts backup `i` into the list `v` after the last entry whose file name comes before
/// or equals its own.
fn insert_backup(src: &[GameDB], v: &mut Vec<usize>, i: usize)
    requires
        i < src@.len(),
        forall|k: int| 0 <= k < old(v)@.len() ==> (#[trigger] old(v)@[k]) < i,
        forall|a: int, b: int| 0 <= a < b < old(v)@.len() ==> old(v)@[a] != old(v)@[b],
        forall|k: int| 0 <= k < old(v)@.len() - 1 ==> before(src@, #[trigger] old(v)@[k], old(v)@[k + 1]),
    ensures
        final(v)@ == old(v)@.insert(insert_pos(src@, old(v)@, i, old(v)@.len() as int), i),
        forall|k: int| 0 <= k < final(v)@.len() ==> (#[trigger] final(v)@[k]) < i + 1,
        forall|a: int, b: int| 0 <= a < b < final(v)@.len() ==> final(v)@[a] != final(v)@[b],
        forall|k: int| 0 <= k < final(v)@.len() - 1 ==> before(src@, #[trigger] final(v)@[k], final(v)@[k + 1]),
        final(v)@.contains(i),
        forall|j: usize| #[trigger] old(v)@.contains(j) ==> final(v)@.contains(j),
        forall|j: usize| #[trigger] final(v)@.contains(j) ==> j == i || old(v)@.contains(j),
{
    let ghost old_v = v@;
    let mut p: usize = v.len();
    while p > 0 && !name_le(&src[v[p - 1]], &src[i])
        invariant
            i < src@.len(),
            v@ == old_v,
            p <= v@.len(),
            insert_pos(src@, v@, i, v@.len() as int) == insert_pos(src@, v@, i, p as int),
            forall|k: int| 0 <= k < v@.len() ==> (#[trigger] v@[k]) < i,
            forall|q: int| p <= q < v@.len() ==> !lex_le(src@[#[trigger] v@[q] as int].file_name@, src@[i as int].file_name@),
        decreases p,
    {
        p -= 1;
    }
    v.insert(p, i);
    proof {
        assert(v@ == old_v.insert(p as int, i));
        lemma_insert_props(src@, old_v, p as int, i);
    }
}

proof fn lemma_insert_props(src: Seq<GameDB>, old_v: Seq<usize>, p: int, i: usize)
    requires
        0 <= p <= old_v.len(),
        i < src.len(),
        forall|k: int| 0 <= k < old_v.len() ==> (#[trigger] old_v[k]) < i,
        forall|a: int, b: int| 0 <= a < b < old_v.len() ==> old_v[a] != old_v[b],
        forall|k: int| 0 <= k < old_v.len() - 1 ==> before(src, #[trigger] old_v[k], old_v[k + 1]),
        p > 0 ==> lex_le(src[old_v[p - 1] as int].file_name@, src[i as int].file_name@),
        forall|q: int| p <= q < old_v.len() ==> !lex_le(src[#[trigger] old_v[q] as int].file_name@, src[i as int].file_name@),
    ensures
        ({
            let v = old_v.insert(p, i);
            &&& forall|k: int| 0 <= k < v.len() ==> (#[trigger] v[k]) < i + 1
            &&& forall|a: int, b: int| 0 <= a < b < v.len() ==> v[a] != v[b]
            &&& forall|k: int| 0 <= k < v.len() - 1 ==> before(src, #[trigger] v[k], v[k + 1])
            &&& v.contains(i)
            &&& forall|j: usize| #[trigger] old_v.contains(j) ==> v.contains(j)
            &&& forall|j: usize| #[trigger] v.contains(j) ==> j == i || old_v.contains(j)
        }),
{
    lemma_insert_sorted(src, old_v, p, i);
    lemma_insert_members(old_v, p, i);
    lemma_insert_distinct(old_v, p, i);
}

proof fn lemma_insert_sorted(src: Seq<GameDB>, old_v: Seq<usize>, p: int, i: usize)
    requires
        0 <= p <= old_v.len(),
        i < src.len(),
        forall|k: int| 0 <= k < old_v.len() ==> (#[trigger] old_v[k]) < i,
        forall|a: int, b: int| 0 <= a < b < old_v.len() ==> old_v[a] != old_v[b],
        forall|k: int| 0 <= k < old_v.len() - 1 ==> before(src, #[trigger] old_v[k], old_v[k + 1]),
        p > 0 ==> lex_le(src[old_v[p - 1] as int].file_name@, src[i as int].file_name@),
        forall|q: int| p <= q < old_v.len() ==> !lex_le(src[#[trigger] old_v[q] as int].file_name@, src[i as int].file_name@),
    ensures
        forall|k: int| 0 <= k < old_v.insert(p, i).len() - 1 ==> before(src, #[trigger] old_v.insert(p, i)[k], old_v.insert(p, i)[k + 1]),
{
    let v = old_v.insert(p, i);
    assert forall|k: int| 0 <= k < v.len() - 1 implies before(src, #[trigger] v[k], v[k + 1]) by {
        if k < p - 1 {
            assert(v[k] == old_v[k] && v[k + 1] == old_v[k + 1]);
        } else if k == p - 1 {
            assert(v[k] == old_v[k]);
            assert(old_v[k] < i);
        } else if k == p {
            assert(v[k + 1] == old_v[k]);
            lemma_lex_total(src[i as int].file_name@, src[old_v[k] as int].file_name@);
        } else {
            assert(v[k] == old_v[k - 1] && v[k + 1] == old_v[k]);
        }
    }
}

proof fn lemma_insert_members(old_v: Seq<usize>, p: int, i: usize)
    requires
        0 <= p <= old_v.len(),
        forall|k: int| 0 <= k < old_v.len() ==> (#[trigger] old_v[k]) < i,
    ensures
        old_v.insert(p, i).contains(i),
        forall|j: usize| #[trigger] old_v.contains(j) ==> old_v.insert(p, i).contains(j),
        forall|j: usize| #[trigger] old_v.insert(p, i).contains(j) ==> j == i || old_v.contains(j),
        forall|k: int| 0 <= k < old_v.insert(p, i).len() ==> (#[trigger] old_v.insert(p, i)[k]) < i + 1,
{
    let v = old_v.insert(p, i);
    assert(v[p] == i);
    assert forall|j: usize| #[trigger] old_v.contains(j) implies v.contains(j) by {
        let w = choose|w: int| 0 <= w < old_v.len() && old_v[w] == j;
        if w < p {
            assert(v[w] == j);
        } else {
            assert(v[w + 1] == j);
        }
    }
    assert forall|j: usize| #[trigger] v.contains(j) implies j == i || old_v.contains(j) by {
        let w = choose|w: int| 0 <= w < v.len() && v[w] == j;
        if w < p {
            assert(old_v[w] == j);
        } else if w > p {
            assert(old_v[w - 1] == j);
        }
    }
    assert forall|k: int| 0 <= k < v.len() implies (#[trigger] v[k]) < i + 1 by {
        if k < p {
            assert(v[k] == old_v[k]);
        } else if k > p {
            assert(v[k] == old_v[k - 1]);
        }
    }
}

proof fn lemma_insert_distinct(old_v: Seq<usize>, p: int, i: usize)
    requires
        0 <= p <= old_v.len(),
        forall|k: int| 0 <= k < old_v.len() ==> (#[trigger] old_v[k]) < i,
        forall|a: int, b: int| 0 <= a < b < old_v.len() ==> old_v[a] != old_v[b],
    ensures
        forall|a: int, b: int| 0 <= a < b < old_v.insert(p, i).len() ==> old_v.insert(p, i)[a] != old_v.insert(p, i)[b],
{
    let v = old_v.insert(p, i);
    assert forall|a: int, b: int| 0 <= a < b < v.len() implies v[a] != v[b] by {
        let oa = if a < p { a } else if a == p { -1 } else { a - 1 };
        let ob = if b < p { b } else if b == p { -1 } else { b - 1 };
        if oa >= 0 {
            assert(v[a] == old_v[oa]);
        }
        if ob >= 0 {
            assert(v[b] == old_v[ob]);
        }
    }
}

/// Which actions of the single-player screen are enabled.
#[derive(Debug, Clone, Copy, PartialEq, Eq, Structural)]
pub struct SinglePlayerActions {
    pub continue_game: bool,
    pub load: bool,
    pub save: bool,
    pub save_as: bool,
    pub delete: bool,
}

/// The state of the single-player screen.
pub struct SinglePlayerState {
    in_progress: Vec<Option<GameDB>>,
    backups: Vec<GameDB>,
    map_id: usize,
    selected_backup: Option<usize>,
}

fn name_le(a: &GameDB, b: &GameDB) -> (r: bool)
    ensures
        r == lex_le(a.file_name@, b.file_name@),
{
    let x = chars_of(a.file_name.as_str());
    let y = chars_of(b.file_name.as_str());
    chars_le(x.as_slice(), y.as_slice())
}

impl SinglePlayerState {
    /// The game in progress on each map.
    pub closed spec fn in_progress_view(&self) -> Seq<Option<GameDB>> {
        self.in_progress@
    }

    /// The backups.
    pub closed spec fn backups_view(&self) -> Seq<GameDB> {
        self.backups@
    }

    /// The selected map.
    pub closed spec fn map(&self) -> usize {
        self.map_id
    }

    /// The selected row of the backups.
    pub closed spec fn selected(&self) -> Option<usize> {
        self.selected_backup
    }

    /// A screen for `map_count` maps with map `map_id` selected and no games.
    pub fn new(map_count: usize, map_id: usize) -> (r: Self)
        requires
            map_id < map_count,
        ensures
            r.wf(),
            r.in_progress_view().len() == map_count,
            forall|i: int| 0 <= i < map_count ==> (#[trigger] r.in_progress_view()[i]) is None,
            r.backups_view().len() == 0,
            r.map() == map_id,
            r.selected() is None,
    {
        let mut in_progress: Vec<Option<GameDB>> = Vec::new();
        let mut i: usize = 0;
        while i < map_count
            invariant
                i <= map_count,
                in_progress@.len() == i,
                forall|j: int| 0 <= j < i ==> (#[trigger] in_progress@[j]) is None,
            decreases map_count - i,
        {
            in_progress.push(None);
            i += 1;
        }
        SinglePlayerState { in_progress, backups: Vec::new(), map_id, selected_backup: None }
    }

    /// The backups of the selected map, by file name: their positions among all backups.
    pub fn visible_backups(&self) -> (r: Vec<usize>)
        ensures
            r@ == view_of(self.backups_view(), self.map(), self.backups_view().len()),
            is_view(self.backups_view(), self.map(), r@),
    {
        let src = &self.backups;
        let mut v: Vec<usize> = Vec::new();
        let mut i: usize = 0;
        while i < src.len()
            invariant
                i <= src@.len(),
                forall|k: int| 0 <= k < v@.len() ==> (#[trigger] v@[k]) < i,
                forall|j: usize| #[trigger] v@.contains(j) ==> j < i && src@[j as int].map_id == self.map_id,
                forall|j: usize| j < i && src@[j as int].map_id == self.map_id ==> #[trigger] v@.contains(j),
                forall|a: int, b: int| 0 <= a < b < v@.len() ==> v@[a] != v@[b],
                forall|k: int| 0 <= k < v@.len() - 1 ==> before(src@, #[trigger] v@[k], v@[k + 1]),
                v@ == view_of(src@, self.map_id, i as nat),
            decreases src.len() - i,
        {
            if src[i].map_id == self.map_id {
                let ghost old_v = v@;
                insert_backup(src.as_slice(), &mut v, i);
                proof {
                    assert forall|j: usize| j < i + 1 && src@[j as int].map_id == self.map_id implies #[trigger] v@.contains(j) by {
                        if j < i {
                            assert(old_v.contains(j));
                        }
                    }
                    assert forall|j: usize| #[trigger] v@.contains(j) implies j < i + 1 && src@[j as int].map_id == self.map_id by {
                        if j != i {
                            assert(old_v.contains(j));
                        }
                    }
                }
            }
            i += 1;
        }
        assert forall|k: int| 0 <= k < v@.len() implies (#[trigger] v@[k]) < src@.len() && src@[v@[k] as int].map_id == self.map_id by {
            assert(v@.contains(v@[k]));
        }
        v
    }

    /// The position among all backups of the selected row, if it designates one.
    pub open spec fn selected_source(&self) -> Option<usize> {
        let v = view_of(self.backups_view(), self.map(), self.backups_view().len());
        match self.selected() {
            Some(k) => if k < v.len() {
                Some(v[k as int])
            } else {
                None
            },
            None => None,
        }
    }

    /// The position among all backups of the selected row, if it designates one.
    pub fn selected_backup_source(&self) -> (r: Option<usize>)
        ensures
            r == self.selected_source(),
            r matches Some(s) ==> s < self.backups_view().len() && self.backups_view()[s as int].map_id == self.map(),
    {
        match self.selected_backup {
            Some(k) => {
                let v = self.visible_backups();
                if k < v.len() {
                    Some(v[k])
                } else {
                    None
                }
            },
            None => None,
        }
    }

    /// Whether map `map` has a game in progress.
    pub open spec fn has_in_progress(&self, map: usize) -> bool {
        map < self.in_progress_view().len() && self.in_progress_view()[map as int] is Some
    }

    /// Which actions are enabled: continuing and saving as for a map with a game in
    /// progress, loading and deleting for a selected backup, saving for both.
    pub fn update_actions(&self) -> (r: SinglePlayerActions)
        ensures
            r.continue_game == self.has_in_progress(self.map()),
            r.load == self.selected() is Some,
            r.save == (self.has_in_progress(self.map()) && self.selected() is Some),
            r.save_as == self.has_in_progress(self.map()),
            r.delete == self.selected() is Some,
    {
        let in_progress = self.map_id < self.in_progress.len() && self.in_progress[self.map_id].is_some();
        let selected = self.selected_backup.is_some();
        SinglePlayerActions {
            continue_game: in_progress,
            load: selected,
            save: in_progress && selected,
            save_as: in_progress,
            delete: selected,
        }
    }

    /// Shows the backups of map `map_id`; nothing stays selected.
    pub fn map_selected(&mut self, map_id: usize)
        requires
            map_id < old(self).in_progress_view().len(),
        ensures
            final(self).wf(),
            final(self).map() == map_id,
            final(self).selected() is None,
            final(self).backups_view() == old(self).backups_view(),
            final(self).in_progress_view() == old(self).in_progress_view(),
    {
        self.map_id = map_id;
        self.selected_backup = None;
    }

    /// Selects row `idx` of the backups.
    pub fn select_backup(&mut self, idx: usize)
        ensures
            final(self).selected() == Some(idx),
            final(self).map() == old(self).map(),
            final(self).backups_view() == old(self).backups_view(),
            final(self).in_progress_view() == old(self).in_progress_view(),
    {
        self.selected_backup = Some(idx);
    }

    /// Takes the listed games: a game whose file is the database of its map is that
    /// map's game in progress (the last such game wins); the others are backups, in
    /// order. Nothing stays selected.
    pub fn set_games(&mut self, maps: &[MapInfo], games: Vec<GameDB>)
        requires
            old(self).in_progress_view().len() == maps@.len(),
            forall|k: int| 0 <= k < games@.len() ==> (#[trigger] games@[k]).map_id < maps@.len(),
        ensures
            final(self).in_progress_view().len() == maps@.len(),
            final(self).selected() is None,
            final(self).map() == old(self).map(),
            old(self).wf() ==> final(self).wf(),
            forall|k: int| 0 <= k < final(self).backups_view().len() ==> (#[trigger] final(self).backups_view()[k]).file_name@
                != maps@[final(self).backups_view()[k].map_id as int].db_name@,
            forall|m: int| 0 <= m < maps@.len() ==> match #[trigger] final(self).in_progress_view()[m] {
                Some(g) => g.map_id == m && g.file_name@ == maps@[m].db_name@,
                None => forall|k: int| 0 <= k < games@.len() ==> !((#[trigger] games@[k]).map_id == m
                    && games@[k].file_name@ == maps@[m].db_name@),
            },
            final(self).backups_view().len() + db_count(maps@, games@) == games@.len(),
    {
        let n = maps.len();
        let mut in_progress: Vec<Option<GameDB>> = Vec::new();
        let mut i: usize = 0;
        while i < n
            invariant
                i <= n,
                n == maps@.len(),
                in_progress@.len() == i,
                forall|j: int| 0 <= j < i ==> (#[trigger] in_progress@[j]) is None,
            decreases n - i,
        {
            in_progress.push(None);
            i += 1;
        }
        let mut backups: Vec<GameDB> = Vec::new();
        let mut rest = games;
        let ghost all = rest@;
        let ghost mut done: nat = 0;
        while rest.len() > 0
            invariant
                n == maps@.len(),
                in_progress@.len() == n,
                all == games@,
                done + rest@.len() == all.len(),
                rest@ == all.skip(done as int),
                forall|k: int| 0 <= k < rest@.len() ==> (#[trigger] rest@[k]).map_id < n,
                forall|k: int| 0 <= k < backups@.len() ==> (#[trigger] backups@[k]).file_name@
                    != maps@[backups@[k].map_id as int].db_name@,
                forall|m: int| 0 <= m < n ==> match #[trigger] in_progress@[m] {
                    Some(g) => g.map_id == m && g.file_name@ == maps@[m].db_name@,
                    None => forall|k: int| 0 <= k < done ==> !((#[trigger] all[k]).map_id == m
                        && all[k].file_name@ == maps@[m].db_name@),
                },
                backups@.len() + db_count(maps@, all.take(done as int)) == done,
            decreases rest.len(),
        {
            let ghost before_rest = rest@;
            let g = rest.remove(0);
            assert(g == all[done as int]);
            let is_db = str_eq(g.file_name.as_str(), maps[g.map_id].db_name.as_str());
            let ghost take_next = all.take((done + 1) as int);
            assert(take_next.drop_last() =~= all.take(done as int));
            assert(take_next.last() == g);
            if is_db {
                let m = g.map_id;
                in_progress.set(m, Some(g));
            } else {
                backups.push(g);
            }
            proof {
                done = done + 1;
                assert(rest@ =~= all.skip(done as int));
            }
        }
        assert(all.take(done as int) =~= all);
        self.in_progress = in_progress;
        self.backups = backups;
        self.selected_backup = None;
    }
}


impl SinglePlayerState {
    /// All backups, in the order they were listed.
    pub fn backups(&self) -> (r: &Vec<GameDB>)
        ensures
            r@ == self.backups_view(),
    {
        &self.backups
    }

    /// The game in progress on map `map`, if any.
    pub fn in_progress(&self, map: usize) -> (r: Option<&GameDB>)
        ensures
            r == (if map < self.in_progress_view().len() {
                match self.in_progress_view()[map as int] {
                    Some(g) => Some(&g),
                    None => None,
                }
            } else {
                None
            }),
    {
        if map < self.in_progress.len() {
            match &self.in_progress[map] {
                Some(g) => Some(g),
                None => None,
            }
        } else {
            None
        }
    }

    /// The selected map.
    pub fn map_id(&self) -> (r: usize)
        ensures
            r == self.map(),
    {
        self.map_id
    }

    /// Whether the selected map is one of the maps.
    pub open spec fn wf(&self) -> bool {
        self.map() < self.in_progress_view().len()
    }

    /// A new game was started on the selected map: it has no game in progress any more
    /// until the list is read again; nothing stays selected.
    pub fn new_game_started(&mut self)
        requires
            old(self).wf(),
        ensures
            final(self).wf(),
            final(self).in_progress_view() == old(self).in_progress_view().update(old(self).map() as int, None),
            final(self).backups_view() == old(self).backups_view(),
            final(self).map() == old(self).map(),
            final(self).selected() is None,
    {
        self.in_progress.set(self.map_id, None);
        self.selected_backup = None;
    }

    /// The selected backup was loaded: it is the game in progress of the selected map,
    /// under that map's database name; nothing stays selected.
    pub fn backup_loaded(&mut self, maps: &[MapInfo])
        requires
            old(self).wf(),
            old(self).in_progress_view().len() == maps@.len(),
            old(self).selected_source() is Some,
        ensures
            final(self).wf(),
            final(self).backups_view() == old(self).backups_view(),
            final(self).map() == old(self).map(),
            final(self).selected() is None,
            final(self).in_progress_view().len() == old(self).in_progress_view().len(),
            forall|m: int| 0 <= m < old(self).in_progress_view().len() && m != old(self).map() ==> #[trigger] final(self).in_progress_view()[m]
                == old(self).in_progress_view()[m],
            final(self).in_progress_view()[old(self).map() as int] matches Some(g) && copy_of(
                g,
                old(self).backups_view()[old(self).selected_source().unwrap() as int],
                maps@[old(self).map() as int].db_name@,
            ),
    {
        let s = self.selected_backup_source().unwrap();
        let g = GameDB::copy_from(&self.backups[s], maps[self.map_id].db_name.as_str());
        self.in_progress.set(self.map_id, Some(g));
        self.selected_backup = None;
    }

    /// The game in progress was saved over the selected backup; nothing stays selected.
    pub fn game_saved(&mut self)
        requires
            old(self).wf(),
            old(self).selected_source() is Some,
            old(self).has_in_progress(old(self).map()),
        ensures
            final(self).wf(),
            final(self).in_progress_view() == old(self).in_progress_view(),
            final(self).map() == old(self).map(),
            final(self).selected() is None,
            final(self).backups_view().len() == old(self).backups_view().len(),
            forall|j: int| 0 <= j < old(self).backups_view().len() && j != old(self).selected_source().unwrap() ==> #[trigger] final(self).backups_view()[j]
                == old(self).backups_view()[j],
            copy_of(
                final(self).backups_view()[old(self).selected_source().unwrap() as int],
                old(self).in_progress_view()[old(self).map() as int].unwrap(),
                old(self).backups_view()[old(self).selected_source().unwrap() as int].file_name@,
            ),
    {
        let s = self.selected_backup_source().unwrap();
        let g = match &self.in_progress[self.map_id] {
            Some(game) => GameDB::copy_from(game, self.backups[s].file_name.as_str()),
            None => GameDB { file_name: String::new(), map_id: 0, last_played_char: None },
        };
        self.backups.set(s, g);
        self.selected_backup = None;
    }

    /// The game in progress was saved as a backup named `name`: it replaces the first
    /// backup with that name, or comes last; nothing stays selected.
    pub fn game_saved_as(&mut self, name: &str)
        requires
            old(self).wf(),
            old(self).has_in_progress(old(self).map()),
        ensures
            final(self).wf(),
            final(self).in_progress_view() == old(self).in_progress_view(),
            final(self).map() == old(self).map(),
            final(self).selected() is None,
            match find_backup(old(self).backups_view(), name@, 0) {
                Some(j) => final(self).backups_view().len() == old(self).backups_view().len()
                    && (forall|k: int| 0 <= k < old(self).backups_view().len() && k != j ==> #[trigger] final(self).backups_view()[k]
                    == old(self).backups_view()[k]) && copy_of(
                    final(self).backups_view()[j],
                    old(self).in_progress_view()[old(self).map() as int].unwrap(),
                    name@,
                ),
                None => final(self).backups_view().len() == old(self).backups_view().len() + 1
                    && final(self).backups_view().drop_last() == old(self).backups_view() && copy_of(
                    final(self).backups_view().last(),
                    old(self).in_progress_view()[old(self).map() as int].unwrap(),
                    name@,
                ),
            },
    {
        let g = match &self.in_progress[self.map_id] {
            Some(game) => GameDB::copy_from(game, name),
            None => GameDB { file_name: String::new(), map_id: 0, last_played_char: None },
        };
        let mut j: usize = 0;
        while j < self.backups.len()
            invariant
                j <= self.backups@.len(),
                self.backups@ == old(self).backups@,
                self.in_progress@ == old(self).in_progress@,
                self.map_id == old(self).map_id,
                self.map_id < self.in_progress@.len(),
                copy_of(g, old(self).in_progress@[old(self).map_id as int].unwrap(), name@),
                find_backup(self.backups@, name@, 0) == find_backup(self.backups@, name@, j as int),
            decreases self.backups.len() - j,
        {
            if str_eq(self.backups[j].file_name.as_str(), name) {
                self.backups.set(j, g);
                self.selected_backup = None;
                return;
            }
            j += 1;
        }
        self.backups.push(g);
        self.selected_backup = None;
        assert(self.backups@.drop_last() =~= old(self).backups@);
    }

    /// The selected backup was deleted; nothing stays selected.
    pub fn backup_deleted(&mut self)
        requires
            old(self).wf(),
            old(self).selected_source() is Some,
        ensures
            final(self).wf(),
            final(self).in_progress_view() == old(self).in_progress_view(),
            final(self).map() == old(self).map(),
            final(self).selected() is None,
            final(self).backups_view() == old(self).backups_view().remove(old(self).selected_source().unwrap() as int),
    {
        let s = self.selected_backup_source().unwrap();
        self.backups.remove(s);
        self.selected_backup = None;
    }
}

// ---------------------------------------------------------------------------
// Names of backups
// ---------------------------------------------------------------------------

/// Why a backup name is refused.
#[derive(Debug, Clone, PartialEq, Eq)]
pub enum DbNameError {
    /// The name is empty (or only white space).
    Empty,
    /// The name is not a plain file name; it holds the trimmed name.
    Invalid(String),
}

/// The one component of a path that is a plain file name (no drive, no root, one
/// component other than `.` and `..`), compared as `path_key` compares paths.
pub open spec fn single_file_name(t: Seq<char>) -> Option<Seq<char>> {
    let k = path_key(t);
    let c = k.drop_last();
    if !has_drive(t) && k.len() >= 2 && k.last() == '/' && (forall|j: int| 0 <= j < c.len() ==> c[j] != '/')
        && c != seq!['.'] && c != seq!['.', '.'] {
        Some(c)
    } else {
        None
    }
}

/// Whether the file name `c` has the extension `db`: it ends with `.db` after at least
/// one other character.
pub open spec fn has_db_extension(c: Seq<char>) -> bool {
    c.len() >= 4 && c.subrange(c.len() - 3, c.len() as int) == ".db"@
}

/// The file name of a backup that the player named `s`: the trimmed name, which must be
/// one plain file name; a name without the extension `db` gets `.db` added (so `save`
/// gives `save.db` and `save.txt` gives `save.txt.db`). `Err(None)` is an empty name,
/// `Err(Some(t))` the refused trimmed name `t`.
pub open spec fn spec_db_name(s: Seq<char>) -> Result<Seq<char>, Option<Seq<char>>> {
    let t = trim(s);
    if t.len() == 0 {
        Err(None)
    } else {
        match single_file_name(t) {
            None => Err(Some(t)),
            Some(c) => if has_db_extension(c) {
                Ok(t)
            } else {
                Ok(c + ".db"@)
            },
        }
    }
}

fn no_slash(c: &[char]) -> (r: bool)
    ensures
        r == (forall|j: int| 0 <= j < c@.len() ==> c@[j] != '/'),
{
    let mut j: usize = 0;
    while j < c.len()
        invariant
            j <= c@.len(),
            forall|i: int| 0 <= i < j ==> c@[i] != '/',
        decreases c.len() - j,
    {
        if c[j] == '/' {
            return false;
        }
        j += 1;
    }
    true
}

/// The file name of a backup that the player named `s`.
#[verifier::rlimit(30)]
pub fn db_name_from(s: &str) -> (r: Result<String, DbNameError>)
    ensures
        match spec_db_name(s@) {
            Ok(n) => r matches Ok(x) && x@ == n,
            Err(None) => r == Err::<String, DbNameError>(DbNameError::Empty),
            Err(Some(t)) => r matches Err(DbNameError::Invalid(x)) && x@ == t,
        },
{
    proof {
        reveal_strlit(".db");
    }
    let cs = chars_of(s);
    let t = trim_chars(cs.as_slice());
    if t.len() == 0 {
        return Err(DbNameError::Empty);
    }
    let ts = string_of(t.as_slice());
    let k = path_key_of(ts.as_str());
    let drive = t.len() >= 2 && t[1] == ':' && (('a' <= t[0] && t[0] <= 'z') || ('A' <= t[0] && t[0] <= 'Z'));
    if drive || k.len() < 2 || k[k.len() - 1] != '/' {
        return Err(DbNameError::Invalid(ts));
    }
    let n = k.len() - 1;
    let c = sub_chars(k.as_slice(), 0, n);
    assert(c@ =~= k@.drop_last());
    if !no_slash(c.as_slice()) {
        return Err(DbNameError::Invalid(ts));
    }
    if (n == 1 && c[0] == '.') || (n == 2 && c[0] == '.' && c[1] == '.') {
        assert(n == 1 ==> c@ =~= seq!['.']);
        assert(n == 2 ==> c@ =~= seq!['.', '.']);
        return Err(DbNameError::Invalid(ts));
    }
    assert(c@ != seq!['.']) by {
        if c@.len() == 1 {
            assert(c@[0] != '.');
        }
    }
    assert(c@ != seq!['.', '.']) by {
        if c@.len() == 2 {
            assert(c@[0] != '.' || c@[1] != '.');
        }
    }
    if n >= 4 && c[n - 3] == '.' && c[n - 2] == 'd' && c[n - 1] == 'b' {
        assert(c@.subrange(n - 3, n as int) =~= ".db"@);
        return Ok(ts);
    }
    assert(!has_db_extension(c@)) by {
        if c@.len() >= 4 && c@.subrange(c@.len() - 3, c@.len() as int) == ".db"@ {
            assert(c@.subrange(n - 3, n as int)[0] == '.');
            assert(c@.subrange(n - 3, n as int)[1] == 'd');
            assert(c@.subrange(n - 3, n as int)[2] == 'b');
        }
    }
    let mut r = string_of(c.as_slice());
    crate::text::push_str(&mut r, ".db");
    Ok(r)
}

} // verus!
