//! Finding the playable maps that the base game and mods define.
//!
//! Maps are rows of data tables whose row struct is `MapDataRow`. A row names its map
//! (`MapName`), its world as `asset.object` (`MapWorld`) and the name of its saved-game
//! database (`DBName`). Mods declare their map tables from packages under `/PreLoad/`
//! that import `MapDataTable` from `/Game/Base/AlwaysCook/MapDataTable`.
//!
//! Where a package refers to an entry out of range of one of its tables (a malformed
//! package), these functions report `EngineError::Malformed`.
use vstd::prelude::*;

use super::bytes::{spec_fstring, spec_u32};
use super::pak::{entries_view, Archive, ArchiveEntry, EngineError, EntryView};
use super::property::{spec_name, spec_property_tag, spec_seek, ExportReader, PropertyTag};
use super::uasset::{
    spec_summary, name_with_instance, spec_resource_index, strings_view, Import, NameIndex, Package,
    PackageSummary, ResourceIndex,
};
use crate::text::{
    chars_eq_str, chars_of, contains_seq, contains_str, ends_with, find_char, find_char_exec,
    has_prefix, has_suffix, starts_with, string_of, sub_chars,
};

verus! {

/// A playable map.
#[derive(Debug, Clone)]
pub struct MapInfo {
    pub display_name: String,
    pub asset_path: String,
    pub object_name: String,
    pub db_name: String,
}

/// A map as plain values: display name, asset path, object name, database name.
pub type MapView = (Seq<char>, Seq<char>, Seq<char>, Seq<char>);

impl MapInfo {
    /// The map as plain values.
    pub open spec fn view(&self) -> MapView {
        (self.display_name@, self.asset_path@, self.object_name@, self.db_name@)
    }
}

/// The views of maps.
pub open spec fn maps_view(m: Seq<MapInfo>) -> Seq<MapView> {
    m.map_values(|x: MapInfo| x.view())
}

/// The package of the base game that lists its maps.
pub const BASE_MAP_DATA_TABLE: &'static str = "ConanSandbox/Content/Base/AlwaysCook/MapDataTable";

// ---------------------------------------------------------------------------
// Preloaded packages
// ---------------------------------------------------------------------------

/// The preloaded packages of an archive: the paths, without `.uasset`, of its
/// unencrypted entries under `/PreLoad/` that end in `.uasset`, in index order.
pub open spec fn spec_preload(es: Seq<EntryView>) -> Seq<Seq<char>>
    decreases es.len(),
{
    if es.len() == 0 {
        seq![]
    } else {
        let prev = spec_preload(es.drop_last());
        let e = es.last();
        if !e.4 && contains_seq(e.0, "/PreLoad/"@) && has_suffix(e.0, ".uasset"@) {
            prev.push(e.0.take(e.0.len() - ".uasset"@.len()))
        } else {
            prev
        }
    }
}

/// The views of strings.
pub open spec fn sv(v: Seq<String>) -> Seq<Seq<char>> {
    strings_view(v)
}

/// Lists the preloaded packages of an archive.
pub fn gather_preload_packages(pak: &Archive) -> (r: Vec<String>)
    ensures
        sv(r@) == spec_preload(pak.view()),
{
    let entries = pak.iter();
    let mut r: Vec<String> = Vec::new();
    let mut i: usize = 0;
    while i < entries.len()
        invariant
            i <= entries@.len(),
            entries_view(entries@) == pak.view(),
            sv(r@) == spec_preload(entries_view(entries@).take(i as int)),
        decreases entries.len() - i,
    {
        let ghost es = entries_view(entries@).take(i + 1);
        assert(es.drop_last() == entries_view(entries@).take(i as int));
        assert(es.last() == entries@[i as int].view());
        let pc = chars_of(entries[i].path.as_str());
        if !entries[i].encrypted && contains_str(pc.as_slice(), "/PreLoad/") && ends_with(
            pc.as_slice(),
            ".uasset",
        ) {
            let suffix_len = chars_of(".uasset").len();
            let stem = sub_chars(pc.as_slice(), 0, pc.len() - suffix_len);
            assert(stem@ == pc@.take(pc@.len() - ".uasset"@.len()));
            let ghost old_r = r@;
            r.push(string_of(stem.as_slice()));
            assert(sv(r@) == sv(old_r).push(stem@));
        }
        i += 1;
    }
    assert(entries_view(entries@).take(entries@.len() as int) == entries_view(entries@));
    r
}

// ---------------------------------------------------------------------------
// Map data candidates
// ---------------------------------------------------------------------------

/// The text of name `i` of `names`, or `None` when `i` is out of range.
pub open spec fn name_at(names: Seq<Seq<char>>, i: NameIndex) -> Option<Seq<char>> {
    if i.index < names.len() {
        Some(names[i.index as int])
    } else {
        None
    }
}

/// Whether import `i` is `MapDataTable` inside `/Game/Base/AlwaysCook/MapDataTable`:
/// its outer must be an import, then its own name and then the outer's name are compared.
pub open spec fn spec_is_map_data_table_import(s: (u32, Seq<Seq<char>>, Seq<Import>, Seq<crate::game::engine::uasset::Export>), i: int) -> Result<bool, EngineError> {
    let imp = s.2[i];
    match imp.outer {
        ResourceIndex::Import(o) => if o >= s.2.len() {
            Err(EngineError::Malformed)
        } else {
            match name_at(s.1, imp.name) {
                None => Err(EngineError::Malformed),
                Some(n) => if n != "MapDataTable"@ {
                    Ok(false)
                } else {
                    match name_at(s.1, s.2[o as int].name) {
                        None => Err(EngineError::Malformed),
                        Some(on) => Ok(on == "/Game/Base/AlwaysCook/MapDataTable"@),
                    }
                }
            }
        },
        ResourceIndex::Export(x) => if x >= s.3.len() {
            Err(EngineError::Malformed)
        } else {
            Ok(false)
        },
        ResourceIndex::Null => Ok(false),
    }
}

/// Whether some of the first `n` imports is a map data table import (checked in order,
/// stopping at the first that is).
pub open spec fn spec_any_map_data_table(s: (u32, Seq<Seq<char>>, Seq<Import>, Seq<crate::game::engine::uasset::Export>), n: nat) -> Result<bool, EngineError>
    decreases n,
{
    if n == 0 {
        Ok(false)
    } else {
        match spec_any_map_data_table(s, (n - 1) as nat) {
            Err(e) => Err(e),
            Ok(true) => Ok(true),
            Ok(false) => spec_is_map_data_table_import(s, n - 1),
        }
    }
}

/// The packages that the first `n` imports designate as mod map tables: imports whose
/// name starts with `/Game/Mods/` and whose package is `/Script/CoreUObject`, with
/// `/Game/` removed.
pub open spec fn spec_mod_tables(s: (u32, Seq<Seq<char>>, Seq<Import>, Seq<crate::game::engine::uasset::Export>), n: nat) -> Result<Seq<Seq<char>>, EngineError>
    decreases n,
{
    if n == 0 {
        Ok(seq![])
    } else {
        match spec_mod_tables(s, (n - 1) as nat) {
            Err(e) => Err(e),
            Ok(prev) => {
                let imp = s.2[n - 1];
                match name_at(s.1, imp.name) {
                    None => Err(EngineError::Malformed),
                    Some(nm) => if !has_prefix(nm, "/Game/Mods/"@) {
                        Ok(prev)
                    } else {
                        match name_at(s.1, imp.package) {
                            None => Err(EngineError::Malformed),
                            Some(pk) => if pk == "/Script/CoreUObject"@ {
                                Ok(prev.push(nm.skip("/Game/"@.len() as int)))
                            } else {
                                Ok(prev)
                            },
                        }
                    },
                }
            },
        }
    }
}

/// The map table packages that a preloaded package declares: none unless it imports
/// the map data table.
pub open spec fn spec_map_data_candidates(s: (u32, Seq<Seq<char>>, Seq<Import>, Seq<crate::game::engine::uasset::Export>)) -> Result<Seq<Seq<char>>, EngineError> {
    match spec_any_map_data_table(s, s.2.len()) {
        Err(e) => Err(e),
        Ok(false) => Ok(seq![]),
        Ok(true) => spec_mod_tables(s, s.2.len()),
    }
}

/// Whether import `j` declares a mod map table: its name starts with `/Game/Mods/` and
/// its package is `/Script/CoreUObject`.
pub open spec fn declares_mod_table(s: (u32, Seq<Seq<char>>, Seq<Import>, Seq<crate::game::engine::uasset::Export>), j: int) -> bool {
    &&& name_at(s.1, s.2[j].name) matches Some(nm)
    &&& has_prefix(nm, "/Game/Mods/"@)
    &&& name_at(s.1, s.2[j].package) == Some("/Script/CoreUObject"@)
}

/// Each table that the first `n` imports declare is the name of one of them that
/// declares a mod map table, with exactly its leading `/Game/` removed; and every such
/// import gives a table.
pub proof fn lemma_mod_tables(s: (u32, Seq<Seq<char>>, Seq<Import>, Seq<crate::game::engine::uasset::Export>), n: nat)
    requires
        n <= s.2.len(),
    ensures
        spec_mod_tables(s, n) matches Ok(ts) ==> (forall|k: int| 0 <= k < ts.len() ==> exists|j: int|
            0 <= j < n && declares_mod_table(s, j) && name_at(s.1, s.2[j].name) == Some("/Game/"@ + #[trigger] ts[k])),
        spec_mod_tables(s, n) matches Ok(ts) ==> (forall|j: int| 0 <= j < n && declares_mod_table(s, j) ==> exists|k: int|
            0 <= k < ts.len() && name_at(s.1, s.2[j].name) == Some("/Game/"@ + #[trigger] ts[k])),
    decreases n,
{
    if n > 0 {
        lemma_mod_tables(s, (n - 1) as nat);
        if let Ok(ts) = spec_mod_tables(s, n) {
            let prev = spec_mod_tables(s, (n - 1) as nat)->Ok_0;
            let imp = s.2[n - 1];
            if declares_mod_table(s, n - 1) {
                let nm = name_at(s.1, imp.name)->Some_0;
                reveal_strlit("/Game/Mods/");
                reveal_strlit("/Game/");
                assert(ts == prev.push(nm.skip("/Game/"@.len() as int)));
                assert(nm.len() >= 11);
                assert(nm.take(11) == "/Game/Mods/"@);
                assert forall|i: int| 0 <= i < 6 implies nm[i] == "/Game/"@[i] by {
                    assert(nm.take(11)[i] == nm[i]);
                }
                assert("/Game/"@ + nm.skip(6) =~= nm);
                assert forall|k: int| 0 <= k < ts.len() implies exists|j: int|
                    0 <= j < n && declares_mod_table(s, j) && name_at(s.1, s.2[j].name) == Some("/Game/"@ + #[trigger] ts[k]) by {
                    if k < prev.len() {
                        assert(ts[k] == prev[k]);
                    } else {
                        assert(name_at(s.1, s.2[n - 1].name) == Some("/Game/"@ + ts[k]));
                    }
                }
                assert forall|j: int| 0 <= j < n && declares_mod_table(s, j) implies exists|k: int|
                    0 <= k < ts.len() && name_at(s.1, s.2[j].name) == Some("/Game/"@ + #[trigger] ts[k]) by {
                    if j < n - 1 {
                        let k = choose|k: int| 0 <= k < prev.len() && name_at(s.1, s.2[j].name) == Some("/Game/"@ + #[trigger] prev[k]);
                        assert(ts[k] == prev[k]);
                    } else {
                        assert(ts[prev.len() as int] == nm.skip(6));
                    }
                }
            } else {
                assert(ts == prev);
            }
        }
    }
}

/// The map tables that a preloaded package declares: each is the name of an import that
/// declares a mod map table with exactly its leading `/Game/` removed, so it starts
/// with `Mods/`.
pub proof fn lemma_map_data_candidates(s: (u32, Seq<Seq<char>>, Seq<Import>, Seq<crate::game::engine::uasset::Export>))
    ensures
        spec_map_data_candidates(s) matches Ok(ts) ==> forall|k: int| 0 <= k < ts.len() ==> (exists|j: int|
            0 <= j < s.2.len() && declares_mod_table(s, j) && name_at(s.1, s.2[j].name) == Some("/Game/"@ + #[trigger] ts[k]))
            && has_prefix(ts[k], "Mods/"@),
{
    lemma_mod_tables(s, s.2.len());
    if let Ok(ts) = spec_map_data_candidates(s) {
        assert forall|k: int| 0 <= k < ts.len() implies (exists|j: int|
            0 <= j < s.2.len() && declares_mod_table(s, j) && name_at(s.1, s.2[j].name) == Some("/Game/"@ + #[trigger] ts[k]))
            && has_prefix(ts[k], "Mods/"@) by {
            let j = choose|j: int| 0 <= j < s.2.len() && declares_mod_table(s, j) && name_at(s.1, s.2[j].name) == Some("/Game/"@ + #[trigger] ts[k]);
            let nm = name_at(s.1, s.2[j].name)->Some_0;
            reveal_strlit("/Game/Mods/");
            reveal_strlit("/Game/");
            reveal_strlit("Mods/");
            assert(declares_mod_table(s, j));
            assert(nm == "/Game/"@ + ts[k]);
            assert(nm.len() >= 11);
            assert(nm.take(11) == "/Game/Mods/"@);
            assert(ts[k].len() >= 5);
            assert forall|i: int| 0 <= i < 5 implies ts[k][i] == "Mods/"@[i] by {
                assert(("/Game/"@ + ts[k])[6 + i] == ts[k][i]);
                assert(nm.take(11)[6 + i] == nm[6 + i]);
                assert("/Game/Mods/"@[6 + i] == "Mods/"@[i]);
            }
            assert(ts[k].take(5) =~= "Mods/"@);
        }
    }
}

fn name_text(pkg: &PackageSummary, i: NameIndex) -> (r: Option<Vec<char>>)
    ensures
        r matches Some(t) ==> name_at(strings_view(pkg.names@), i) == Some(t@),
        r is None ==> name_at(strings_view(pkg.names@), i) is None,
{
    if i.index < pkg.names.len() {
        let t = chars_of(pkg.names[i.index].as_str());
        assert(strings_view(pkg.names@)[i.index as int] == pkg.names@[i.index as int]@);
        Some(t)
    } else {
        None
    }
}

/// The extractor of maps.
pub struct MapExtractor;

impl MapExtractor {
    /// A new extractor.
    pub fn new() -> (r: Self) {
        MapExtractor
    }

    /// Whether import `i` of `pkg` is the map data table.
    pub fn is_map_data_table_import(&self, pkg: &PackageSummary, i: usize) -> (r: Result<bool, EngineError>)
        requires
            i < pkg.imports@.len(),
        ensures
            r == spec_is_map_data_table_import(pkg.view(), i as int),
    {
        let imp = pkg.imports[i];
        match imp.outer {
            ResourceIndex::Import(o) => {
                if o >= pkg.imports.len() {
                    return Err(EngineError::Malformed);
                }
                let n = match name_text(pkg, imp.name) {
                    Some(t) => t,
                    None => return Err(EngineError::Malformed),
                };
                if !chars_eq_str(n.as_slice(), "MapDataTable") {
                    return Ok(false);
                }
                let on = match name_text(pkg, pkg.imports[o].name) {
                    Some(t) => t,
                    None => return Err(EngineError::Malformed),
                };
                Ok(chars_eq_str(on.as_slice(), "/Game/Base/AlwaysCook/MapDataTable"))
            },
            ResourceIndex::Export(x) => {
                if x >= pkg.exports.len() {
                    Err(EngineError::Malformed)
                } else {
                    Ok(false)
                }
            },
            ResourceIndex::Null => Ok(false),
        }
    }

    /// The map table packages that a preloaded package declares, in import order.
    #[verifier::loop_isolation(false)]
    pub fn gather_map_data_candidates(&self, pkg: &PackageSummary) -> (r: Result<Vec<String>, EngineError>)
        ensures
            r matches Ok(v) ==> spec_map_data_candidates(pkg.view()) == Ok::<Seq<Seq<char>>, EngineError>(sv(v@)),
            r matches Err(e) ==> spec_map_data_candidates(pkg.view()) == Err::<Seq<Seq<char>>, EngineError>(e),
    {
        let n = pkg.imports.len();
        let mut i: usize = 0;
        let mut any = false;
        while i < n && !any
            invariant
                n == pkg.imports@.len(),
                i <= n,
                spec_any_map_data_table(pkg.view(), i as nat) == Ok::<bool, EngineError>(any),
            decreases n - i,
        {
            match self.is_map_data_table_import(pkg, i) {
                Ok(b) => {
                    any = b;
                },
                Err(e) => {
                    proof {
                        lemma_any_err(pkg.view(), (i + 1) as nat, n as nat);
                    }
                    return Err(e);
                },
            }
            i += 1;
        }
        if !any {
            assert(i == n);
            let v: Vec<String> = Vec::new();
            assert(sv(v@) =~= Seq::<Seq<char>>::empty());
            return Ok(v);
        }
        proof {
            lemma_any_stays_true(pkg.view(), i as nat, n as nat);
        }
        let mut out: Vec<String> = Vec::new();
        let mut k: usize = 0;
        assert(sv(out@) =~= Seq::<Seq<char>>::empty());
        while k < n
            invariant
                n == pkg.imports@.len(),
                k <= n,
                spec_mod_tables(pkg.view(), k as nat) == Ok::<Seq<Seq<char>>, EngineError>(sv(out@)),
            decreases n - k,
        {
            let imp = pkg.imports[k];
            let nm = match name_text(pkg, imp.name) {
                Some(t) => t,
                None => {
                    proof {
                        lemma_mod_tables_err(pkg.view(), (k + 1) as nat, n as nat);
                    }
                    return Err(EngineError::Malformed);
                },
            };
            if starts_with(nm.as_slice(), "/Game/Mods/") {
                let pk = match name_text(pkg, imp.package) {
                    Some(t) => t,
                    None => {
                        proof {
                            lemma_mod_tables_err(pkg.view(), (k + 1) as nat, n as nat);
                        }
                        return Err(EngineError::Malformed);
                    },
                };
                if chars_eq_str(pk.as_slice(), "/Script/CoreUObject") {
                    let plen = chars_of("/Game/").len();
                    proof {
                        assert(has_prefix(nm@, "/Game/Mods/"@));
                        assert(plen <= nm@.len()) by {
                            reveal_strlit("/Game/");
                            reveal_strlit("/Game/Mods/");
                        }
                    }
                    let rest = sub_chars(nm.as_slice(), plen, nm.len());
                    assert(rest@ == nm@.skip(plen as int));
                    let ghost old_out = out@;
                    out.push(string_of(rest.as_slice()));
                    assert(sv(out@) == sv(old_out).push(rest@));
                }
            }
            k += 1;
        }
        Ok(out)
    }
}

proof fn lemma_any_stays_true(s: (u32, Seq<Seq<char>>, Seq<Import>, Seq<crate::game::engine::uasset::Export>), i: nat, n: nat)
    requires
        i <= n,
        spec_any_map_data_table(s, i) == Ok::<bool, EngineError>(true),
    ensures
        spec_any_map_data_table(s, n) == Ok::<bool, EngineError>(true),
    decreases n - i,
{
    if i < n {
        lemma_any_stays_true(s, i + 1, n);
    }
}

proof fn lemma_any_err(s: (u32, Seq<Seq<char>>, Seq<Import>, Seq<crate::game::engine::uasset::Export>), i: nat, n: nat)
    requires
        i <= n,
        spec_any_map_data_table(s, i) is Err,
    ensures
        spec_any_map_data_table(s, n) == spec_any_map_data_table(s, i),
    decreases n - i,
{
    if i < n {
        lemma_any_err(s, i + 1, n);
    }
}

proof fn lemma_mod_tables_err(s: (u32, Seq<Seq<char>>, Seq<Import>, Seq<crate::game::engine::uasset::Export>), i: nat, n: nat)
    requires
        i <= n,
        spec_mod_tables(s, i) is Err,
    ensures
        spec_mod_tables(s, n) == spec_mod_tables(s, i),
    decreases n - i,
{
    if i < n {
        lemma_mod_tables_err(s, i + 1, n);
    }
}

// ---------------------------------------------------------------------------
// Map tables
// ---------------------------------------------------------------------------

/// A package summary as plain values.
pub type Sum = (u32, Seq<Seq<char>>, Seq<Import>, Seq<crate::game::engine::uasset::Export>);

/// Looks for the `DataTable` class import and the `MapDataRow` script struct import
/// among imports `i..`, stopping as soon as both are known (a later match replaces an
/// earlier one until then).
pub open spec fn spec_find_tables(s: Sum, i: int, dt: Option<usize>, mdr: Option<usize>) -> Result<(Option<usize>, Option<usize>), EngineError>
    decreases s.2.len() - i,
{
    if i < 0 || i >= s.2.len() {
        Ok((dt, mdr))
    } else {
        let imp = s.2[i];
        let step: Result<(Option<usize>, Option<usize>), EngineError> = match name_at(s.1, imp.name) {
            None => Err(EngineError::Malformed),
            Some(n) => if n == "DataTable"@ {
                match name_at(s.1, imp.class) {
                    None => Err(EngineError::Malformed),
                    Some(c) => if c == "Class"@ {
                        Ok((Some(i as usize), mdr))
                    } else {
                        Ok((dt, mdr))
                    },
                }
            } else if n == "MapDataRow"@ {
                match name_at(s.1, imp.class) {
                    None => Err(EngineError::Malformed),
                    Some(c) => if c == "ScriptStruct"@ {
                        Ok((dt, Some(i as usize)))
                    } else {
                        Ok((dt, mdr))
                    },
                }
            } else {
                Ok((dt, mdr))
            },
        };
        match step {
            Err(e) => Err(e),
            Ok((dt2, mdr2)) => if dt2 is Some && mdr2 is Some {
                Ok((dt2, mdr2))
            } else {
                spec_find_tables(s, i + 1, dt2, mdr2)
            },
        }
    }
}

/// What a row has given so far: display name, asset path, object name, database name.
pub type RowSt = (Option<Seq<char>>, Option<Seq<char>>, Option<Seq<char>>, Option<Seq<char>>);

/// Whether a row has given everything.
pub open spec fn row_complete(st: RowSt) -> bool {
    st.0 is Some && st.1 is Some && st.2 is Some && st.3 is Some
}

/// The map of a row, if it gave everything.
pub open spec fn row_map(st: RowSt) -> Option<MapView> {
    if row_complete(st) {
        Some((st.0->Some_0, st.1->Some_0, st.2->Some_0, st.3->Some_0))
    } else {
        None
    }
}

/// Reads the properties of a row from `p` on: what they gave and where they end. When
/// the row is the last one, reading stops as soon as everything is known.
pub open spec fn spec_row_props(names: Seq<Seq<char>>, w: Seq<u8>, p: int, last: bool, st: RowSt) -> Result<(RowSt, int), EngineError>
    decreases w.len() - p,
{
    if p < 0 || p > w.len() {
        Err(EngineError::UnexpectedEof)
    } else {
        match spec_property_tag(names, w, p) {
            Err(e) => Err(e),
            Ok((None, q)) => Ok((st, q)),
            Ok((Some(tag), q)) => {
                let n = names[tag.name.index as int];
                let step: Result<(RowSt, int), EngineError> = if n == "MapName"@ {
                    match spec_fstring(w, q) {
                        None => Err(EngineError::UnexpectedEof),
                        Some((t, q2)) => Ok(((Some(t), st.1, st.2, st.3), q2)),
                    }
                } else if n == "MapWorld"@ {
                    match spec_fstring(w, q) {
                        None => Err(EngineError::UnexpectedEof),
                        Some((t, q2)) => match find_char(t, '.') {
                            Some(j) => Ok(((st.0, Some(t.take(j)), Some(t.skip(j + 1)), st.3), q2)),
                            None => Ok((st, q2)),
                        },
                    }
                } else if n == "DBName"@ {
                    match spec_name(names, w, q) {
                        Err(e) => Err(e),
                        Ok((ni, q2)) => Ok(
                            (
                                (st.0, st.1, st.2, Some(name_with_instance(names[ni.index as int], ni.instance))),
                                q2,
                            ),
                        ),
                    }
                } else {
                    Ok((st, tag.skip_offset as int))
                };
                match step {
                    Err(e) => Err(e),
                    Ok((st2, x)) => if last && row_complete(st2) {
                        Ok((st2, x))
                    } else if x <= p {
                        Err(EngineError::Malformed)
                    } else if x > w.len() {
                        Err(EngineError::UnexpectedEof)
                    } else {
                        spec_row_props(names, w, x, last, st2)
                    },
                }
            },
        }
    }
}

/// Reads one row at `p` (an 8-byte row name, then its properties): its map, if it gave
/// everything, and where it ends.
pub open spec fn spec_row(names: Seq<Seq<char>>, w: Seq<u8>, p: int, last: bool) -> Result<(Option<MapView>, int), EngineError> {
    match spec_seek(p, 8) {
        Err(e) => Err(e),
        Ok(p0) => match spec_row_props(names, w, p0, last, (None, None, None, None)) {
            Err(e) => Err(e),
            Ok((st, q)) => Ok((row_map(st), q)),
        },
    }
}

/// Reads `k` rows at `p`, the last of which is read as the last row: the maps found and
/// the error that stopped reading, if any.
pub open spec fn spec_rows(names: Seq<Seq<char>>, w: Seq<u8>, p: int, k: nat) -> (Seq<MapView>, Option<EngineError>)
    decreases k,
{
    if k == 0 {
        (seq![], None)
    } else {
        match spec_row(names, w, p, k == 1) {
            Err(e) => (seq![], Some(e)),
            Ok((m, q)) => {
                let (rest, er) = spec_rows(names, w, q, (k - 1) as nat);
                (
                    match m {
                        Some(x) => seq![x] + rest,
                        None => rest,
                    },
                    er,
                )
            },
        }
    }
}

/// Scans the properties of a data table from `p` for its row struct: `None` when the
/// row struct is not the map data row (reading stops there) or is missing; otherwise
/// where the properties end.
pub open spec fn spec_row_struct(names: Seq<Seq<char>>, w: Seq<u8>, p: int, found: bool, mdr: usize) -> Result<Option<int>, EngineError>
    decreases w.len() - p,
{
    if p < 0 || p > w.len() {
        Err(EngineError::UnexpectedEof)
    } else {
        match spec_property_tag(names, w, p) {
            Err(e) => Err(e),
            Ok((None, q)) => if found {
                Ok(Some(q))
            } else {
                Ok(None)
            },
            Ok((Some(tag), q)) => {
                let step: Result<Option<(int, bool)>, EngineError> = if !found && names[tag.name.index as int] == "RowStruct"@ {
                    match spec_resource_index(w, q) {
                        None => Err(EngineError::UnexpectedEof),
                        Some((ri, q2)) => if ri != ResourceIndex::Import(mdr) {
                            Ok(None)
                        } else {
                            Ok(Some((q2, true)))
                        },
                    }
                } else {
                    Ok(Some((tag.skip_offset as int, found)))
                };
                match step {
                    Err(e) => Err(e),
                    Ok(None) => Ok(None),
                    Ok(Some((x, f))) => if x <= p {
                        Err(EngineError::Malformed)
                    } else if x > w.len() {
                        Err(EngineError::UnexpectedEof)
                    } else {
                        spec_row_struct(names, w, x, f, mdr)
                    },
                }
            },
        }
    }
}

/// The maps of a data table export `w` whose rows must be map data rows (import `mdr`),
/// and the error that stopped reading, if any.
pub open spec fn spec_export_maps(names: Seq<Seq<char>>, w: Seq<u8>, mdr: usize) -> (Seq<MapView>, Option<EngineError>) {
    match spec_row_struct(names, w, 0, false, mdr) {
        Err(e) => (seq![], Some(e)),
        Ok(None) => (seq![], None),
        Ok(Some(p)) => match spec_u32(w, p) {
            None => (seq![], Some(EngineError::UnexpectedEof)),
            Some((g, p1)) => {
                let p2: Result<int, EngineError> = if g != 0 {
                    spec_seek(p1, 16)
                } else {
                    Ok(p1)
                };
                match p2 {
                    Err(e) => (seq![], Some(e)),
                    Ok(p2) => match spec_u32(w, p2) {
                        None => (seq![], Some(EngineError::UnexpectedEof)),
                        Some((rows, p3)) => spec_rows(names, w, p3, rows as nat),
                    },
                }
            },
        }
    }
}

/// The maps of the first `n` exports of a package, read from its `.uexp` data: those of
/// each export whose class is the data table import `dt`; and the error that stopped
/// reading, if any.
pub open spec fn spec_pkg_exports(s: Sum, uexp: Result<Seq<u8>, EngineError>, dt: usize, mdr: usize, n: nat) -> (Seq<MapView>, Option<EngineError>)
    decreases n,
{
    if n == 0 {
        (seq![], None)
    } else {
        let prev = spec_pkg_exports(s, uexp, dt, mdr, (n - 1) as nat);
        if prev.1 is Some {
            prev
        } else {
            let e = s.3[n - 1];
            if e.class != ResourceIndex::Import(dt) {
                prev
            } else {
                match uexp {
                    Err(err) => (prev.0, Some(err)),
                    Ok(bytes) => {
                        let w = super::property::spec_window(bytes, e.offset, s.0, e.size);
                        let (ms, er) = spec_export_maps(s.1, w, mdr);
                        (prev.0 + ms, er)
                    },
                }
            }
        }
    }
}

/// The maps of a package that holds a map table, and the error that stopped reading.
pub open spec fn spec_pkg_maps(s: Sum, uexp: Result<Seq<u8>, EngineError>) -> (Seq<MapView>, Option<EngineError>) {
    match spec_find_tables(s, 0, None, None) {
        Err(e) => (seq![], Some(e)),
        Ok((Some(dt), Some(mdr))) => spec_pkg_exports(s, uexp, dt, mdr, s.3.len()),
        Ok(_) => (seq![], None),
    }
}

/// The view of the `.uexp` data that a caller hands over.
pub open spec fn uexp_view(u: Result<Vec<u8>, EngineError>) -> Result<Seq<u8>, EngineError> {
    match u {
        Ok(v) => Ok(v@),
        Err(e) => Err(e),
    }
}

/// Appends `m` to `maps` when it is complete.
fn push_row_map(maps: &mut Vec<MapInfo>, st: &(Option<Vec<char>>, Option<Vec<char>>, Option<Vec<char>>, Option<Vec<char>>))
    ensures
        maps_view(final(maps)@) == maps_view(old(maps)@) + (match row_map(row_st_view(*st)) {
            Some(x) => seq![x],
            None => Seq::<MapView>::empty(),
        }),
{
    match st {
        (Some(a), Some(b), Some(c), Some(d)) => {
            let ghost old_maps = maps@;
            maps.push(MapInfo {
                display_name: string_of(a.as_slice()),
                asset_path: string_of(b.as_slice()),
                object_name: string_of(c.as_slice()),
                db_name: string_of(d.as_slice()),
            });
            assert(maps_view(maps@) =~= maps_view(old_maps) + seq![(a@, b@, c@, d@)]);
        },
        _ => {
            assert(maps_view(maps@) =~= maps_view(maps@) + Seq::<MapView>::empty());
        },
    }
}

/// The view of a row's state.
pub open spec fn row_st_view(st: (Option<Vec<char>>, Option<Vec<char>>, Option<Vec<char>>, Option<Vec<char>>)) -> RowSt {
    (
        match st.0 { Some(v) => Some(v@), None => None },
        match st.1 { Some(v) => Some(v@), None => None },
        match st.2 { Some(v) => Some(v@), None => None },
        match st.3 { Some(v) => Some(v@), None => None },
    )
}

impl MapExtractor {
    /// Finds the data table and map data row imports of `pkg`.
    pub fn find_tables(&self, pkg: &PackageSummary) -> (r: Result<(Option<usize>, Option<usize>), EngineError>)
        ensures
            r == spec_find_tables(pkg.view(), 0, None, None),
    {
        let mut dt: Option<usize> = None;
        let mut mdr: Option<usize> = None;
        let mut i: usize = 0;
        while i < pkg.imports.len()
            invariant
                i <= pkg.imports@.len(),
                spec_find_tables(pkg.view(), 0, None, None) == spec_find_tables(pkg.view(), i as int, dt, mdr),
            decreases pkg.imports.len() - i,
        {
            let imp = pkg.imports[i];
            let n = match name_text(pkg, imp.name) {
                Some(t) => t,
                None => return Err(EngineError::Malformed),
            };
            if chars_eq_str(n.as_slice(), "DataTable") {
                let c = match name_text(pkg, imp.class) {
                    Some(t) => t,
                    None => return Err(EngineError::Malformed),
                };
                if chars_eq_str(c.as_slice(), "Class") {
                    dt = Some(i);
                }
            } else if chars_eq_str(n.as_slice(), "MapDataRow") {
                let c = match name_text(pkg, imp.class) {
                    Some(t) => t,
                    None => return Err(EngineError::Malformed),
                };
                if chars_eq_str(c.as_slice(), "ScriptStruct") {
                    mdr = Some(i);
                }
            }
            if dt.is_some() && mdr.is_some() {
                return Ok((dt, mdr));
            }
            i += 1;
        }
        Ok((dt, mdr))
    }

    /// Reads the row struct of a data table export: `None` when reading must stop without
    /// maps, otherwise the reader stands where the properties end.
    fn row_struct(&self, pkg: &PackageSummary, exp: &mut ExportReader, mdr: usize) -> (r: Result<bool, EngineError>)
        requires
            old(exp).pos() == 0,
        ensures
            final(exp).data() == old(exp).data(),
            r matches Ok(true) ==> spec_row_struct(strings_view(pkg.names@), old(exp).data(), 0, false, mdr) == Ok::<Option<int>, EngineError>(Some(final(exp).pos())),
            r matches Ok(false) ==> spec_row_struct(strings_view(pkg.names@), old(exp).data(), 0, false, mdr) == Ok::<Option<int>, EngineError>(None),
            r matches Err(e) ==> spec_row_struct(strings_view(pkg.names@), old(exp).data(), 0, false, mdr) == Err::<Option<int>, EngineError>(e),
    {
        let ghost names = strings_view(pkg.names@);
        let ghost w = exp.data();
        let mut found = false;
        loop
            invariant
                exp.data() == w,
                w == old(exp).data(),
                names == strings_view(pkg.names@),
                0 <= exp.pos() <= w.len(),
                spec_row_struct(names, w, 0, false, mdr) == spec_row_struct(names, w, exp.pos(), found, mdr),
            decreases w.len() - exp.pos(),
        {
            let p = exp.position();
            let tag = exp.read_property_tag(pkg)?;
            match tag {
                None => {
                    return Ok(found);
                },
                Some(tag) => {
                    let tn = name_text(pkg, tag.name).unwrap();
                    let x: u64;
                    let f: bool;
                    if !found && chars_eq_str(tn.as_slice(), "RowStruct") {
                        let ri = exp.read_resource_index()?;
                        if ri != ResourceIndex::Import(mdr) {
                            return Ok(false);
                        }
                        x = exp.position();
                        f = true;
                    } else {
                        x = tag.skip_offset;
                        f = found;
                    }
                    if x <= p {
                        return Err(EngineError::Malformed);
                    }
                    if x > exp.len() as u64 {
                        return Err(EngineError::UnexpectedEof);
                    }
                    exp.seek_to(x);
                    found = f;
                },
            }
        }
    }
}


impl MapExtractor {
    /// Reads one row of a map table (its name, then its properties) and appends its map
    /// when the row gives everything. When `last_row`, reading stops as soon as it does.
    #[verifier::loop_isolation(false)]
    #[verifier::spinoff_prover]
    pub fn extract_row_map_info(
        &self,
        exp: &mut ExportReader,
        pkg: &PackageSummary,
        last_row: bool,
        maps: &mut Vec<MapInfo>,
    ) -> (r: Result<(), EngineError>)
        ensures
            final(exp).data() == old(exp).data(),
            match spec_row(strings_view(pkg.names@), old(exp).data(), old(exp).pos(), last_row) {
                Err(e) => r == Err::<(), EngineError>(e) && final(maps)@ == old(maps)@,
                Ok((m, q)) => r is Ok && final(exp).pos() == q && maps_view(final(maps)@)
                    == maps_view(old(maps)@) + (match m {
                    Some(x) => seq![x],
                    None => Seq::<MapView>::empty(),
                }),
            },
    {
        let ghost names = strings_view(pkg.names@);
        let ghost w = exp.data();
        exp.seek_forward(8)?;
        if exp.position() > exp.len() as u64 {
            return Err(EngineError::UnexpectedEof);
        }
        let ghost p0 = exp.pos();
        let mut st: (Option<Vec<char>>, Option<Vec<char>>, Option<Vec<char>>, Option<Vec<char>>) = (
            None,
            None,
            None,
            None,
        );
        loop
            invariant
                exp.data() == w,
                0 <= exp.pos() <= w.len(),
                spec_row_props(names, w, p0, last_row, (None, None, None, None))
                    == spec_row_props(names, w, exp.pos(), last_row, row_st_view(st)),
            decreases w.len() - exp.pos(),
        {
            let p = exp.position();
            let tag = exp.read_property_tag(pkg)?;
            let tag = match tag {
                None => {
                    break ;
                },
                Some(t) => t,
            };
            let tn = name_text(pkg, tag.name).unwrap();
            let x: u64;
            if chars_eq_str(tn.as_slice(), "MapName") {
                let t = exp.read_fstring()?;
                st.0 = Some(t);
                x = exp.position();
            } else if chars_eq_str(tn.as_slice(), "MapWorld") {
                let t = exp.read_fstring()?;
                match find_char_exec(t.as_slice(), '.') {
                    Some(j) => {
                        st.1 = Some(sub_chars(t.as_slice(), 0, j));
                        st.2 = Some(sub_chars(t.as_slice(), j + 1, t.len()));
                        assert(st.1.unwrap()@ == t@.take(j as int));
                        assert(st.2.unwrap()@ == t@.skip(j + 1));
                    },
                    None => {},
                }
                x = exp.position();
            } else if chars_eq_str(tn.as_slice(), "DBName") {
                let ni = exp.read_name(pkg)?;
                let s = pkg.name_ref(ni).to_string();
                st.3 = Some(chars_of(s.as_str()));
                x = exp.position();
            } else {
                x = tag.skip_offset;
            }
            if last_row && st.0.is_some() && st.1.is_some() && st.2.is_some() && st.3.is_some() {
                exp.seek_to(x);
                break ;
            }
            if x <= p {
                return Err(EngineError::Malformed);
            }
            if x > exp.len() as u64 {
                return Err(EngineError::UnexpectedEof);
            }
            exp.seek_to(x);
        }
        push_row_map(maps, &st);
        Ok(())
    }
}


/// The maps found and the error that stopped reading, as a result.
pub open spec fn outcome(er: Option<EngineError>) -> Result<(), EngineError> {
    match er {
        Some(e) => Err(e),
        None => Ok(()),
    }
}

impl MapExtractor {
    /// Reads the maps of a data table export whose rows must be map data rows (import
    /// `mdr`), appending them to `maps`.
    #[verifier::loop_isolation(false)]
    #[verifier::spinoff_prover]
    pub fn gather_export_maps(
        &self,
        pkg: &PackageSummary,
        exp: ExportReader,
        mdr: usize,
        maps: &mut Vec<MapInfo>,
    ) -> (r: Result<(), EngineError>)
        requires
            exp.pos() == 0,
        ensures
            maps_view(final(maps)@) == maps_view(old(maps)@) + spec_export_maps(
                strings_view(pkg.names@),
                exp.data(),
                mdr,
            ).0,
            r == outcome(spec_export_maps(strings_view(pkg.names@), exp.data(), mdr).1),
    {
        let ghost names = strings_view(pkg.names@);
        let ghost w = exp.data();
        let ghost m0 = maps@;
        let mut exp = exp;
        let found = match self.row_struct(pkg, &mut exp, mdr) {
            Ok(f) => f,
            Err(e) => {
                assert(maps_view(maps@) =~= maps_view(m0) + Seq::<MapView>::empty());
                return Err(e);
            },
        };
        if !found {
            assert(maps_view(maps@) =~= maps_view(m0) + Seq::<MapView>::empty());
            return Ok(());
        }
        let g = match exp.read_u32() {
            Ok(g) => g,
            Err(e) => {
                assert(maps_view(maps@) =~= maps_view(m0) + Seq::<MapView>::empty());
                return Err(e);
            },
        };
        if g != 0 {
            match exp.seek_forward(16) {
                Ok(()) => {},
                Err(e) => {
                    assert(maps_view(maps@) =~= maps_view(m0) + Seq::<MapView>::empty());
                    return Err(e);
                },
            }
        }
        let rows = match exp.read_u32() {
            Ok(n) => n,
            Err(e) => {
                assert(maps_view(maps@) =~= maps_view(m0) + Seq::<MapView>::empty());
                return Err(e);
            },
        };
        let r = self.read_rows(pkg, &mut exp, rows, maps);
        r
    }

    /// Reads `rows` rows of a map table, the last of which as the last row, appending
    /// their maps to `maps`.
    #[verifier::rlimit(40)]
    #[verifier::spinoff_prover]
    fn read_rows(&self, pkg: &PackageSummary, exp: &mut ExportReader, rows: u32, maps: &mut Vec<MapInfo>) -> (r: Result<(), EngineError>)
        ensures
            final(exp).data() == old(exp).data(),
            maps_view(final(maps)@) == maps_view(old(maps)@) + spec_rows(
                strings_view(pkg.names@),
                old(exp).data(),
                old(exp).pos(),
                rows as nat,
            ).0,
            r == outcome(spec_rows(strings_view(pkg.names@), old(exp).data(), old(exp).pos(), rows as nat).1),
    {
        let ghost names = strings_view(pkg.names@);
        let ghost w = exp.data();
        let ghost p3 = exp.pos();
        let ghost m0 = maps@;
        let ghost mut done: Seq<MapView> = Seq::empty();
        let mut i: u32 = rows;
        assert(maps_view(maps@) =~= maps_view(m0) + done);
        assert(spec_rows(names, w, p3, rows as nat).0 =~= done + spec_rows(names, w, p3, rows as nat).0);
        while i > 0
            invariant
                names == strings_view(pkg.names@),
                w == old(exp).data(),
                p3 == old(exp).pos(),
                m0 == old(maps)@,
                exp.data() == w,
                i <= rows,
                maps_view(maps@) == maps_view(m0) + done,
                spec_rows(names, w, p3, rows as nat) == (
                    done + spec_rows(names, w, exp.pos(), i as nat).0,
                    spec_rows(names, w, exp.pos(), i as nat).1,
                ),
            decreases i,
        {
            let ghost pos = exp.pos();
            let res = self.extract_row_map_info(exp, pkg, i == 1, maps);
            match res {
                Ok(()) => {
                    proof {
                        let (m, q) = spec_row(names, w, pos, i == 1).unwrap();
                        let add = match m {
                            Some(x) => seq![x],
                            None => Seq::<MapView>::empty(),
                        };
                        let rest = spec_rows(names, w, q, (i - 1) as nat);
                        assert(spec_rows(names, w, pos, i as nat).0 == add + rest.0);
                        assert(done + (add + rest.0) =~= (done + add) + rest.0);
                        assert(maps_view(maps@) =~= maps_view(m0) + (done + add));
                        done = done + add;
                    }
                },
                Err(e) => {
                    proof {
                        assert(done + Seq::<MapView>::empty() =~= done);
                    }
                    return Err(e);
                },
            }
            i -= 1;
        }
        assert(done + Seq::<MapView>::empty() =~= done);
        Ok(())
    }

    /// Reads the maps of a package that may hold a map table, appending them to `maps`.
    /// `uexp` is the package's `.uexp` data, or the error that reading it gave; it is
    /// used only when the package exports a data table.
    #[verifier::loop_isolation(false)]
    #[verifier::rlimit(40)]
    #[verifier::spinoff_prover]
    pub fn gather_pkg_maps(
        &self,
        pkg: &Package,
        uexp: &Result<Vec<u8>, EngineError>,
        maps: &mut Vec<MapInfo>,
    ) -> (r: Result<(), EngineError>)
        ensures
            maps_view(final(maps)@) == maps_view(old(maps)@) + spec_pkg_maps(
                pkg.summary.view(),
                uexp_view(*uexp),
            ).0,
            r == outcome(spec_pkg_maps(pkg.summary.view(), uexp_view(*uexp)).1),
    {
        let ghost s = pkg.summary.view();
        let ghost u = uexp_view(*uexp);
        let ghost m0 = maps@;
        let found = match self.find_tables(&pkg.summary) {
            Ok(f) => f,
            Err(e) => {
                assert(maps_view(maps@) =~= maps_view(m0) + Seq::<MapView>::empty());
                return Err(e);
            },
        };
        let (dt, mdr) = match found {
            (Some(dt), Some(mdr)) => (dt, mdr),
            _ => {
                assert(maps_view(maps@) =~= maps_view(m0) + Seq::<MapView>::empty());
                return Ok(());
            },
        };
        let n = pkg.summary.exports.len();
        let mut k: usize = 0;
        assert(maps_view(maps@) =~= maps_view(m0) + spec_pkg_exports(s, u, dt, mdr, 0).0);
        while k < n
            invariant
                n == s.3.len(),
                k <= n,
                spec_pkg_exports(s, u, dt, mdr, k as nat).1 is None,
                maps_view(maps@) == maps_view(m0) + spec_pkg_exports(s, u, dt, mdr, k as nat).0,
            decreases n - k,
        {
            let e = pkg.summary.exports[k];
            if e.class == ResourceIndex::Import(dt) {
                let ghost before = maps@;
                let ghost prev = spec_pkg_exports(s, u, dt, mdr, k as nat);
                match uexp {
                    Err(err) => {
                        proof {
                            lemma_pkg_exports_err(s, u, dt, mdr, (k + 1) as nat, n as nat);
                        }
                        return Err(err.copy());
                    },
                    Ok(bytes) => {
                        let reader = pkg.open_export(k, bytes.as_slice());
                        let res = self.gather_export_maps(&pkg.summary, reader, mdr, maps);
                        proof {
                            let w = super::property::spec_window(bytes@, e.offset, s.0, e.size);
                            assert(maps_view(maps@) =~= maps_view(m0) + spec_pkg_exports(s, u, dt, mdr, (k + 1) as nat).0);
                        }
                        match res {
                            Ok(()) => {},
                            Err(er) => {
                                proof {
                                    lemma_pkg_exports_err(s, u, dt, mdr, (k + 1) as nat, n as nat);
                                }
                                return Err(er);
                            },
                        }
                    },
                }
            }
            k += 1;
        }
        Ok(())
    }
}

proof fn lemma_pkg_exports_err(s: Sum, u: Result<Seq<u8>, EngineError>, dt: usize, mdr: usize, i: nat, n: nat)
    requires
        i <= n,
        spec_pkg_exports(s, u, dt, mdr, i).1 is Some,
    ensures
        spec_pkg_exports(s, u, dt, mdr, n) == spec_pkg_exports(s, u, dt, mdr, i),
    decreases n - i,
{
    if i < n {
        lemma_pkg_exports_err(s, u, dt, mdr, i + 1, n);
    }
}


/// The maps of the base game, given the data of the `.uasset` and `.uexp` entries of its
/// map table (or the errors that reading them gave), and the error that stopped reading.
pub open spec fn spec_base_game_maps(
    uasset: Result<Seq<u8>, EngineError>,
    uexp: Result<Seq<u8>, EngineError>,
) -> (Seq<MapView>, Option<EngineError>) {
    match uasset {
        Err(e) => (seq![], Some(e)),
        Ok(d) => match spec_summary(d) {
            Err(e) => (seq![], Some(e)),
            Ok(s) => spec_pkg_maps(s, uexp),
        },
    }
}

impl MapExtractor {
    /// Reads the maps of the base game from the data of the `.uasset` and `.uexp`
    /// entries of its map table (`BASE_MAP_DATA_TABLE`), appending them to `maps`.
    pub fn extract_base_game_maps(
        &self,
        uasset: &Result<Vec<u8>, EngineError>,
        uexp: &Result<Vec<u8>, EngineError>,
        maps: &mut Vec<MapInfo>,
    ) -> (r: Result<(), EngineError>)
        ensures
            maps_view(final(maps)@) == maps_view(old(maps)@) + spec_base_game_maps(
                uexp_view(*uasset),
                uexp_view(*uexp),
            ).0,
            r == outcome(spec_base_game_maps(uexp_view(*uasset), uexp_view(*uexp)).1),
    {
        let d = match uasset {
            Ok(d) => d,
            Err(e) => {
                assert(maps_view(maps@) =~= maps_view(maps@) + Seq::<MapView>::empty());
                return Err(e.copy());
            },
        };
        let pkg = match Package::new(BASE_MAP_DATA_TABLE.to_string(), d.as_slice()) {
            Ok(p) => p,
            Err(e) => {
                assert(maps_view(maps@) =~= maps_view(maps@) + Seq::<MapView>::empty());
                return Err(e);
            },
        };
        self.gather_pkg_maps(&pkg, uexp, maps)
    }
}

/// The data of a package's `.uasset` and `.uexp` entries, or the errors that reading them
/// gave, as plain values.
pub open spec fn entry_pair_view(p: (Result<Vec<u8>, EngineError>, Result<Vec<u8>, EngineError>)) -> (
    Result<Seq<u8>, EngineError>,
    Result<Seq<u8>, EngineError>,
) {
    (uexp_view(p.0), uexp_view(p.1))
}

/// The maps of the first `n` map tables of a mod, read in order until one gives an
/// error; and that error, if any.
pub open spec fn spec_mod_maps(
    tables: Seq<(Result<Vec<u8>, EngineError>, Result<Vec<u8>, EngineError>)>,
    n: nat,
) -> (Seq<MapView>, Option<EngineError>)
    decreases n,
{
    if n == 0 {
        (seq![], None)
    } else {
        let prev = spec_mod_maps(tables, (n - 1) as nat);
        if prev.1 is Some {
            prev
        } else {
            let t = entry_pair_view(tables[n - 1]);
            let (ms, er) = spec_base_game_maps(t.0, t.1);
            (prev.0 + ms, er)
        }
    }
}

/// The map tables that the first `n` preloaded packages of a mod declare, in order; or
/// the first error.
pub open spec fn spec_mod_map_tables(preloads: Seq<Package>, n: nat) -> Result<Seq<Seq<char>>, EngineError>
    decreases n,
{
    if n == 0 {
        Ok(seq![])
    } else {
        match spec_mod_map_tables(preloads, (n - 1) as nat) {
            Err(e) => Err(e),
            Ok(prev) => match spec_map_data_candidates(preloads[n - 1].summary.view()) {
                Err(e) => Err(e),
                Ok(c) => Ok(prev + c),
            },
        }
    }
}

impl MapExtractor {
    /// The map tables that the preloaded packages of a mod declare, in order.
    pub fn mod_map_tables(&self, preloads: &[Package]) -> (r: Result<Vec<String>, EngineError>)
        ensures
            r matches Ok(v) ==> spec_mod_map_tables(preloads@, preloads@.len()) == Ok::<Seq<Seq<char>>, EngineError>(sv(v@)),
            r matches Err(e) ==> spec_mod_map_tables(preloads@, preloads@.len()) == Err::<Seq<Seq<char>>, EngineError>(e),
    {
        let mut out: Vec<String> = Vec::new();
        let mut i: usize = 0;
        assert(sv(out@) =~= Seq::<Seq<char>>::empty());
        while i < preloads.len()
            invariant
                i <= preloads@.len(),
                spec_mod_map_tables(preloads@, i as nat) == Ok::<Seq<Seq<char>>, EngineError>(sv(out@)),
            decreases preloads.len() - i,
        {
            match self.gather_map_data_candidates(&preloads[i].summary) {
                Ok(c) => {
                    let ghost before = sv(out@);
                    let mut j: usize = 0;
                    while j < c.len()
                        invariant
                            j <= c@.len(),
                            sv(out@) == before + sv(c@.take(j as int)),
                        decreases c.len() - j,
                    {
                        let ghost old_out = out@;
                        out.push(c[j].clone());
                        assert(sv(out@) =~= sv(old_out).push(c@[j as int]@));
                        assert(sv(c@.take(j + 1)) =~= sv(c@.take(j as int)).push(c@[j as int]@));
                        assert(sv(out@) =~= before + sv(c@.take(j + 1)));
                        j += 1;
                    }
                    assert(c@.take(c@.len() as int) == c@);
                },
                Err(e) => {
                    proof {
                        lemma_mod_map_tables_err(preloads@, (i + 1) as nat, preloads@.len());
                    }
                    return Err(e);
                },
            }
            i += 1;
        }
        Ok(out)
    }

    /// Reads the maps of a mod from the data of the `.uasset` and `.uexp` entries of each
    /// of its map tables (or the errors that reading them gave), in order, appending them
    /// to `maps`; reading stops at the first error.
    #[verifier::spinoff_prover]
    #[verifier::rlimit(40)]
    pub fn extract_mod_maps(
        &self,
        tables: &[(Result<Vec<u8>, EngineError>, Result<Vec<u8>, EngineError>)],
        maps: &mut Vec<MapInfo>,
    ) -> (r: Result<(), EngineError>)
        ensures
            maps_view(final(maps)@) == maps_view(old(maps)@) + spec_mod_maps(tables@, tables@.len()).0,
            r == outcome(spec_mod_maps(tables@, tables@.len()).1),
    {
        let ghost m0 = maps@;
        let mut i: usize = 0;
        assert(maps_view(maps@) =~= maps_view(m0) + spec_mod_maps(tables@, 0).0);
        while i < tables.len()
            invariant
                i <= tables@.len(),
                m0 == old(maps)@,
                spec_mod_maps(tables@, i as nat).1 is None,
                maps_view(maps@) == maps_view(m0) + spec_mod_maps(tables@, i as nat).0,
            decreases tables.len() - i,
        {
            let ghost before = maps@;
            let res = self.extract_base_game_maps(&tables[i].0, &tables[i].1, maps);
            proof {
                assert(maps_view(maps@) =~= maps_view(m0) + spec_mod_maps(tables@, (i + 1) as nat).0);
            }
            match res {
                Ok(()) => {},
                Err(e) => {
                    proof {
                        lemma_mod_maps_err(tables@, (i + 1) as nat, tables@.len());
                    }
                    return Err(e);
                },
            }
            i += 1;
        }
        Ok(())
    }
}

proof fn lemma_mod_map_tables_err(preloads: Seq<Package>, i: nat, n: nat)
    requires
        i <= n,
        spec_mod_map_tables(preloads, i) is Err,
    ensures
        spec_mod_map_tables(preloads, n) == spec_mod_map_tables(preloads, i),
    decreases n - i,
{
    if i < n {
        lemma_mod_map_tables_err(preloads, i + 1, n);
    }
}

proof fn lemma_mod_maps_err(
    tables: Seq<(Result<Vec<u8>, EngineError>, Result<Vec<u8>, EngineError>)>,
    i: nat,
    n: nat,
)
    requires
        i <= n,
        spec_mod_maps(tables, i).1 is Some,
    ensures
        spec_mod_maps(tables, n) == spec_mod_maps(tables, i),
    decreases n - i,
{
    if i < n {
        lemma_mod_maps_err(tables, i + 1, n);
    }
}

} // verus!
