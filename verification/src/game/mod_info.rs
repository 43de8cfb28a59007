//! Installed mods: what a mod's `modinfo.json` says of it, and the references that mod
//! lists hold.
use vstd::prelude::*;

use super::engine::bytes::le_units;
use super::engine::pak::{Archive, ArchiveEntry, EngineError, has_path};
use super::Branch;
use crate::text::{chars_le, chars_of, decimal_digits, lemma_lex_total, lex_le, parse_u64, parse_u64_spec, push_decimal, str_eq};
use vstd::multiset::Multiset;

verus! {

/// The version of a mod: major, minor and build numbers.
#[derive(Debug, Clone, Copy, PartialEq, Eq, Structural)]
pub struct ModVersion {
    pub major: u64,
    pub minor: u64,
    pub build: u64,
}

impl ModVersion {
    /// The version as `major.minor.build`.
    pub fn to_string(&self) -> (r: String)
        ensures
            r@ == decimal_digits(self.major as nat) + seq!['.'] + decimal_digits(self.minor as nat)
                + seq!['.'] + decimal_digits(self.build as nat),
    {
        let mut s = String::new();
        push_decimal(&mut s, self.major);
        s.push('.');
        push_decimal(&mut s, self.minor);
        s.push('.');
        push_decimal(&mut s, self.build);
        s
    }
}

/// What a mod's `modinfo.json` says of it, and where its archive is.
#[derive(Debug)]
pub struct ModInfo {
    pub name: String,
    pub description: String,
    pub change_notes: String,
    pub author: String,
    pub author_url: String,
    pub version: ModVersion,
    pub requires_load_on_startup: bool,
    pub live_steam_file_id: String,
    pub testlive_steam_file_id: Option<String>,
    pub folder_name: String,
    pub revision_number: u64,
    pub snapshot_id: u64,
    pub pak_path: String,
}

/// The Steam file id of a mod on `branch`: the live id on the main branch, the test-live
/// id (if any) on the public beta, read as a number.
pub open spec fn spec_steam_file_id(m: ModInfo, branch: Branch) -> Option<u64> {
    match branch {
        Branch::Main => parse_u64_spec(m.live_steam_file_id@),
        Branch::PublicBeta => match m.testlive_steam_file_id {
            Some(id) => parse_u64_spec(id@),
            None => None,
        },
    }
}

impl ModInfo {
    /// The Steam file id of the mod on `branch`, if it has one that is a number.
    pub fn steam_file_id(&self, branch: Branch) -> (r: Option<u64>)
        ensures
            r == spec_steam_file_id(*self, branch),
    {
        match branch {
            Branch::Main => {
                let cs = chars_of(self.live_steam_file_id.as_str());
                parse_u64(cs.as_slice())
            },
            Branch::PublicBeta => match &self.testlive_steam_file_id {
                Some(id) => {
                    let cs = chars_of(id.as_str());
                    parse_u64(cs.as_slice())
                },
                None => None,
            },
        }
    }
}

// ---------------------------------------------------------------------------
// modinfo.json
// ---------------------------------------------------------------------------

/// The path of a mod's description in its archive.
pub const MODINFO_PATH: &'static str = "modinfo.json";

/// The entry of a mod's description: an error when the archive has none or it is
/// encrypted.
pub fn modinfo_entry(pak: &Archive) -> (r: Result<&ArchiveEntry, EngineError>)
    ensures
        r matches Ok(e) ==> e.path@ == MODINFO_PATH@ && !e.encrypted,
        r matches Err(err) ==> (!has_path(pak.view(), MODINFO_PATH@) && (err matches EngineError::EntryNotFound(s) && s@ == MODINFO_PATH@)) || err == EngineError::Encrypted,
{
    pak.open_entry(MODINFO_PATH)
}

/// The UTF-8 bytes of one UCS-2 unit, as `ucs2::decode` writes them: one byte below
/// 0x80, two below 0x800, three otherwise (surrogates included).
pub open spec fn ucs2_unit_bytes(u: u16) -> Seq<u8> {
    if u < 0x80 {
        seq![u as u8]
    } else if u < 0x800 {
        seq![(0xc0 + u / 64) as u8, (0x80 + u % 64) as u8]
    } else {
        seq![(0xe0 + u / 4096) as u8, (0x80 + (u / 64) % 64) as u8, (0x80 + u % 64) as u8]
    }
}

/// The UTF-8 bytes of UCS-2 units, one unit after the other.
pub open spec fn ucs2_bytes(units: Seq<u16>) -> Seq<u8>
    decreases units.len(),
{
    if units.len() == 0 {
        seq![]
    } else {
        ucs2_bytes(units.drop_last()) + ucs2_unit_bytes(units.last())
    }
}

proof fn lemma_ucs2_bytes_len(units: Seq<u16>)
    ensures
        ucs2_bytes(units).len() <= 3 * units.len(),
    decreases units.len(),
{
    if units.len() > 0 {
        lemma_ucs2_bytes_len(units.drop_last());
    }
}

/// Calls `ucs2::decode` on `output`. When `output` has room for three bytes per
/// unit (the most that a unit takes), the UTF-8 bytes of `units` are written at its start
/// and their number is returned; the length of `output` stays. `ucs2::decode` fails only
/// when the room runs out.
#[verifier::external_body]
fn ucs2_decode(units: &[u16], output: &mut Vec<u8>) -> (n: usize)
    requires
        old(output)@.len() >= 3 * units@.len(),
    ensures
        final(output)@.len() == old(output)@.len(),
        n == ucs2_bytes(units@).len(),
        final(output)@.take(n as int) == ucs2_bytes(units@),
{
    match ucs2::decode(units, output.as_mut_slice()) {
        Ok(n) => n,
        Err(_) => 0,
    }
}

/// Converts UCS-2 units to UTF-8, through a buffer of three bytes per unit.
fn ucs2_to_utf8(units: &[u16]) -> (r: Vec<u8>)
    requires
        units.len() * 3 <= usize::MAX,
    ensures
        r@ == ucs2_bytes(units@),
{
    let mut buf = vec![0u8; units.len() * 3];
    let n = ucs2_decode(units, &mut buf);
    proof {
        lemma_ucs2_bytes_len(units@);
    }
    buf.truncate(n);
    assert(buf@ =~= ucs2_bytes(units@));
    buf
}

/// The JSON text of a mod's description, from the data of its entry: when the data starts
/// with the UTF-16 byte-order mark (`FF FE`), its UCS-2 units re-encoded as UTF-8 (an odd
/// last byte is dropped); otherwise the data as it is.
pub open spec fn spec_modinfo_json(d: Seq<u8>) -> Result<Seq<u8>, EngineError> {
    if d.len() < 2 {
        Err(EngineError::UnexpectedEof)
    } else if d[0] == 0xff && d[1] == 0xfe {
        Ok(ucs2_bytes(le_units(d.skip(2))))
    } else {
        Ok(d)
    }
}

/// The JSON text of a mod's description, from the data of its entry.
pub fn modinfo_json(data: &[u8]) -> (r: Result<Vec<u8>, EngineError>)
    requires
        data.len() <= isize::MAX,
    ensures
        r matches Ok(b) ==> spec_modinfo_json(data@) == Ok::<Seq<u8>, EngineError>(b@),
        r matches Err(e) ==> spec_modinfo_json(data@) == Err::<Seq<u8>, EngineError>(e),
{
    if data.len() < 2 {
        return Err(EngineError::UnexpectedEof);
    }
    if data[0] == 0xff && data[1] == 0xfe {
        let n = (data.len() - 2) / 2;
        assert(2 * n + 2 <= data@.len()) by (nonlinear_arith)
            requires
                n == (data@.len() - 2) / 2,
                data@.len() >= 2,
        ;
        let mut units: Vec<u16> = Vec::new();
        let mut i: usize = 0;
        while i < n
            invariant
                data@.len() >= 2,
                data@.len() <= isize::MAX,
                n == (data@.len() - 2) / 2,
                2 * n + 2 <= data@.len(),
                i <= n,
                units@ =~= le_units(data@.skip(2)).take(i as int),
            decreases n - i,
        {
            let k: usize = 2 * i + 2;
            let lo = data[k] as u16;
            let hi = data[k + 1] as u16;
            units.push(lo + 256 * hi);
            i += 1;
        }
        assert(units@ =~= le_units(data@.skip(2)));
        Ok(ucs2_to_utf8(units.as_slice()))
    } else {
        let mut v: Vec<u8> = Vec::new();
        v.extend_from_slice(data);
        assert(v@ =~= data@);
        Ok(v)
    }
}

// ---------------------------------------------------------------------------
// References to mods
// ---------------------------------------------------------------------------

/// A mod in a mod list: an installed mod, by index, or a folder or archive path that no
/// installed mod has.
#[derive(Clone, Debug, PartialEq, Eq)]
pub enum ModRef {
    Installed(usize),
    UnknownFolder(String),
    UnknownPakPath(String),
}

/// A mod reference as plain values.
pub enum ModRefView {
    Installed(usize),
    UnknownFolder(Seq<char>),
    UnknownPakPath(Seq<char>),
}

impl ModRef {
    pub open spec fn view(&self) -> ModRefView {
        match self {
            ModRef::Installed(i) => ModRefView::Installed(*i),
            ModRef::UnknownFolder(f) => ModRefView::UnknownFolder(f@),
            ModRef::UnknownPakPath(p) => ModRefView::UnknownPakPath(p@),
        }
    }

    /// The index of an installed mod.
    pub fn to_index(&self) -> (r: Option<usize>)
        ensures
            r == (match *self {
                ModRef::Installed(i) => Some(i),
                _ => None,
            }),
    {
        match self {
            ModRef::Installed(i) => Some(*i),
            _ => None,
        }
    }
}

// ---------------------------------------------------------------------------
// Archive paths
// ---------------------------------------------------------------------------

/// Whether `c` separates the components of a path (Windows takes both slashes).
pub open spec fn is_path_sep(c: char) -> bool {
    c == '/' || c == '\\'
}

/// A finished component as the key holds it: nothing for an empty component or `.`,
/// otherwise the component followed by `/`.
pub open spec fn component_text(seg: Seq<char>) -> Seq<char> {
    if seg.len() == 0 || seg == seq!['.'] {
        seq![]
    } else {
        seg + seq!['/']
    }
}

/// The components of `s`, the current one having begun with `seg`: each non-empty
/// component other than `.`, followed by `/`.
pub open spec fn components_text(s: Seq<char>, seg: Seq<char>) -> Seq<char>
    decreases s.len(),
{
    if s.len() == 0 {
        component_text(seg)
    } else if is_path_sep(s[0]) {
        component_text(seg) + components_text(s.drop_first(), seq![])
    } else {
        components_text(s.drop_first(), seg.push(s[0]))
    }
}

/// Whether `p` starts with a drive letter and a colon.
pub open spec fn has_drive(p: Seq<char>) -> bool {
    p.len() >= 2 && p[1] == ':' && (('a' <= p[0] <= 'z') || ('A' <= p[0] <= 'Z'))
}

/// What two paths share exactly when Windows takes them for the same path: the drive
/// letter in either case, whether the path starts at the root, whether a relative path
/// starts with `.`, and the components, where repeated separators, a trailing separator
/// and `.` components make no difference. (Paths that start with two separators, which
/// Windows reads as network or device paths, count as paths from the root.)
pub open spec fn path_key(p: Seq<char>) -> Seq<char> {
    let drive = if has_drive(p) {
        seq![crate::text::ascii_lower(p[0]), ':']
    } else {
        seq![]
    };
    let rest = if has_drive(p) {
        p.skip(2)
    } else {
        p
    };
    let rooted = rest.len() > 0 && is_path_sep(rest[0]);
    let root = if rooted {
        seq!['/']
    } else {
        seq![]
    };
    let cur = if !rooted && rest.len() > 0 && rest[0] == '.' && (rest.len() == 1 || is_path_sep(rest[1])) {
        seq!['.', '/']
    } else {
        seq![]
    };
    drive + root + cur + components_text(rest, seq![])
}

/// The keys of the archive paths of mods.
pub open spec fn path_keys(m: Seq<ModInfo>) -> Seq<Seq<char>> {
    m.map_values(|x: ModInfo| path_key(x.pak_path@))
}

fn push_component(out: &mut Vec<char>, seg: &Vec<char>)
    ensures
        final(out)@ == old(out)@ + component_text(seg@),
{
    if seg.len() == 0 || (seg.len() == 1 && seg[0] == '.') {
        assert(seg@.len() == 1 ==> seg@ =~= seq!['.']);
        return;
    }
    assert(seg@ != seq!['.']) by {
        if seg@.len() == 1 {
            assert(seg@[0] != '.');
        }
    }
    let mut i: usize = 0;
    let ghost start = out@;
    while i < seg.len()
        invariant
            i <= seg@.len(),
            out@ == start + seg@.take(i as int),
        decreases seg.len() - i,
    {
        out.push(seg[i]);
        assert(seg@.take(i + 1) =~= seg@.take(i as int).push(seg@[i as int]));
        i += 1;
    }
    out.push('/');
    assert(seg@.take(seg@.len() as int) =~= seg@);
    assert(out@ =~= start + (seg@ + seq!['/']));
}

/// The key of an archive path: equal keys for paths that Windows takes for the same.
pub fn path_key_of(p: &str) -> (r: Vec<char>)
    ensures
        r@ == path_key(p@),
{
    let cs = chars_of(p);
    let mut out: Vec<char> = Vec::new();
    let drive = cs.len() >= 2 && cs[1] == ':' && (('a' <= cs[0] && cs[0] <= 'z') || ('A' <= cs[0] && cs[0] <= 'Z'));
    let start: usize = if drive {
        out.push(crate::text::to_ascii_lower(cs[0]));
        out.push(':');
        2
    } else {
        0
    };
    let ghost rest = cs@.skip(start as int);
    assert(drive == has_drive(p@));
    assert(rest =~= (if has_drive(p@) {
        p@.skip(2)
    } else {
        p@
    }));
    let rooted = start < cs.len() && (cs[start] == '/' || cs[start] == '\\');
    if rooted {
        out.push('/');
    } else if start < cs.len() && cs[start] == '.' && (start + 1 == cs.len() || cs[start + 1] == '/' || cs[start + 1] == '\\') {
        out.push('.');
        out.push('/');
    }
    let ghost head = out@;
    assert(head =~= (if has_drive(p@) {
        seq![crate::text::ascii_lower(p@[0]), ':']
    } else {
        Seq::<char>::empty()
    }) + (if rest.len() > 0 && is_path_sep(rest[0]) {
        seq!['/']
    } else {
        Seq::<char>::empty()
    }) + (if !(rest.len() > 0 && is_path_sep(rest[0])) && rest.len() > 0 && rest[0] == '.' && (rest.len() == 1
        || is_path_sep(rest[1])) {
        seq!['.', '/']
    } else {
        Seq::<char>::empty()
    }));
    let mut seg: Vec<char> = Vec::new();
    let mut i: usize = start;
    assert(cs@.skip(i as int) =~= rest);
    while i < cs.len()
        invariant
            start <= i <= cs@.len(),
            cs@ == p@,
            rest == cs@.skip(start as int),
            out@ + components_text(cs@.skip(i as int), seg@) == head + components_text(rest, seq![]),
        decreases cs.len() - i,
    {
        let ghost tail = cs@.skip(i as int);
        assert(tail.drop_first() =~= cs@.skip(i + 1));
        assert(tail[0] == cs@[i as int]);
        let c = cs[i];
        if c == '/' || c == '\\' {
            let ghost o = out@;
            let ghost sg = seg@;
            push_component(&mut out, &seg);
            seg = Vec::new();
            assert(o + components_text(tail, sg) =~= out@ + components_text(cs@.skip(i + 1), seg@));
        } else {
            let ghost sg = seg@;
            seg.push(c);
            assert(components_text(tail, sg) == components_text(cs@.skip(i + 1), seg@));
        }
        i += 1;
    }
    let ghost o = out@;
    push_component(&mut out, &seg);
    assert(cs@.skip(i as int) =~= Seq::<char>::empty());
    assert(out@ =~= head + components_text(rest, seq![]));
    assert(path_key(p@) == head + components_text(rest, seq![]));
    out
}

/// The installed mods.
pub struct Mods {
    mods: Vec<ModInfo>,
}

/// The last index below `n` whose entry `key` gives `k`.
pub open spec fn last_index_with(s: Seq<Seq<char>>, k: Seq<char>, n: int) -> Option<int>
    decreases n,
{
    if n <= 0 {
        None
    } else if s[n - 1] == k {
        Some(n - 1)
    } else {
        last_index_with(s, k, n - 1)
    }
}

/// The archive paths of mods.
pub open spec fn pak_paths(m: Seq<ModInfo>) -> Seq<Seq<char>> {
    m.map_values(|x: ModInfo| x.pak_path@)
}

/// The folder names of mods.
pub open spec fn folder_names(m: Seq<ModInfo>) -> Seq<Seq<char>> {
    m.map_values(|x: ModInfo| x.folder_name@)
}

/// The reference that `key` finds among `keys` (the last entry with it wins), or `other`.
pub open spec fn found_or(keys: Seq<Seq<char>>, key: Seq<char>, other: ModRefView) -> ModRefView {
    match last_index_with(keys, key, keys.len() as int) {
        Some(i) => ModRefView::Installed(i as usize),
        None => other,
    }
}

impl Mods {
    /// The mods, in order.
    pub closed spec fn view(&self) -> Seq<ModInfo> {
        self.mods@
    }

    /// The installed mods `mods`, in this order.
    pub fn new(mods: Vec<ModInfo>) -> (r: Self)
        ensures
            r.view() == mods@,
    {
        Mods { mods }
    }

    /// The number of mods.
    pub fn len(&self) -> (r: usize)
        ensures
            r == self.view().len(),
    {
        self.mods.len()
    }

    /// The mod at `index`.
    pub fn at(&self, index: usize) -> (r: &ModInfo)
        requires
            index < self.view().len(),
        ensures
            *r == self.view()[index as int],
    {
        &self.mods[index]
    }

    /// The installed mod that `mod_ref` designates, if it is one.
    pub fn get(&self, mod_ref: &ModRef) -> (r: Option<&ModInfo>)
        ensures
            r matches Some(m) ==> (mod_ref matches ModRef::Installed(i) && i < self.view().len()
                && *m == self.view()[i as int]),
            r is None ==> !(mod_ref matches ModRef::Installed(i) && i < self.view().len()),
    {
        match mod_ref {
            ModRef::Installed(i) => {
                if *i < self.mods.len() {
                    Some(&self.mods[*i])
                } else {
                    None
                }
            },
            _ => None,
        }
    }

    fn last_with_folder(&self, key: &str) -> (r: Option<usize>)
        ensures
            r == (match last_index_with(folder_names(self.view()), key@, self.view().len() as int) {
                Some(i) => Some(i as usize),
                None => None,
            }),
    {
        let ghost keys = folder_names(self.view());
        let mut n: usize = self.mods.len();
        while n > 0
            invariant
                n <= self.mods@.len(),
                keys == folder_names(self.view()),
                last_index_with(keys, key@, self.view().len() as int) == last_index_with(keys, key@, n as int),
            decreases n,
        {
            if str_eq(self.mods[n - 1].folder_name.as_str(), key) {
                return Some(n - 1);
            }
            n -= 1;
        }
        None
    }

    fn last_with_path(&self, path: &str) -> (r: Option<usize>)
        ensures
            r == (match last_index_with(path_keys(self.view()), path_key(path@), self.view().len() as int) {
                Some(i) => Some(i as usize),
                None => None,
            }),
    {
        let ghost keys = path_keys(self.view());
        let k = path_key_of(path);
        let mut n: usize = self.mods.len();
        while n > 0
            invariant
                n <= self.mods@.len(),
                keys == path_keys(self.view()),
                k@ == path_key(path@),
                last_index_with(keys, k@, self.view().len() as int) == last_index_with(keys, k@, n as int),
            decreases n,
        {
            let mk = path_key_of(self.mods[n - 1].pak_path.as_str());
            assert(keys[n - 1] == mk@);
            if crate::text::chars_eq(mk.as_slice(), k.as_slice()) {
                return Some(n - 1);
            }
            n -= 1;
        }
        None
    }

    /// The reference to the mod whose archive path is `pak_path`, as Windows compares
    /// paths (see `path_key`); the last such mod wins.
    pub fn by_pak_path(&self, pak_path: &str) -> (r: ModRef)
        ensures
            r.view() == found_or(path_keys(self.view()), path_key(pak_path@), ModRefView::UnknownPakPath(pak_path@)),
    {
        match self.last_with_path(pak_path) {
            Some(i) => ModRef::Installed(i),
            None => ModRef::UnknownPakPath(pak_path.to_string()),
        }
    }

    /// The reference to the mod in folder `folder`.
    pub fn by_folder(&self, folder: &str) -> (r: ModRef)
        ensures
            r.view() == found_or(folder_names(self.view()), folder@, ModRefView::UnknownFolder(folder@)),
    {
        match self.last_with_folder(folder) {
            Some(i) => ModRef::Installed(i),
            None => ModRef::UnknownFolder(folder.to_string()),
        }
    }

    /// All mods, in order.
    pub fn iter(&self) -> (r: &[ModInfo])
        ensures
            r@ == self.view(),
    {
        self.mods.as_slice()
    }
}


/// Whether mods are in order of name, each name before or equal to the next.
pub open spec fn sorted_by_name(m: Seq<ModInfo>) -> bool {
    forall|i: int| 0 <= i < m.len() - 1 ==> lex_le(#[trigger] m[i].name@, m[i + 1].name@)
}

/// The mods named `n`, in order.
pub open spec fn named(m: Seq<ModInfo>, n: Seq<char>) -> Seq<ModInfo>
    decreases m.len(),
{
    if m.len() == 0 {
        seq![]
    } else if m.last().name@ == n {
        named(m.drop_last(), n).push(m.last())
    } else {
        named(m.drop_last(), n)
    }
}

proof fn lemma_named_append(a: Seq<ModInfo>, b: Seq<ModInfo>, n: Seq<char>)
    ensures
        named(a + b, n) == named(a, n) + named(b, n),
    decreases b.len(),
{
    if b.len() == 0 {
        assert(a + b =~= a);
        assert(named(a, n) + named(b, n) =~= named(a, n));
    } else {
        lemma_named_append(a, b.drop_last(), n);
        assert((a + b).drop_last() =~= a + b.drop_last());
        assert((a + b).last() == b.last());
        if b.last().name@ == n {
            assert(named(a, n) + named(b.drop_last(), n).push(b.last()) =~= (named(a, n) + named(b.drop_last(), n)).push(b.last()));
        }
    }
}

proof fn lemma_named_none(m: Seq<ModInfo>, n: Seq<char>)
    requires
        forall|q: int| 0 <= q < m.len() ==> (#[trigger] m[q]).name@ != n,
    ensures
        named(m, n) == Seq::<ModInfo>::empty(),
    decreases m.len(),
{
    if m.len() > 0 {
        assert(m.last() == m[m.len() - 1]);
        lemma_named_none(m.drop_last(), n);
    }
}

/// The mods in order of name; mods with equal names keep their order.
#[verifier::spinoff_prover]
#[verifier::rlimit(50)]
pub fn sort_by_name(mods: Vec<ModInfo>) -> (r: Vec<ModInfo>)
    ensures
        sorted_by_name(r@),
        r@.to_multiset() == mods@.to_multiset(),
        forall|n: Seq<char>| #[trigger] named(r@, n) == named(mods@, n),
{
    broadcast use vstd::seq_lib::group_to_multiset_ensures;

    let ghost input = mods@;
    let mut rest = mods;
    let mut out: Vec<ModInfo> = Vec::new();
    assert(out@.to_multiset().add(rest@.to_multiset()) =~= input.to_multiset());
    assert forall|n: Seq<char>| #[trigger] named(input, n) == named(out@, n) + named(rest@, n) by {
        assert(named(out@, n) + named(rest@, n) =~= named(rest@, n));
    }
    while rest.len() > 0
        invariant
            sorted_by_name(out@),
            out@.to_multiset().add(rest@.to_multiset()) == input.to_multiset(),
            forall|n: Seq<char>| #[trigger] named(input, n) == named(out@, n) + named(rest@, n),
        decreases rest.len(),
    {
        let ghost before_rest = rest@;
        let x = rest.remove(0);
        let xc = chars_of(x.name.as_str());
        let mut p: usize = out.len();
        while p > 0 && !name_le(&out[p - 1], xc.as_slice())
            invariant
                p <= out@.len(),
                xc@ == x.name@,
                forall|q: int| p <= q < out@.len() ==> !lex_le(#[trigger] out@[q].name@, x.name@),
            decreases p,
        {
            p -= 1;
        }
        let ghost before_out = out@;
        out.insert(p, x);
        proof {
            assert forall|i: int| 0 <= i < out@.len() - 1 implies lex_le(#[trigger] out@[i].name@, out@[i + 1].name@) by {
                if i < p as int - 1 {
                    assert(out@[i] == before_out[i]);
                    assert(out@[i + 1] == before_out[i + 1]);
                } else if i == p as int - 1 {
                    assert(out@[i] == before_out[i]);
                } else if i == p as int {
                    assert(out@[i + 1] == before_out[i]);
                    lemma_lex_total(x.name@, before_out[i].name@);
                } else {
                    assert(out@[i] == before_out[i - 1]);
                    assert(out@[i + 1] == before_out[i]);
                }
            }
            assert(before_rest.remove(0) == rest@);
            assert(x == before_rest[0]);
            vstd::seq_lib::to_multiset_remove(before_rest, 0);
            assert(rest@.to_multiset() == before_rest.to_multiset().remove(x));
            assert(before_rest.contains(x)) by {
                assert(before_rest[0] == x);
            }
            vstd::seq_lib::to_multiset_contains(before_rest, x);
            assert(before_rest.to_multiset().count(x) > 0);
            assert(before_rest.to_multiset() =~= rest@.to_multiset().insert(x));
            assert(out@ == before_out.insert(p as int, x));
            vstd::seq_lib::to_multiset_insert(before_out, p as int, x);
            assert(out@.to_multiset() == before_out.to_multiset().insert(x));
            assert(out@.to_multiset().add(rest@.to_multiset()) =~= before_out.to_multiset().add(
                before_rest.to_multiset(),
            ));
            assert forall|n: Seq<char>| #[trigger] named(input, n) == named(out@, n) + named(rest@, n) by {
                let head = before_out.take(p as int);
                let tail = before_out.skip(p as int);
                assert(before_out =~= head + tail);
                assert(out@ =~= head + seq![x] + tail);
                assert(before_rest =~= seq![x] + rest@);
                lemma_named_append(head, tail, n);
                lemma_named_append(head + seq![x], tail, n);
                lemma_named_append(head, seq![x], n);
                lemma_named_append(seq![x], rest@, n);
                assert(seq![x].drop_last() =~= Seq::<ModInfo>::empty());
                if x.name@ == n {
                    assert forall|q: int| 0 <= q < tail.len() implies (#[trigger] tail[q]).name@ != n by {
                        assert(tail[q] == out@[p + 1 + q]);
                        lemma_lex_total(n, n);
                    }
                    lemma_named_none(tail, n);
                    assert(named(out@, n) + named(rest@, n) =~= named(head, n) + named(seq![x], n) + named(rest@, n));
                    assert(named(before_out, n) + named(before_rest, n) =~= named(head, n) + named(seq![x], n) + named(rest@, n));
                } else {
                    assert(seq![x].last() == x);
                    assert(named(seq![x].drop_last(), n) =~= Seq::<ModInfo>::empty());
                    assert(named(seq![x], n) =~= Seq::<ModInfo>::empty());
                    assert(named(out@, n) =~= named(before_out, n));
                    assert(named(before_rest, n) =~= named(rest@, n));
                }
            }
        }
    }
    assert(rest@.to_multiset() =~= Multiset::<ModInfo>::empty());
    assert forall|n: Seq<char>| #[trigger] named(out@, n) == named(input, n) by {
        assert(rest@.len() == 0);
        assert(named(out@, n) + named(rest@, n) =~= named(out@, n));
    }
    assert(out@.to_multiset().add(Multiset::<ModInfo>::empty()) =~= out@.to_multiset());
    out
}

fn name_le(m: &ModInfo, name: &[char]) -> (r: bool)
    ensures
        r == lex_le(m.name@, name@),
{
    let mc = chars_of(m.name.as_str());
    chars_le(mc.as_slice(), name)
}

} // verus!
