//! The game: its version, its sessions, how it is launched, and what the launcher reads
//! from and writes to its `Game.ini`.
use vstd::prelude::*;

use ini::Ini;

pub mod engine;
pub mod mod_info;
pub mod mod_list;
pub mod saves;
pub mod user;

use self::engine::map::{maps_view, MapInfo, MapView};
use crate::auth::{insert_fields, users_fields, CachedUser, CachedUsers, UserFields};
use crate::ini_doc::{
    first_value, ini_add, ini_delete, ini_entries, ini_get, ini_get_all, ini_set, values_of,
    IniEntries,
};
use crate::net::SocketAddress;
use crate::text::{ascii_lower_seq, chars_eq_str, chars_of, lower_chars, string_of};

verus! {

/// The Steam branch of the game.
#[derive(Debug, Clone, Copy, PartialEq, Eq, Structural)]
pub enum Branch {
    Main,
    PublicBeta,
}

impl Default for Branch {
    fn default() -> (r: Self)
        ensures
            r == Branch::Main,
    {
        Branch::Main
    }
}

/// A map that a session was played on: one of the known maps, by index, or the asset
/// path of a map that is not known.
#[derive(Debug)]
pub enum MapRef {
    Known { map_id: usize },
    Unknown { asset_path: String },
}

/// A server that a session was played on.
#[derive(Debug)]
pub enum ServerRef {
    Unknown(SocketAddress),
}

/// The last session that the game played.
#[derive(Debug)]
pub enum Session {
    SinglePlayer(MapRef),
    CoOp(MapRef),
    Online(ServerRef),
}

/// A map reference as plain values.
pub enum MapRefView {
    Known(usize),
    Unknown(Seq<char>),
}

/// A session as plain values.
pub enum SessionView {
    SinglePlayer(MapRefView),
    CoOp(MapRefView),
    Online(SocketAddress),
}

impl MapRef {
    pub open spec fn view(&self) -> MapRefView {
        match self {
            MapRef::Known { map_id } => MapRefView::Known(*map_id),
            MapRef::Unknown { asset_path } => MapRefView::Unknown(asset_path@),
        }
    }
}

impl Session {
    pub open spec fn view(&self) -> SessionView {
        match self {
            Session::SinglePlayer(m) => SessionView::SinglePlayer(m.view()),
            Session::CoOp(m) => SessionView::CoOp(m.view()),
            Session::Online(ServerRef::Unknown(a)) => SessionView::Online(*a),
        }
    }
}

/// An optional session as plain values.
pub open spec fn session_view(s: Option<Session>) -> Option<SessionView> {
    match s {
        Some(x) => Some(x.view()),
        None => None,
    }
}

/// How to launch the game.
#[derive(Debug)]
pub struct LaunchOptions {
    pub enable_battleye: bool,
    pub use_all_cores: bool,
    pub extra_args: String,
}

/// Where the game and its workshop items are installed.
pub struct GameLocation {
    pub game_path: String,
    workshop_path: String,
}

impl GameLocation {
    /// A location from the game's directory and the workshop directory of its library.
    pub fn new(game_path: String, workshop_path: String) -> (r: Self)
        ensures
            r.game() == game_path,
            r.workshop() == workshop_path,
    {
        GameLocation { game_path, workshop_path }
    }

    /// The game's directory.
    pub closed spec fn game(&self) -> String {
        self.game_path
    }

    /// The workshop directory.
    pub closed spec fn workshop(&self) -> String {
        self.workshop_path
    }

    /// The workshop directory.
    pub fn workshop_path(&self) -> (r: &str)
        ensures
            r@ == self.workshop()@,
    {
        self.workshop_path.as_str()
    }
}

// ---------------------------------------------------------------------------
// Version
// ---------------------------------------------------------------------------

/// The build id of a game version (revision, snapshot): the low 18 bits of the revision
/// above the low 13 bits of the snapshot.
pub open spec fn spec_build_id(version: (u32, u16)) -> u32 {
    ((((version.0 & 0x3ffff) as u32) << 13u32) + ((version.1 & 0x1fff) as u32)) as u32
}

/// The build id of a game version.
pub fn build_id(version: (u32, u16)) -> (r: u32)
    ensures
        r == spec_build_id(version),
{
    let rev: u32 = version.0;
    let snap: u16 = version.1;
    let revision_bits: u32 = (rev & 0x3ffff) << 13u32;
    let snapshot_bits: u32 = (snap & 0x1fff) as u32;
    assert(revision_bits <= 0x7fffe000) by (bit_vector)
        requires
            revision_bits == (rev & 0x3ffff) << 13u32,
    ;
    assert(snapshot_bits <= 0x1fff) by (bit_vector)
        requires
            snapshot_bits == (snap & 0x1fff) as u32,
    ;
    revision_bits + snapshot_bits
}

/// The game version (revision, snapshot) that a build id stands for: the revision is the
/// build id shifted right by 13 with bit 18 set; the snapshot is its low 13 bits with
/// the top bits filled from bit 12.
pub open spec fn spec_revision(build_id: u32) -> (u32, u16) {
    let maj = (build_id | 0x8000_0000u32) >> 13u32;
    let min = (build_id & 0x1fffu32) as u16;
    (maj, (min | (0x8000u16 - (min & 0x1000u16)) as u16) as u16)
}

/// The game version that a build id stands for.
pub fn revision(build_id: u32) -> (r: (u32, u16))
    ensures
        r == spec_revision(build_id),
{
    let maj = (build_id | 0x8000_0000u32) >> 13u32;
    let min = (build_id & 0x1fffu32) as u16;
    assert(min & 0x1000u16 <= 0x1000u16) by (bit_vector);
    let min = min | (0x8000u16 - (min & 0x1000u16));
    (maj, min)
}

/// A build id below 2^31 is the build id of the version that it stands for.
pub proof fn lemma_build_id_of_revision(b: u32)
    requires
        b < 0x8000_0000,
    ensures
        spec_build_id(spec_revision(b)) == b,
{
    let maj = (b | 0x8000_0000u32) >> 13u32;
    let min = (b & 0x1fffu32) as u16;
    let m2 = (min | (0x8000u16 - (min & 0x1000u16)) as u16) as u16;
    assert(min & 0x1000u16 <= 0x1000u16) by (bit_vector);
    assert(((((maj & 0x3ffff) as u32) << 13u32) + ((m2 & 0x1fff) as u32)) as u32 == b) by (bit_vector)
        requires
            b < 0x8000_0000u32,
            maj == (b | 0x8000_0000u32) >> 13u32,
            min == (b & 0x1fffu32) as u16,
            m2 == (min | (0x8000u16 - (min & 0x1000u16)) as u16) as u16,
    ;
}

// ---------------------------------------------------------------------------
// Game.ini
// ---------------------------------------------------------------------------

/// The section of the favorite servers.
pub const SECTION_FAVORITE_SERVERS: &'static str = "FavoriteServers";

/// The section of the cached users.
pub const SECTION_FUNCOM_LIVE_SERVICES: &'static str = "FuncomLiveServices";

/// The section of the last server.
pub const SECTION_SAVED_SERVERS: &'static str = "SavedServers";

/// The section of the last local game.
pub const SECTION_SAVED_COOP_DATA: &'static str = "SavedCoopData";

/// The key of the cached users.
pub const KEY_CACHED_USERS: &'static str = "CachedUsers";

/// The key of the last server's address.
pub const KEY_LAST_CONNECTED: &'static str = "LastConnected";

/// The key of the last server's password.
pub const KEY_LAST_PASSWORD: &'static str = "LastPassword";

/// The key of the last local map.
pub const KEY_LAST_MAP: &'static str = "LastMap";

/// The key of the favorite servers.
pub const KEY_SERVERS_LIST: &'static str = "ServersList";

/// The key that tells whether the last session was local.
pub const KEY_STARTED_LISTEN_SERVER_SESSION: &'static str = "StartedListenServerSession";

/// The key that tells whether the last local session was co-op.
pub const KEY_WAS_COOP_ENABLED: &'static str = "WasCoopEnabled";

/// A flag of `Game.ini`: `true` in any ASCII case is true; a missing value is true too.
pub open spec fn ini_flag(value: Option<Seq<char>>) -> bool {
    match value {
        Some(v) => ascii_lower_seq(v) == "true"@,
        None => true,
    }
}

fn read_flag(ini: &Ini, section: &str, key: &str) -> (r: bool)
    ensures
        r == ini_flag(first_value(ini_entries(*ini), Some(section@), key@)),
{
    match ini_get(ini, Some(section), key) {
        Some(v) => {
            let cs = chars_of(v.as_str());
            let lower = lower_chars(cs.as_slice());
            chars_eq_str(lower.as_slice(), "true")
        },
        None => true,
    }
}

/// The index of the first map at or after `i` whose asset path is `asset_path`.
pub open spec fn find_map(maps: Seq<MapView>, asset_path: Seq<char>, i: int) -> Option<int>
    decreases maps.len() - i,
{
    if i < 0 || i >= maps.len() {
        None
    } else if maps[i].1 == asset_path {
        Some(i)
    } else {
        find_map(maps, asset_path, i + 1)
    }
}

/// The index of the first map whose asset path is `asset_path`.
pub fn map_by_asset_path(maps: &[MapInfo], asset_path: &str) -> (r: Option<usize>)
    ensures
        r matches Some(i) ==> find_map(maps_view(maps@), asset_path@, 0) == Some(i as int),
        r is None ==> find_map(maps_view(maps@), asset_path@, 0) is None,
{
    let mut i: usize = 0;
    while i < maps.len()
        invariant
            i <= maps@.len(),
            find_map(maps_view(maps@), asset_path@, 0) == find_map(maps_view(maps@), asset_path@, i as int),
        decreases maps.len() - i,
    {
        if crate::text::str_eq(maps[i].asset_path.as_str(), asset_path) {
            return Some(i);
        }
        i += 1;
    }
    None
}

/// The reference to the map with asset path `p`.
pub open spec fn map_ref_for(maps: Seq<MapView>, p: Seq<char>) -> MapRefView {
    match find_map(maps, p, 0) {
        Some(i) => MapRefView::Known(i as usize),
        None => MapRefView::Unknown(p),
    }
}

/// The last session that `Game.ini` (`e`, or `None` when there is no such file) records.
/// When the last session was local (`StartedListenServerSession`), it is the last map
/// (`LastMap`), co-op unless `WasCoopEnabled` says otherwise; otherwise it is the last
/// server, whose address (`LastConnected`) was read as `last_connected`.
pub open spec fn spec_last_session(
    e: Option<IniEntries>,
    maps: Seq<MapView>,
    last_connected: Option<SocketAddress>,
) -> Option<SessionView> {
    match e {
        None => None,
        Some(e) => {
            let is_local = ini_flag(first_value(e, Some(SECTION_SAVED_COOP_DATA@), KEY_STARTED_LISTEN_SERVER_SESSION@));
            let is_coop = ini_flag(first_value(e, Some(SECTION_SAVED_COOP_DATA@), KEY_WAS_COOP_ENABLED@));
            if is_local {
                match first_value(e, Some(SECTION_SAVED_COOP_DATA@), KEY_LAST_MAP@) {
                    None => None,
                    Some(p) => if is_coop {
                        Some(SessionView::CoOp(map_ref_for(maps, p)))
                    } else {
                        Some(SessionView::SinglePlayer(map_ref_for(maps, p)))
                    },
                }
            } else {
                match last_connected {
                    Some(a) => Some(SessionView::Online(a)),
                    None => None,
                }
            }
        },
    }
}

/// The view of an optional document.
pub open spec fn opt_entries(ini: Option<&Ini>) -> Option<IniEntries> {
    match ini {
        Some(i) => Some(ini_entries(*i)),
        None => None,
    }
}

/// The last session that `Game.ini` records; `last_connected` is the address that its
/// `LastConnected` value holds, when it is one.
pub fn last_session(game_ini: Option<&Ini>, maps: &[MapInfo], last_connected: Option<SocketAddress>) -> (r: Option<Session>)
    ensures
        session_view(r) == spec_last_session(opt_entries(game_ini), maps_view(maps@), last_connected),
{
    let ini = match game_ini {
        Some(i) => i,
        None => return None,
    };
    let is_local = read_flag(ini, SECTION_SAVED_COOP_DATA, KEY_STARTED_LISTEN_SERVER_SESSION);
    let is_coop = read_flag(ini, SECTION_SAVED_COOP_DATA, KEY_WAS_COOP_ENABLED);
    if is_local {
        match ini_get(ini, Some(SECTION_SAVED_COOP_DATA), KEY_LAST_MAP) {
            None => None,
            Some(p) => {
                let m = match map_by_asset_path(maps, p.as_str()) {
                    Some(i) => MapRef::Known { map_id: i },
                    None => MapRef::Unknown { asset_path: p },
                };
                if is_coop {
                    Some(Session::CoOp(m))
                } else {
                    Some(Session::SinglePlayer(m))
                }
            },
        }
    } else {
        match last_connected {
            Some(a) => Some(Session::Online(ServerRef::Unknown(a))),
            None => None,
        }
    }
}

/// Records in `Game.ini` that the next session joins the server at `addr` (its text),
/// with `password` (empty when there is none).
pub fn record_join_server(game_ini: &mut Ini, addr: &str, password: Option<&str>)
    ensures
        ini_entries(*final(game_ini)) == ini_entries(*old(game_ini)).insert(
            (Some(SECTION_SAVED_SERVERS@), KEY_LAST_CONNECTED@),
            seq![addr@],
        ).insert(
            (Some(SECTION_SAVED_SERVERS@), KEY_LAST_PASSWORD@),
            seq![
                match password {
                    Some(p) => p@,
                    None => Seq::<char>::empty(),
                }
            ],
        ).insert((Some(SECTION_SAVED_COOP_DATA@), KEY_STARTED_LISTEN_SERVER_SESSION@), seq!["False"@]),
{
    ini_set(game_ini, Some(SECTION_SAVED_SERVERS), KEY_LAST_CONNECTED, addr);
    match password {
        Some(p) => ini_set(game_ini, Some(SECTION_SAVED_SERVERS), KEY_LAST_PASSWORD, p),
        None => {
            let empty = String::new();
            ini_set(game_ini, Some(SECTION_SAVED_SERVERS), KEY_LAST_PASSWORD, empty.as_str());
        },
    }
    ini_set(game_ini, Some(SECTION_SAVED_COOP_DATA), KEY_STARTED_LISTEN_SERVER_SESSION, "False");
}

/// Records in `Game.ini` that the next session is a single-player game on the map with
/// asset path `asset_path`.
pub fn record_single_player(game_ini: &mut Ini, asset_path: &str)
    ensures
        ini_entries(*final(game_ini)) == ini_entries(*old(game_ini)).insert(
            (Some(SECTION_SAVED_COOP_DATA@), KEY_LAST_MAP@),
            seq![asset_path@],
        ).insert((Some(SECTION_SAVED_COOP_DATA@), KEY_STARTED_LISTEN_SERVER_SESSION@), seq!["True"@]).insert(
            (Some(SECTION_SAVED_COOP_DATA@), KEY_WAS_COOP_ENABLED@),
            seq!["False"@],
        ),
{
    ini_set(game_ini, Some(SECTION_SAVED_COOP_DATA), KEY_LAST_MAP, asset_path);
    ini_set(game_ini, Some(SECTION_SAVED_COOP_DATA), KEY_STARTED_LISTEN_SERVER_SESSION, "True");
    ini_set(game_ini, Some(SECTION_SAVED_COOP_DATA), KEY_WAS_COOP_ENABLED, "False");
}

/// After joining a server, the last session is online on that server.
pub proof fn lemma_join_then_last_session(
    e: IniEntries,
    addr: Seq<char>,
    password: Seq<char>,
    maps: Seq<MapView>,
    parsed: SocketAddress,
)
    ensures
        spec_last_session(
            Some(
                e.insert((Some(SECTION_SAVED_SERVERS@), KEY_LAST_CONNECTED@), seq![addr]).insert(
                    (Some(SECTION_SAVED_SERVERS@), KEY_LAST_PASSWORD@),
                    seq![password],
                ).insert((Some(SECTION_SAVED_COOP_DATA@), KEY_STARTED_LISTEN_SERVER_SESSION@), seq!["False"@]),
            ),
            maps,
            Some(parsed),
        ) == Some(SessionView::Online(parsed)),
{
    reveal_strlit("False");
    reveal_strlit("true");
    let e2 = e.insert((Some(SECTION_SAVED_SERVERS@), KEY_LAST_CONNECTED@), seq![addr]).insert(
        (Some(SECTION_SAVED_SERVERS@), KEY_LAST_PASSWORD@),
        seq![password],
    ).insert((Some(SECTION_SAVED_COOP_DATA@), KEY_STARTED_LISTEN_SERVER_SESSION@), seq!["False"@]);
    assert(first_value(e2, Some(SECTION_SAVED_COOP_DATA@), KEY_STARTED_LISTEN_SERVER_SESSION@) == Some("False"@));
    assert(ascii_lower_seq("False"@) =~= "false"@) by {
        reveal_strlit("false");
    }
    assert("false"@ != "true"@) by {
        reveal_strlit("false");
        assert("false"@[0] != "true"@[0]);
    }
}

/// After recording a single-player game on a known map, the last session is a
/// single-player game on the first map with that asset path.
pub proof fn lemma_single_player_then_last_session(
    e: IniEntries,
    maps: Seq<MapView>,
    map_id: usize,
    last_connected: Option<SocketAddress>,
)
    requires
        map_id < maps.len(),
        find_map(maps, maps[map_id as int].1, 0) == Some(map_id as int),
    ensures
        spec_last_session(
            Some(
                e.insert((Some(SECTION_SAVED_COOP_DATA@), KEY_LAST_MAP@), seq![maps[map_id as int].1]).insert(
                    (Some(SECTION_SAVED_COOP_DATA@), KEY_STARTED_LISTEN_SERVER_SESSION@),
                    seq!["True"@],
                ).insert((Some(SECTION_SAVED_COOP_DATA@), KEY_WAS_COOP_ENABLED@), seq!["False"@]),
            ),
            maps,
            last_connected,
        ) == Some(SessionView::SinglePlayer(MapRefView::Known(map_id))),
{
    reveal_strlit("True");
    reveal_strlit("False");
    reveal_strlit("true");
    reveal_strlit("LastMap");
    reveal_strlit("StartedListenServerSession");
    reveal_strlit("WasCoopEnabled");
    let c = Some(SECTION_SAVED_COOP_DATA@);
    let e2 = e.insert((c, KEY_LAST_MAP@), seq![maps[map_id as int].1]).insert(
        (c, KEY_STARTED_LISTEN_SERVER_SESSION@),
        seq!["True"@],
    ).insert((c, KEY_WAS_COOP_ENABLED@), seq!["False"@]);
    assert(KEY_LAST_MAP@ != KEY_STARTED_LISTEN_SERVER_SESSION@) by {
        assert(KEY_LAST_MAP@.len() != KEY_STARTED_LISTEN_SERVER_SESSION@.len());
    }
    assert(KEY_LAST_MAP@ != KEY_WAS_COOP_ENABLED@) by {
        assert(KEY_LAST_MAP@.len() != KEY_WAS_COOP_ENABLED@.len());
    }
    assert(KEY_STARTED_LISTEN_SERVER_SESSION@ != KEY_WAS_COOP_ENABLED@) by {
        assert(KEY_STARTED_LISTEN_SERVER_SESSION@.len() != KEY_WAS_COOP_ENABLED@.len());
    }
    assert(first_value(e2, c, KEY_LAST_MAP@) == Some(maps[map_id as int].1));
    assert(first_value(e2, c, KEY_STARTED_LISTEN_SERVER_SESSION@) == Some("True"@));
    assert(first_value(e2, c, KEY_WAS_COOP_ENABLED@) == Some("False"@));
    assert(ascii_lower_seq("True"@) =~= "true"@);
    assert(ascii_lower_seq("False"@) =~= "false"@) by {
        reveal_strlit("false");
    }
    assert("false"@ != "true"@) by {
        reveal_strlit("false");
        assert("false"@[0] != "true"@[0]);
    }
}

// ---------------------------------------------------------------------------
// Cached users
// ---------------------------------------------------------------------------

/// The users that cached-user values give, in order: a value that does not parse is
/// skipped, and a later user replaces an earlier one with the same platform id.
pub open spec fn spec_loaded_users(values: Seq<Seq<char>>) -> Seq<UserFields>
    decreases values.len(),
{
    if values.len() == 0 {
        seq![]
    } else {
        let prev = spec_loaded_users(values.drop_last());
        let v = values.last();
        if crate::parser::utf8_size(v) <= isize::MAX {
            match crate::parser::spec_parse_map(v) {
                Ok(e) => insert_fields(prev, crate::auth::fields_from_map(e)),
                Err(_) => prev,
            }
        } else {
            prev
        }
    }
}

/// Loads the users that `Game.ini` caches, in order; a value that does not parse is
/// skipped, and a later user replaces an earlier one with the same platform id.
pub fn load_cached_users(game_ini: &Ini) -> (r: CachedUsers)
    ensures
        r.wf(),
        users_fields(r.view()) == spec_loaded_users(
            values_of(ini_entries(*game_ini), Some(SECTION_FUNCOM_LIVE_SERVICES@), KEY_CACHED_USERS@),
        ),
{
    let values = ini_get_all(game_ini, Some(SECTION_FUNCOM_LIVE_SERVICES), KEY_CACHED_USERS);
    let ghost vs = values@.map_values(|v: String| v@);
    assert(vs =~= values_of(ini_entries(*game_ini), Some(SECTION_FUNCOM_LIVE_SERVICES@), KEY_CACHED_USERS@));
    let mut users = CachedUsers::new();
    let mut i: usize = 0;
    assert(users_fields(users.view()) =~= spec_loaded_users(vs.take(0)));
    while i < values.len()
        invariant
            i <= values@.len(),
            vs == values@.map_values(|v: String| v@),
            users.wf(),
            users_fields(users.view()) == spec_loaded_users(vs.take(i as int)),
        decreases values.len() - i,
    {
        assert(vs.take(i + 1).drop_last() =~= vs.take(i as int));
        assert(vs.take(i + 1).last() == values@[i as int]@);
        if crate::parser::utf8_size_fits(values[i].as_str()) {
            match CachedUser::parse(values[i].as_str()) {
                Ok(user) => users.insert(user),
                Err(_) => {},
            }
        }
        i += 1;
    }
    assert(vs.take(values@.len() as int) =~= vs);
    users
}

/// The texts that saving users writes, in order.
pub open spec fn users_texts(users: Seq<CachedUser>) -> Seq<Seq<char>> {
    users.map_values(|u: CachedUser| crate::auth::cached_user_text(crate::auth::cached_user_fields(u)))
}

/// Whether a user's fields are all non-empty and free of quotes and backslashes.
pub open spec fn plain_user(u: CachedUser) -> bool {
    let f = crate::auth::cached_user_fields(u);
    crate::parser::plain(f.0) && crate::parser::plain(f.1) && crate::parser::plain(f.2)
        && crate::parser::plain(f.3) && crate::parser::plain(f.4)
}

/// Loading the cached users that saving wrote gives the same users, in the same order,
/// when their platform ids differ and their fields are non-empty and free of quotes and
/// backslashes.
#[verifier::spinoff_prover]
#[verifier::rlimit(40)]
pub proof fn lemma_cached_users_round_trip(users: Seq<CachedUser>)
    requires
        forall|i: int| 0 <= i < users.len() ==> plain_user(#[trigger] users[i]),
        forall|i: int, j: int|
            0 <= i < j < users.len() ==> (#[trigger] users[i]).account.platform_id@
                != (#[trigger] users[j]).account.platform_id@,
        forall|i: int|
            0 <= i < users.len() ==> crate::parser::utf8_size(
                crate::auth::cached_user_text(crate::auth::cached_user_fields(#[trigger] users[i])),
            ) <= isize::MAX,
    ensures
        spec_loaded_users(users_texts(users)) == users_fields(users),
    decreases users.len(),
{
    if users.len() > 0 {
        let d = users.drop_last();
        let u = users.last();
        assert forall|i: int| 0 <= i < d.len() implies plain_user(#[trigger] d[i]) by {
            assert(d[i] == users[i]);
        }
        assert forall|i: int, j: int|
            0 <= i < j < d.len() implies (#[trigger] d[i]).account.platform_id@
                != (#[trigger] d[j]).account.platform_id@ by {
            assert(d[i] == users[i] && d[j] == users[j]);
        }
        assert forall|i: int|
            0 <= i < d.len() implies crate::parser::utf8_size(
                crate::auth::cached_user_text(crate::auth::cached_user_fields(#[trigger] d[i])),
            ) <= isize::MAX by {
            assert(d[i] == users[i]);
        }
        lemma_cached_users_round_trip(d);
        assert(users_texts(users).drop_last() =~= users_texts(d));
        assert(plain_user(users[users.len() - 1]));
        let f = crate::auth::cached_user_fields(u);
        crate::auth::lemma_cached_user_text_round_trip(f);
        let prev = users_fields(d);
        lemma_find_platform_absent(prev, f.3, 0);
        assert(users_fields(users) =~= prev.push(f));
    }
}

proof fn lemma_find_platform_absent(s: Seq<UserFields>, id: Seq<char>, i: int)
    requires
        0 <= i,
        forall|j: int| 0 <= j < s.len() ==> (#[trigger] s[j]).3 != id,
    ensures
        crate::auth::find_platform(s, id, i) is None,
    decreases s.len() - i,
{
    if i < s.len() {
        lemma_find_platform_absent(s, id, i + 1);
    }
}

/// Replaces the cached users of `Game.ini` by `users`, in order.
pub fn save_cached_users(game_ini: &mut Ini, users: &CachedUsers)
    ensures
        ini_entries(*final(game_ini)).remove((Some(SECTION_FUNCOM_LIVE_SERVICES@), KEY_CACHED_USERS@))
            == ini_entries(*old(game_ini)).remove((Some(SECTION_FUNCOM_LIVE_SERVICES@), KEY_CACHED_USERS@)),
        values_of(ini_entries(*final(game_ini)), Some(SECTION_FUNCOM_LIVE_SERVICES@), KEY_CACHED_USERS@)
            == users.view().map_values(|u: CachedUser| crate::auth::cached_user_text(crate::auth::cached_user_fields(u))),
{
    let ghost k = (Some(SECTION_FUNCOM_LIVE_SERVICES@), KEY_CACHED_USERS@);
    let ghost rest = ini_entries(*old(game_ini)).remove(k);
    let _ = ini_delete(game_ini, Some(SECTION_FUNCOM_LIVE_SERVICES), KEY_CACHED_USERS);
    let list = users.iter();
    let mut i: usize = 0;
    assert(ini_entries(*game_ini).remove(k) =~= rest);
    while i < list.len()
        invariant
            k == (Some(SECTION_FUNCOM_LIVE_SERVICES@), KEY_CACHED_USERS@),
            i <= list@.len(),
            list@ == users.view(),
            ini_entries(*game_ini).remove(k) == rest,
            values_of(ini_entries(*game_ini), k.0, k.1) == list@.take(i as int).map_values(
                |u: CachedUser| crate::auth::cached_user_text(crate::auth::cached_user_fields(u)),
            ),
        decreases list.len() - i,
    {
        let text = list[i].to_string();
        ini_add(game_ini, Some(SECTION_FUNCOM_LIVE_SERVICES), KEY_CACHED_USERS, text.as_str());
        assert(ini_entries(*game_ini).remove(k) =~= rest);
        assert(list@.take(i + 1).map_values(
            |u: CachedUser| crate::auth::cached_user_text(crate::auth::cached_user_fields(u)),
        ) =~= list@.take(i as int).map_values(
            |u: CachedUser| crate::auth::cached_user_text(crate::auth::cached_user_fields(u)),
        ).push(text@));
        i += 1;
    }
    assert(list@.take(list@.len() as int) == list@);
}

// ---------------------------------------------------------------------------
// Launching
// ---------------------------------------------------------------------------

/// The words that splitting `text` as a POSIX shell does gives, or `None` when the
/// text is not well formed (an unterminated quote or a trailing backslash).
pub uninterp spec fn shell_words(text: Seq<char>) -> Option<Seq<Seq<char>>>;

/// Splits `text` into words as a POSIX shell does (`shlex::split`).
#[verifier::external_body]
fn split_shell_words(text: &str) -> (r: Option<Vec<String>>)
    ensures
        r matches Some(v) ==> shell_words(text@) == Some(strings_of(v@)),
        r is None ==> shell_words(text@) is None,
{
    shlex::split(text)
}

/// The views of strings.
pub open spec fn strings_of(v: Seq<String>) -> Seq<Seq<char>> {
    v.map_values(|s: String| s@)
}

/// The command that launches the game.
pub struct LaunchCommand {
    /// The executable, relative to the game's directory.
    pub program: String,
    /// The arguments.
    pub args: Vec<String>,
    /// Whether the extra arguments were well formed; when they are not, they are left out.
    pub extra_args_valid: bool,
}

/// The executable of the game, relative to its directory: the one with BattlEye when it
/// is enabled.
pub open spec fn spec_program(enable_battleye: bool) -> Seq<char> {
    if enable_battleye {
        "ConanSandbox/Binaries/Win64/ConanSandbox_BE.exe"@
    } else {
        "ConanSandbox/Binaries/Win64/ConanSandbox.exe"@
    }
}

/// The arguments that launch the game: `args`, then `-BattlEye` when BattlEye is enabled,
/// `-USEALLAVAILABLECORES` when all cores are used, then the words of the extra
/// arguments when they split.
pub open spec fn spec_launch_args(
    args: Seq<Seq<char>>,
    enable_battleye: bool,
    use_all_cores: bool,
    extra: Option<Seq<Seq<char>>>,
) -> Seq<Seq<char>> {
    args + (if enable_battleye {
        seq!["-BattlEye"@]
    } else {
        seq![]
    }) + (if use_all_cores {
        seq!["-USEALLAVAILABLECORES"@]
    } else {
        seq![]
    }) + (match extra {
        Some(w) => w,
        None => seq![],
    })
}

/// The flags of a launch are independent: `-USEALLAVAILABLECORES` is added exactly when
/// all cores are used, whether or not BattlEye is enabled, right after the given arguments
/// and `-BattlEye`; `-BattlEye` is added exactly when BattlEye is enabled, right after the
/// given arguments; and without either flag the arguments are the given ones followed by
/// the extra words (none when they do not split).
pub proof fn lemma_launch_flags(args: Seq<Seq<char>>, enable_battleye: bool, use_all_cores: bool, extra: Option<Seq<Seq<char>>>)
    ensures
        spec_launch_args(args, enable_battleye, true, extra) == spec_launch_args(args, enable_battleye, false, extra).insert(
            args.len() + (if enable_battleye { 1int } else { 0int }),
            "-USEALLAVAILABLECORES"@,
        ),
        spec_launch_args(args, true, use_all_cores, extra) == spec_launch_args(args, false, use_all_cores, extra).insert(
            args.len() as int,
            "-BattlEye"@,
        ),
        spec_launch_args(args, false, false, extra) == args + (match extra {
            Some(w) => w,
            None => Seq::<Seq<char>>::empty(),
        }),
{
    let w = match extra {
        Some(w) => w,
        None => Seq::<Seq<char>>::empty(),
    };
    let b = if enable_battleye { seq!["-BattlEye"@] } else { Seq::<Seq<char>>::empty() };
    let c = if use_all_cores { seq!["-USEALLAVAILABLECORES"@] } else { Seq::<Seq<char>>::empty() };
    assert(spec_launch_args(args, enable_battleye, true, extra) =~= spec_launch_args(args, enable_battleye, false, extra).insert(
        args.len() + (if enable_battleye { 1int } else { 0int }),
        "-USEALLAVAILABLECORES"@,
    ));
    assert(spec_launch_args(args, true, use_all_cores, extra) =~= spec_launch_args(args, false, use_all_cores, extra).insert(
        args.len() as int,
        "-BattlEye"@,
    ));
    assert(spec_launch_args(args, false, false, extra) =~= args + w);
}

/// The views of string slices.
pub open spec fn strs_of(v: Seq<&str>) -> Seq<Seq<char>> {
    v.map_values(|s: &str| s@)
}

fn push_all(out: &mut Vec<String>, words: &Vec<String>)
    ensures
        strings_of(final(out)@) == strings_of(old(out)@) + strings_of(words@),
{
    let mut i: usize = 0;
    while i < words.len()
        invariant
            i <= words@.len(),
            strings_of(out@) == strings_of(old(out)@) + strings_of(words@.take(i as int)),
        decreases words.len() - i,
    {
        let ghost before = out@;
        out.push(words[i].clone());
        assert(strings_of(out@) =~= strings_of(before).push(words@[i as int]@));
        assert(strings_of(words@.take(i + 1)) =~= strings_of(words@.take(i as int)).push(words@[i as int]@));
        i += 1;
    }
    assert(words@.take(words@.len() as int) == words@);
}

/// The command that launches the game with `options` and `args`.
pub fn launch_command(options: &LaunchOptions, args: &[&str]) -> (r: LaunchCommand)
    ensures
        r.program@ == spec_program(options.enable_battleye),
        strings_of(r.args@) == spec_launch_args(
            strs_of(args@),
            options.enable_battleye,
            options.use_all_cores,
            shell_words(options.extra_args@),
        ),
        r.extra_args_valid == shell_words(options.extra_args@) is Some,
{
    let program = if options.enable_battleye {
        "ConanSandbox/Binaries/Win64/ConanSandbox_BE.exe".to_string()
    } else {
        "ConanSandbox/Binaries/Win64/ConanSandbox.exe".to_string()
    };
    let mut out: Vec<String> = Vec::new();
    let mut i: usize = 0;
    while i < args.len()
        invariant
            i <= args@.len(),
            strings_of(out@) == strs_of(args@.take(i as int)),
        decreases args.len() - i,
    {
        let ghost before = out@;
        out.push(args[i].to_string());
        assert(strings_of(out@) =~= strings_of(before).push(args@[i as int]@));
        assert(strs_of(args@.take(i + 1)) =~= strs_of(args@.take(i as int)).push(args@[i as int]@));
        i += 1;
    }
    assert(args@.take(args@.len() as int) == args@);
    let ghost base = strings_of(out@);
    if options.enable_battleye {
        out.push("-BattlEye".to_string());
    }
    let ghost with_be = strings_of(out@);
    assert(with_be =~= base + (if options.enable_battleye {
        seq!["-BattlEye"@]
    } else {
        Seq::<Seq<char>>::empty()
    }));
    if options.use_all_cores {
        out.push("-USEALLAVAILABLECORES".to_string());
    }
    let ghost with_cores = strings_of(out@);
    assert(with_cores =~= with_be + (if options.use_all_cores {
        seq!["-USEALLAVAILABLECORES"@]
    } else {
        Seq::<Seq<char>>::empty()
    }));
    let extra = split_shell_words(options.extra_args.as_str());
    let valid = extra.is_some();
    match &extra {
        Some(words) => push_all(&mut out, words),
        None => {
            assert(strings_of(out@) =~= with_cores + Seq::<Seq<char>>::empty());
        },
    }
    LaunchCommand { program, args: out, extra_args_valid: valid }
}

// ---------------------------------------------------------------------------
// The installation
// ---------------------------------------------------------------------------

/// `base` followed by `rel`, separated by `/` unless `base` is empty or already ends with
/// a separator (`/` or `\\`).
pub open spec fn spec_join(base: Seq<char>, rel: Seq<char>) -> Seq<char> {
    if base.len() == 0 {
        rel
    } else if base.last() == '/' || base.last() == '\\' {
        base + rel
    } else {
        base + seq!['/'] + rel
    }
}

/// `base` followed by `rel`.
pub fn join_path(base: &str, rel: &str) -> (r: String)
    ensures
        r@ == spec_join(base@, rel@),
{
    let bc = chars_of(base);
    let mut s = string_of(bc.as_slice());
    if bc.len() > 0 && bc[bc.len() - 1] != '/' && bc[bc.len() - 1] != '\\' {
        s.push('/');
    }
    crate::text::push_str(&mut s, rel);
    s
}

/// The directory of the saved games, below the game's directory.
pub const SAVED_DIR: &'static str = "ConanSandbox/Saved";

/// The game's configuration, below the saved games.
pub const GAME_INI: &'static str = "Config/WindowsNoEditor/Game.ini";

/// The list of active mods, below the game's directory.
pub const MOD_LIST: &'static str = "ConanSandbox/Mods/modlist.txt";

/// The archive of the base game, below the game's directory.
pub const BASE_PAK: &'static str = "ConanSandbox/Content/Paks/Base.pak";

/// The installed game.
pub struct Game {
    root: String,
    branch: Branch,
    needs_update: bool,
    version: (u32, u16),
    save_path: String,
    game_ini_path: String,
    mod_list_path: String,
    installed_mods: self::mod_info::Mods,
    maps: Vec<MapInfo>,
    last_session: Option<Session>,
}

impl Game {
    /// The branch.
    pub closed spec fn branch_of(&self) -> Branch {
        self.branch
    }

    /// Whether Steam has an update for the game.
    pub closed spec fn update_pending(&self) -> bool {
        self.needs_update
    }

    /// The version.
    pub closed spec fn version_of(&self) -> (u32, u16) {
        self.version
    }

    /// The game's directory.
    pub closed spec fn root_view(&self) -> Seq<char> {
        self.root@
    }

    /// The installed mods.
    pub closed spec fn mods_view(&self) -> Seq<self::mod_info::ModInfo> {
        self.installed_mods.view()
    }

    /// The maps.
    pub closed spec fn maps_seq(&self) -> Seq<MapInfo> {
        self.maps@
    }

    /// The directory of the saved games.
    pub closed spec fn save_view(&self) -> Seq<char> {
        self.save_path@
    }

    /// The last session.
    pub closed spec fn session_view(&self) -> Option<SessionView> {
        session_view(self.last_session)
    }

    /// The game at `game_path` on `branch`, in `version`, with the installed mods (kept
    /// in order of name), the maps of the base game and of the mods, and the last session
    /// that `Game.ini` records (`game_ini`, with the address of its last server read as
    /// `last_connected`).
    pub fn new(
        game_path: String,
        branch: Branch,
        needs_update: bool,
        version: (u32, u16),
        installed_mods: Vec<self::mod_info::ModInfo>,
        maps: Vec<MapInfo>,
        game_ini: Option<&Ini>,
        last_connected: Option<SocketAddress>,
    ) -> (r: Self)
        ensures
            r.root_view() == game_path@,
            r.branch_of() == branch,
            r.update_pending() == needs_update,
            r.version_of() == version,
            r.save_view() == spec_join(game_path@, SAVED_DIR@),
            r.game_ini_view() == spec_join(spec_join(game_path@, SAVED_DIR@), GAME_INI@),
            r.mod_list_view() == spec_join(game_path@, MOD_LIST@),
            self::mod_info::sorted_by_name(r.mods_view()),
            r.mods_view().to_multiset() == installed_mods@.to_multiset(),
            forall|n: Seq<char>| #[trigger] self::mod_info::named(r.mods_view(), n) == self::mod_info::named(installed_mods@, n),
            r.maps_seq() == maps@,
            r.session_view() == spec_last_session(opt_entries(game_ini), maps_view(maps@), last_connected),
    {
        let save_path = join_path(game_path.as_str(), SAVED_DIR);
        let game_ini_path = join_path(save_path.as_str(), GAME_INI);
        let mod_list_path = join_path(game_path.as_str(), MOD_LIST);
        let sorted = self::mod_info::sort_by_name(installed_mods);
        let last = last_session(game_ini, maps.as_slice(), last_connected);
        Game {
            root: game_path,
            branch,
            needs_update,
            version,
            save_path,
            game_ini_path,
            mod_list_path,
            installed_mods: self::mod_info::Mods::new(sorted),
            maps,
            last_session: last,
        }
    }

    /// The branch.
    pub fn branch(&self) -> (r: Branch)
        ensures
            r == self.branch_of(),
    {
        self.branch
    }

    /// Whether Steam has an update for the game.
    pub fn needs_update(&self) -> (r: bool)
        ensures
            r == self.update_pending(),
    {
        self.needs_update
    }

    /// The version (revision, snapshot).
    pub fn version(&self) -> (r: (u32, u16))
        ensures
            r == self.version_of(),
    {
        self.version
    }

    /// The build id of the version.
    pub fn build_id(&self) -> (r: u32)
        ensures
            r == spec_build_id(self.version_of()),
    {
        build_id(self.version)
    }

    /// The game's directory.
    pub fn installation_path(&self) -> (r: &str)
        ensures
            r@ == self.root_view(),
    {
        self.root.as_str()
    }

    /// The directory of the saved games.
    pub fn save_path(&self) -> (r: &str)
        ensures
            r@ == self.save_view(),
    {
        self.save_path.as_str()
    }

    /// The path of `Game.ini`.
    pub closed spec fn game_ini_view(&self) -> Seq<char> {
        self.game_ini_path@
    }

    /// The path of the mod list.
    pub closed spec fn mod_list_view(&self) -> Seq<char> {
        self.mod_list_path@
    }

    /// The path of `Game.ini`.
    pub fn game_ini_path(&self) -> (r: &str)
        ensures
            r@ == self.game_ini_view(),
    {
        self.game_ini_path.as_str()
    }

    /// The path of the mod list.
    pub fn mod_list_path(&self) -> (r: &str)
        ensures
            r@ == self.mod_list_view(),
    {
        self.mod_list_path.as_str()
    }

    /// The database of the game in progress on map `map_id`.
    pub fn in_progress_game_path(&self, map_id: usize) -> (r: String)
        requires
            map_id < self.maps_seq().len(),
        ensures
            r@ == spec_join(self.save_view(), self.maps_seq()[map_id as int].db_name@),
    {
        join_path(self.save_path.as_str(), self.maps[map_id].db_name.as_str())
    }

    /// The installed mods.
    pub fn installed_mods(&self) -> (r: &self::mod_info::Mods)
        ensures
            r.view() == self.mods_view(),
    {
        &self.installed_mods
    }

    /// The maps.
    pub fn maps(&self) -> (r: &[MapInfo])
        ensures
            r@ == self.maps_seq(),
    {
        self.maps.as_slice()
    }

    /// The last session.
    pub fn last_session(&self) -> (r: &Option<Session>)
        ensures
            session_view(*r) == self.session_view(),
    {
        &self.last_session
    }

    /// The command that continues the last session.
    pub fn continue_session(&self, options: &LaunchOptions) -> (r: LaunchCommand)
        ensures
            r.program@ == spec_program(options.enable_battleye),
            strings_of(r.args@) == spec_launch_args(
                seq!["-continuesession"@],
                options.enable_battleye,
                options.use_all_cores,
                shell_words(options.extra_args@),
            ),
            r.extra_args_valid == shell_words(options.extra_args@) is Some,
    {
        let args: [&str; 1] = ["-continuesession"];
        let r = launch_command(options, args.as_slice());
        assert(strs_of(args@) =~= seq!["-continuesession"@]);
        r
    }

    /// Records in `Game.ini` a single-player game on map `map_id`, and gives the command
    /// that starts it.
    pub fn launch_single_player(&self, game_ini: &mut Ini, map_id: usize, options: &LaunchOptions) -> (r: LaunchCommand)
        requires
            map_id < self.maps_seq().len(),
        ensures
            ini_entries(*final(game_ini)) == ini_entries(*old(game_ini)).insert(
                (Some(SECTION_SAVED_COOP_DATA@), KEY_LAST_MAP@),
                seq![self.maps_seq()[map_id as int].asset_path@],
            ).insert((Some(SECTION_SAVED_COOP_DATA@), KEY_STARTED_LISTEN_SERVER_SESSION@), seq!["True"@]).insert(
                (Some(SECTION_SAVED_COOP_DATA@), KEY_WAS_COOP_ENABLED@),
                seq!["False"@],
            ),
            r.program@ == spec_program(options.enable_battleye),
            strings_of(r.args@) == spec_launch_args(
                seq!["-continuesession"@],
                options.enable_battleye,
                options.use_all_cores,
                shell_words(options.extra_args@),
            ),
            r.extra_args_valid == shell_words(options.extra_args@) is Some,
    {
        record_single_player(game_ini, self.maps[map_id].asset_path.as_str());
        self.continue_session(options)
    }

    /// Records in `Game.ini` that the next session joins the server at `addr` (its
    /// text), and gives the command that starts it.
    pub fn join_server(&self, game_ini: &mut Ini, addr: &str, password: Option<&str>, options: &LaunchOptions) -> (r: LaunchCommand)
        ensures
            ini_entries(*final(game_ini)) == ini_entries(*old(game_ini)).insert(
                (Some(SECTION_SAVED_SERVERS@), KEY_LAST_CONNECTED@),
                seq![addr@],
            ).insert(
                (Some(SECTION_SAVED_SERVERS@), KEY_LAST_PASSWORD@),
                seq![
                    match password {
                        Some(p) => p@,
                        None => Seq::<char>::empty(),
                    }
                ],
            ).insert((Some(SECTION_SAVED_COOP_DATA@), KEY_STARTED_LISTEN_SERVER_SESSION@), seq!["False"@]),
            r.program@ == spec_program(options.enable_battleye),
            strings_of(r.args@) == spec_launch_args(
                seq!["-continuesession"@],
                options.enable_battleye,
                options.use_all_cores,
                shell_words(options.extra_args@),
            ),
            r.extra_args_valid == shell_words(options.extra_args@) is Some,
    {
        record_join_server(game_ini, addr, password);
        self.continue_session(options)
    }
}

/// The text of a map reference: the map's display name, or the unknown asset path.
pub fn map_ref_text(maps: &[MapInfo], map_ref: &MapRef) -> (r: String)
    requires
        map_ref matches MapRef::Known { map_id } ==> map_id < maps@.len(),
    ensures
        r@ == (match map_ref.view() {
            MapRefView::Known(i) => maps@[i as int].display_name@,
            MapRefView::Unknown(p) => "<unknown map: "@ + p + ">"@,
        }),
{
    match map_ref {
        MapRef::Known { map_id } => maps[*map_id].display_name.clone(),
        MapRef::Unknown { asset_path } => {
            let mut s = String::new();
            crate::text::push_str(&mut s, "<unknown map: ");
            crate::text::push_str(&mut s, asset_path.as_str());
            crate::text::push_str(&mut s, ">");
            s
        },
    }
}

/// Whether the launched game is still starting or ready.
#[derive(Debug, Clone, Copy, PartialEq, Eq, Structural)]
pub enum LaunchState {
    Pending,
    Ready,
}

// ---------------------------------------------------------------------------
// Saved games
// ---------------------------------------------------------------------------

/// Why a saved game's database cannot be listed.
#[derive(Debug, Clone, Copy, PartialEq, Eq, Structural)]
pub enum SaveError {
    /// No actor has a position: the database holds no map.
    NoActors,
    /// The map of the actors is not a known map.
    UnrecognizedMap,
    /// The actors are on more than one map.
    MultipleMaps,
}

/// The index of the first map at or after `i` whose object name is `object_name`.
pub open spec fn find_object(maps: Seq<MapView>, object_name: Seq<char>, i: int) -> Option<int>
    decreases maps.len() - i,
{
    if i < 0 || i >= maps.len() {
        None
    } else if maps[i].2 == object_name {
        Some(i)
    } else {
        find_object(maps, object_name, i + 1)
    }
}

/// The map of a saved game, from the distinct maps that its actors are on
/// (`map_names`, as the database lists them): the known map whose object name is the
/// first of them; an error when there is none, when that map is not known, or when
/// there is more than one.
pub fn db_map_index(maps: &[MapInfo], map_names: &[String]) -> (r: Result<usize, SaveError>)
    ensures
        map_names@.len() == 0 ==> r == Err::<usize, SaveError>(SaveError::NoActors),
        map_names@.len() > 0 ==> match find_object(maps_view(maps@), map_names@[0]@, 0) {
            None => r == Err::<usize, SaveError>(SaveError::UnrecognizedMap),
            Some(i) => if map_names@.len() > 1 {
                r == Err::<usize, SaveError>(SaveError::MultipleMaps)
            } else {
                r == Ok::<usize, SaveError>(i as usize)
            },
        },
{
    if map_names.len() == 0 {
        return Err(SaveError::NoActors);
    }
    let name = map_names[0].as_str();
    let mut i: usize = 0;
    while i < maps.len()
        invariant
            i <= maps@.len(),
            map_names@.len() > 0,
            name@ == map_names@[0]@,
            find_object(maps_view(maps@), name@, 0) == find_object(maps_view(maps@), name@, i as int),
        decreases maps.len() - i,
    {
        if crate::text::str_eq(maps[i].object_name.as_str(), name) {
            if map_names.len() > 1 {
                return Err(SaveError::MultipleMaps);
            }
            return Ok(i);
        }
        i += 1;
    }
    Err(SaveError::UnrecognizedMap)
}

} // verus!
