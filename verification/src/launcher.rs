//! The decisions of the launcher between the screens and the game: what the player is
//! able to play, whether BattlEye is used for a session, what an offline launch needs,
//! and whether the mod list matches a single-player game.
use vstd::prelude::*;

use crate::auth::{Account, AuthState, CachedUsers, Capability, PlatformUser, TaskState, platform_id_of};
use crate::config::BattlEyeUsage;
use crate::game::{strings_of, Session};
use crate::game::mod_list::refs_view;
use crate::game::mod_info::{found_or, folder_names, ModInfo, ModRef, ModRefView, Mods};
use crate::text::{push_str, str_eq};

verus! {

/// The message of a missing platform user.
pub open spec fn steam_not_running() -> Seq<char> {
    "Steam not running"@
}

/// The message of a platform that is offline.
pub open spec fn steam_offline() -> Seq<char> {
    "Steam in offline mode"@
}

/// A capability as plain values.
pub open spec fn capability_view(c: TaskState<Capability>) -> TaskState<Result<(), Seq<char>>> {
    match c {
        TaskState::Pending => TaskState::Pending,
        TaskState::Ready(Ok(())) => TaskState::Ready(Ok(())),
        TaskState::Ready(Err(e)) => TaskState::Ready(Err(e@)),
    }
}

/// Whether online play is possible: it needs the platform user, the platform online
/// and the Funcom Live Services account.
pub open spec fn spec_online_capability(
    platform_user: Result<PlatformUser, String>,
    online: bool,
    fls_account: TaskState<Result<Account, String>>,
) -> TaskState<Result<(), Seq<char>>> {
    match platform_user {
        Err(e) => TaskState::Ready(Err(e@)),
        Ok(_) => if !online {
            TaskState::Ready(Err(steam_offline()))
        } else {
            match fls_account {
                TaskState::Pending => TaskState::Pending,
                TaskState::Ready(Ok(_)) => TaskState::Ready(Ok(())),
                TaskState::Ready(Err(_)) => TaskState::Ready(Err("FLS error"@)),
            }
        },
    }
}

/// Whether single-player play is possible: it needs the platform user and the Funcom
/// Live Services account, online or remembered.
pub open spec fn spec_sp_capability(
    platform_user: Result<PlatformUser, String>,
    fls_account: TaskState<Result<Account, String>>,
) -> TaskState<Result<(), Seq<char>>> {
    match platform_user {
        Err(e) => TaskState::Ready(Err(e@)),
        Ok(_) => match fls_account {
            TaskState::Pending => TaskState::Pending,
            TaskState::Ready(Ok(_)) => TaskState::Ready(Ok(())),
            TaskState::Ready(Err(_)) => TaskState::Ready(Err("FLS account not cached"@)),
        },
    }
}

fn copy_string(s: &String) -> (r: String)
    ensures
        r@ == s@,
{
    s.clone()
}

fn copy_account(a: &Account) -> (r: Account)
    ensures
        r == *a,
{
    Account {
        master_id: a.master_id.clone(),
        title_id: a.title_id.clone(),
        display_name: a.display_name.clone(),
        platform_id: a.platform_id.clone(),
    }
}

/// Whether online play is possible for `platform_user`, with the platform `online` or
/// not, and the state of the Funcom Live Services account.
pub fn online_capability(
    platform_user: &Result<PlatformUser, String>,
    online: bool,
    fls_account: &TaskState<Result<Account, String>>,
) -> (r: TaskState<Capability>)
    ensures
        capability_view(r) == spec_online_capability(*platform_user, online, *fls_account),
{
    match platform_user {
        Err(e) => TaskState::Ready(Err(copy_string(e))),
        Ok(_) => if !online {
            TaskState::Ready(Err("Steam in offline mode".to_string()))
        } else {
            match fls_account {
                TaskState::Pending => TaskState::Pending,
                TaskState::Ready(Ok(_)) => TaskState::Ready(Ok(())),
                TaskState::Ready(Err(_)) => TaskState::Ready(Err("FLS error".to_string())),
            }
        },
    }
}

/// Whether single-player play is possible for `platform_user` and the state of the
/// Funcom Live Services account.
pub fn sp_capability(
    platform_user: &Result<PlatformUser, String>,
    fls_account: &TaskState<Result<Account, String>>,
) -> (r: TaskState<Capability>)
    ensures
        capability_view(r) == spec_sp_capability(*platform_user, *fls_account),
{
    match platform_user {
        Err(e) => TaskState::Ready(Err(copy_string(e))),
        Ok(_) => match fls_account {
            TaskState::Pending => TaskState::Pending,
            TaskState::Ready(Ok(_)) => TaskState::Ready(Ok(())),
            TaskState::Ready(Err(_)) => TaskState::Ready(Err("FLS account not cached".to_string())),
        },
    }
}

/// The platform user, or the error that there is none.
fn platform_user_of(user: Option<PlatformUser>) -> (r: Result<PlatformUser, String>)
    ensures
        match user {
            Some(u) => r == Ok::<PlatformUser, String>(u),
            None => r matches Err(e) && e@ == steam_not_running(),
        },
{
    match user {
        Some(u) => Ok(u),
        None => Err("Steam not running".to_string()),
    }
}

/// What the launcher knows of the player's accounts when it starts or refreshes: the
/// platform user; the account remembered for that user, or else a pending login when the
/// platform is online, or else the error that it is offline; and the capabilities that
/// follow. A pending account asks the caller to log in.
pub fn auth_state(user: Option<PlatformUser>, cached_users: &CachedUsers, online: bool) -> (r: AuthState)
    requires
        cached_users.wf(),
    ensures
        match user {
            Some(u) => r.platform_user == Ok::<PlatformUser, String>(u),
            None => r.platform_user matches Err(e) && e@ == steam_not_running(),
        },
        match user {
            Some(u) => match r.fls_account {
                TaskState::Ready(Ok(a)) => exists|i: int|
                    0 <= i < cached_users.view().len() && #[trigger] cached_users.view()[i].account == a
                        && platform_id_of(cached_users.view()[i]) == u.id@,
                TaskState::Pending => online && forall|i: int|
                    0 <= i < cached_users.view().len() ==> platform_id_of(#[trigger] cached_users.view()[i]) != u.id@,
                TaskState::Ready(Err(e)) => !online && e@ == steam_offline() && forall|i: int|
                    0 <= i < cached_users.view().len() ==> platform_id_of(#[trigger] cached_users.view()[i]) != u.id@,
            },
            None => r.fls_account matches TaskState::Ready(Err(e)) && e@ == steam_not_running(),
        },
        capability_view(r.online_capability) == spec_online_capability(r.platform_user, online, r.fls_account),
        capability_view(r.sp_capability) == spec_sp_capability(r.platform_user, r.fls_account),
{
    let platform_user = platform_user_of(user);
    let fls_account = match &platform_user {
        Ok(u) => match cached_users.by_platform_id(u.id.as_str()) {
            Some(cached) => TaskState::Ready(Ok(copy_account(&cached.account))),
            None => if online {
                TaskState::Pending
            } else {
                TaskState::Ready(Err("Steam in offline mode".to_string()))
            },
        },
        Err(e) => TaskState::Ready(Err(copy_string(e))),
    };
    let online_capability = online_capability(&platform_user, online, &fls_account);
    let sp_capability = sp_capability(&platform_user, &fls_account);
    AuthState { platform_user, fls_account, online_capability, sp_capability }
}

/// What the launcher knows of the player's accounts once the login has answered with
/// `account`: the platform user, that answer, and the capabilities that follow.
pub fn auth_state_after_login(user: Option<PlatformUser>, account: Result<Account, String>, online: bool) -> (r: AuthState)
    ensures
        match user {
            Some(u) => r.platform_user == Ok::<PlatformUser, String>(u),
            None => r.platform_user matches Err(e) && e@ == steam_not_running(),
        },
        r.fls_account == TaskState::Ready(account),
        capability_view(r.online_capability) == spec_online_capability(r.platform_user, online, r.fls_account),
        capability_view(r.sp_capability) == spec_sp_capability(r.platform_user, r.fls_account),
{
    let platform_user = platform_user_of(user);
    let fls_account = TaskState::Ready(account);
    let online_capability = online_capability(&platform_user, online, &fls_account);
    let sp_capability = sp_capability(&platform_user, &fls_account);
    AuthState { platform_user, fls_account, online_capability, sp_capability }
}

/// Whether BattlEye is used for continuing the last session.
#[derive(Debug, Clone, Copy, PartialEq, Eq, Structural)]
pub enum SessionBattlEyeUsage {
    /// Decided: with BattlEye or without.
    Resolved(bool),
    /// The server of the session may still be found in the server list being loaded.
    WaitForServerLoader,
    /// Only the player can tell.
    AskUser,
}

/// Whether BattlEye is used for continuing `last_session`: as configured, if it is;
/// otherwise not for a local game; for an online session the list of servers may still
/// tell (while it loads), else the player is asked, as for no session at all.
pub open spec fn spec_last_session_battleye(
    use_battleye: BattlEyeUsage,
    last_session: Option<Session>,
    loading_servers: bool,
) -> SessionBattlEyeUsage {
    match use_battleye {
        BattlEyeUsage::Always(enabled) => SessionBattlEyeUsage::Resolved(enabled),
        BattlEyeUsage::Auto => match last_session {
            Some(Session::Online(_)) => if loading_servers {
                SessionBattlEyeUsage::WaitForServerLoader
            } else {
                SessionBattlEyeUsage::AskUser
            },
            Some(_) => SessionBattlEyeUsage::Resolved(false),
            None => SessionBattlEyeUsage::AskUser,
        },
    }
}

/// Under a fixed setting the setting decides, whatever the session. Under `Auto`
/// BattlEye is never chosen by itself: a local session (single-player or co-op) goes
/// without it, and only an online session may wait for the server list, which matters
/// for nothing else.
pub proof fn lemma_session_battleye(use_battleye: BattlEyeUsage, last_session: Option<Session>, loading: bool)
    ensures
        use_battleye matches BattlEyeUsage::Always(e) ==> spec_last_session_battleye(use_battleye, last_session, loading)
            == SessionBattlEyeUsage::Resolved(e),
        use_battleye == BattlEyeUsage::Auto ==> spec_last_session_battleye(use_battleye, last_session, loading)
            != SessionBattlEyeUsage::Resolved(true),
        use_battleye == BattlEyeUsage::Auto ==> ((spec_last_session_battleye(use_battleye, last_session, loading)
            == SessionBattlEyeUsage::Resolved(false)) <==> (last_session matches Some(s) && !(s is Online))),
        use_battleye == BattlEyeUsage::Auto && !(last_session matches Some(Session::Online(_))) ==> spec_last_session_battleye(
            use_battleye,
            last_session,
            true,
        ) == spec_last_session_battleye(use_battleye, last_session, false),
        (spec_last_session_battleye(use_battleye, last_session, loading) == SessionBattlEyeUsage::WaitForServerLoader)
            ==> loading && use_battleye == BattlEyeUsage::Auto && last_session matches Some(Session::Online(_)),
{
}

/// Whether BattlEye is used for continuing `last_session`, while the server list is
/// `loading_servers` or not.
pub fn last_session_battleye(
    use_battleye: BattlEyeUsage,
    last_session: &Option<Session>,
    loading_servers: bool,
) -> (r: SessionBattlEyeUsage)
    ensures
        r == spec_last_session_battleye(use_battleye, *last_session, loading_servers),
{
    match use_battleye {
        BattlEyeUsage::Always(enabled) => SessionBattlEyeUsage::Resolved(enabled),
        BattlEyeUsage::Auto => match last_session {
            Some(Session::Online(_)) => if loading_servers {
                SessionBattlEyeUsage::WaitForServerLoader
            } else {
                SessionBattlEyeUsage::AskUser
            },
            Some(_) => SessionBattlEyeUsage::Resolved(false),
            None => SessionBattlEyeUsage::AskUser,
        },
    }
}

/// Whether BattlEye is used for a new launch: as configured, or `None` when the player
/// is to be asked.
pub fn launch_battleye(use_battleye: BattlEyeUsage) -> (r: Option<bool>)
    ensures
        r == (match use_battleye {
            BattlEyeUsage::Always(enabled) => Some(enabled),
            BattlEyeUsage::Auto => None::<bool>,
        }),
{
    match use_battleye {
        BattlEyeUsage::Always(enabled) => Some(enabled),
        BattlEyeUsage::Auto => None,
    }
}

/// Whether BattlEye is used for joining a server: as configured, or as the server
/// requires, or `None` when neither tells and the player is to be asked.
pub fn join_battleye(use_battleye: BattlEyeUsage, battleye_required: Option<bool>) -> (r: Option<bool>)
    ensures
        r == (match use_battleye {
            BattlEyeUsage::Always(enabled) => Some(enabled),
            BattlEyeUsage::Auto => battleye_required,
        }),
{
    match use_battleye {
        BattlEyeUsage::Always(enabled) => Some(enabled),
        BattlEyeUsage::Auto => battleye_required,
    }
}

/// Whether BattlEye is used for a single-player game: only when it is always enabled.
pub fn single_player_battleye(use_battleye: BattlEyeUsage) -> (r: bool)
    ensures
        r == (use_battleye == BattlEyeUsage::Always(true)),
{
    match use_battleye {
        BattlEyeUsage::Always(enabled) => enabled,
        BattlEyeUsage::Auto => false,
    }
}

/// Why a launch is refused.
#[derive(Debug, Clone, Copy, PartialEq, Eq, Structural)]
pub enum LaunchError {
    /// Online play while the platform is offline.
    SteamNotOnline,
    /// Offline single-player play without a remembered account.
    FlsAccountNotCached,
}

impl LaunchError {
    /// The message shown for the error.
    pub fn message(&self) -> (r: &'static str)
        ensures
            r@ == (match *self {
                LaunchError::SteamNotOnline => "Steam is in offline mode. Online play is disabled."@,
                LaunchError::FlsAccountNotCached => "Steam is offline and the game has not stored your FLS account info. You need to start the game in online mode at least once before you can play offline."@,
            }),
    {
        match self {
            LaunchError::SteamNotOnline => {
                let r = "Steam is in offline mode. Online play is disabled.";
                proof {
                    reveal_strlit("Steam is in offline mode. Online play is disabled.");
                }
                r
            },
            LaunchError::FlsAccountNotCached => {
                let r = "Steam is offline and the game has not stored your FLS account info. You need to start the game in online mode at least once before you can play offline.";
                proof {
                    reveal_strlit("Steam is offline and the game has not stored your FLS account info. You need to start the game in online mode at least once before you can play offline.");
                }
                r
            },
        }
    }
}

/// Whether the game remembers a Funcom Live Services account for the platform user.
pub open spec fn has_cached_account(user: Option<PlatformUser>, cached_users: CachedUsers) -> bool {
    match user {
        Some(u) => exists|i: int| 0 <= i < cached_users.view().len() && platform_id_of(#[trigger] cached_users.view()[i]) == u.id@,
        None => false,
    }
}

fn cached_account_known(user: &Option<PlatformUser>, cached_users: &CachedUsers) -> (r: bool)
    requires
        cached_users.wf(),
    ensures
        r == has_cached_account(*user, *cached_users),
{
    match user {
        Some(u) => match cached_users.by_platform_id(u.id.as_str()) {
            Some(_) => true,
            None => false,
        },
        None => false,
    }
}

/// Whether a single-player game can start: online it can; offline it needs the account
/// that the game remembers for the platform user. `Ok(true)` asks the caller to warn that
/// the game cannot log in by itself offline.
pub fn check_single_player_launch(online: bool, user: &Option<PlatformUser>, cached_users: &CachedUsers) -> (r: Result<bool, LaunchError>)
    requires
        cached_users.wf(),
    ensures
        r == (if online {
            Ok::<bool, LaunchError>(false)
        } else if has_cached_account(*user, *cached_users) {
            Ok(true)
        } else {
            Err(LaunchError::FlsAccountNotCached)
        }),
{
    if online {
        Ok(false)
    } else if cached_account_known(user, cached_users) {
        Ok(true)
    } else {
        Err(LaunchError::FlsAccountNotCached)
    }
}

/// Whether a server can be joined: only online.
pub fn check_join_server(online: bool) -> (r: Result<(), LaunchError>)
    ensures
        r == (if online {
            Ok::<(), LaunchError>(())
        } else {
            Err(LaunchError::SteamNotOnline)
        }),
{
    if online {
        Ok(())
    } else {
        Err(LaunchError::SteamNotOnline)
    }
}

/// Whether the last session can be continued: online it can; offline an online session
/// cannot, and a single-player one needs the remembered account (`Ok(true)` asks the
/// caller to warn, as for a new single-player game).
pub fn check_continue_session(
    online: bool,
    last_session: &Option<Session>,
    user: &Option<PlatformUser>,
    cached_users: &CachedUsers,
) -> (r: Result<bool, LaunchError>)
    requires
        cached_users.wf(),
    ensures
        r == (if online {
            Ok::<bool, LaunchError>(false)
        } else {
            match *last_session {
                Some(Session::Online(_)) => Err(LaunchError::SteamNotOnline),
                Some(Session::SinglePlayer(_)) => if has_cached_account(*user, *cached_users) {
                    Ok(true)
                } else {
                    Err(LaunchError::FlsAccountNotCached)
                },
                _ => Ok(false),
            }
        }),
{
    if online {
        return Ok(false);
    }
    match last_session {
        Some(Session::Online(_)) => Err(LaunchError::SteamNotOnline),
        Some(Session::SinglePlayer(_)) => check_single_player_launch(false, user, cached_users),
        _ => Ok(false),
    }
}

// ---------------------------------------------------------------------------
// Mods of a single-player game
// ---------------------------------------------------------------------------

/// The prefix of the mod controllers that a game database lists.
pub open spec fn mods_prefix() -> Seq<char> {
    "/Game/Mods/"@
}

/// The end of the run of characters other than `/` that starts at `j`.
pub open spec fn run_end(s: Seq<char>, j: int) -> int
    decreases s.len() - j,
{
    if j < 0 || j >= s.len() || s[j] == '/' {
        j
    } else {
        run_end(s, j + 1)
    }
}

/// Whether `/Game/Mods/`, a folder name and a `/` start at `i`.
pub open spec fn folder_match_at(s: Seq<char>, i: int) -> bool {
    let start = i + mods_prefix().len();
    &&& 0 <= i
    &&& start <= s.len()
    &&& s.subrange(i, start) == mods_prefix()
    &&& run_end(s, start) > start
    &&& run_end(s, start) < s.len()
}

/// The first position at or after `i` where a folder match starts.
pub open spec fn first_folder_match(s: Seq<char>, i: int) -> Option<int>
    decreases s.len() - i,
{
    if i < 0 || i >= s.len() {
        None
    } else if folder_match_at(s, i) {
        Some(i)
    } else {
        first_folder_match(s, i + 1)
    }
}

/// The mod folder that a mod controller belongs to: what the pattern
/// `/Game/Mods/([^/]+)/.*` captures, looking from the left.
pub open spec fn controller_folder(s: Seq<char>) -> Option<Seq<char>> {
    match first_folder_match(s, 0) {
        Some(i) => Some(s.subrange(i + mods_prefix().len(), run_end(s, i + mods_prefix().len()))),
        None => None,
    }
}

/// Calls `regex::Regex::captures` with the pattern `/Game/Mods/([^/]+)/.*` and takes the
/// first group. The result is what `controller_folder` describes, the leftmost
/// match of that pattern (the class `[^/]` takes every character but `/`, and `.*` may
/// match nothing).
#[verifier::external_body]
fn capture_controller_folder(controller: &str) -> (r: Option<String>)
    ensures
        match r {
            Some(f) => controller_folder(controller@) == Some(f@),
            None => controller_folder(controller@) is None,
        },
{
    let re = regex::Regex::new("/Game/Mods/([^/]+)/.*").unwrap();
    let caps = re.captures(controller)?;
    let m = caps.get(1)?;
    Some(m.as_str().to_string())
}

/// The folders that the mod controllers ask for, each once, in order of first mention.
pub open spec fn required_folders(controllers: Seq<Seq<char>>) -> Seq<Seq<char>>
    decreases controllers.len(),
{
    if controllers.len() == 0 {
        seq![]
    } else {
        let r = required_folders(controllers.drop_last());
        match controller_folder(controllers.last()) {
            Some(f) => if r.contains(f) {
                r
            } else {
                r.push(f)
            },
            None => r,
        }
    }
}

fn contains_string(v: &Vec<String>, x: &str) -> (r: bool)
    ensures
        r == strings_of(v@).contains(x@),
{
    let mut i: usize = 0;
    while i < v.len()
        invariant
            i <= v@.len(),
            forall|k: int| 0 <= k < i ==> strings_of(v@)[k] != x@,
        decreases v.len() - i,
    {
        if str_eq(v[i].as_str(), x) {
            assert(strings_of(v@)[i as int] == x@);
            return true;
        }
        i += 1;
    }
    false
}

/// The folders that the mod controllers of a game database ask for, each once, in order
/// of first mention.
pub fn mod_folders(controllers: &[String]) -> (r: Vec<String>)
    ensures
        strings_of(r@) == required_folders(strings_of(controllers@)),
{
    let mut r: Vec<String> = Vec::new();
    let mut i: usize = 0;
    while i < controllers.len()
        invariant
            i <= controllers@.len(),
            strings_of(r@) == required_folders(strings_of(controllers@).take(i as int)),
        decreases controllers.len() - i,
    {
        let ghost cs = strings_of(controllers@);
        assert(cs.take(i + 1).drop_last() =~= cs.take(i as int));
        assert(cs.take(i + 1).last() == controllers@[i as int]@);
        match capture_controller_folder(controllers[i].as_str()) {
            Some(f) => {
                if !contains_string(&r, f.as_str()) {
                    let ghost before = r@;
                    r.push(f);
                    assert(strings_of(r@) =~= strings_of(before).push(r@.last()@));
                }
            },
            None => {},
        }
        i += 1;
    }
    assert(strings_of(controllers@).take(controllers@.len() as int) =~= strings_of(controllers@));
    r
}

/// Whether mod `r` is installed and in one of the `required` folders.
pub open spec fn required_mod(installed: Seq<ModInfo>, required: Seq<Seq<char>>, r: ModRefView) -> bool {
    match r {
        ModRefView::Installed(i) => i < installed.len() && required.contains(installed[i as int].folder_name@),
        _ => false,
    }
}

/// Whether one of the `active` mods is installed in folder `f`.
pub open spec fn folder_in_use(installed: Seq<ModInfo>, active: Seq<ModRefView>, f: Seq<char>) -> bool {
    exists|k: int| 0 <= k < active.len() && installed_in(installed, #[trigger] active[k], f)
}

/// Whether `r` is an installed mod in folder `f`.
pub open spec fn installed_in(installed: Seq<ModInfo>, r: ModRefView, f: Seq<char>) -> bool {
    match r {
        ModRefView::Installed(i) => i < installed.len() && installed[i as int].folder_name@ == f,
        _ => false,
    }
}

/// The active mods that no required folder asks for, each once, in order of first
/// mention.
pub open spec fn added_mods(installed: Seq<ModInfo>, required: Seq<Seq<char>>, active: Seq<ModRefView>) -> Seq<ModRefView>
    decreases active.len(),
{
    if active.len() == 0 {
        seq![]
    } else {
        let a = added_mods(installed, required, active.drop_last());
        let x = active.last();
        if required_mod(installed, required, x) || a.contains(x) {
            a
        } else {
            a.push(x)
        }
    }
}

/// The mods of the required folders that no active mod is installed in, each once, in
/// order of first mention: the installed mod of that folder, or the unknown folder.
pub open spec fn missing_mods(installed: Seq<ModInfo>, active: Seq<ModRefView>, required: Seq<Seq<char>>) -> Seq<ModRefView>
    decreases required.len(),
{
    if required.len() == 0 {
        seq![]
    } else {
        let m = missing_mods(installed, active, required.drop_last());
        let f = required.last();
        let x = found_or(folder_names(installed), f, ModRefView::UnknownFolder(f));
        if folder_in_use(installed, active, f) || m.contains(x) {
            m
        } else {
            m.push(x)
        }
    }
}

/// How the active mods differ from those that a game needs.
#[derive(Debug)]
pub struct ModMismatch {
    pub missing_mods: Vec<ModRef>,
    pub added_mods: Vec<ModRef>,
}

fn same_ref(a: &ModRef, b: &ModRef) -> (r: bool)
    ensures
        r == (a.view() == b.view()),
{
    match (a, b) {
        (ModRef::Installed(i), ModRef::Installed(j)) => *i == *j,
        (ModRef::UnknownFolder(f), ModRef::UnknownFolder(g)) => str_eq(f.as_str(), g.as_str()),
        (ModRef::UnknownPakPath(p), ModRef::UnknownPakPath(q)) => str_eq(p.as_str(), q.as_str()),
        _ => false,
    }
}

fn copy_ref(a: &ModRef) -> (r: ModRef)
    ensures
        r.view() == a.view(),
{
    match a {
        ModRef::Installed(i) => ModRef::Installed(*i),
        ModRef::UnknownFolder(f) => ModRef::UnknownFolder(f.clone()),
        ModRef::UnknownPakPath(p) => ModRef::UnknownPakPath(p.clone()),
    }
}

fn contains_ref(v: &Vec<ModRef>, x: &ModRef) -> (r: bool)
    ensures
        r == refs_view(v@).contains(x.view()),
{
    let mut i: usize = 0;
    while i < v.len()
        invariant
            i <= v@.len(),
            forall|k: int| 0 <= k < i ==> refs_view(v@)[k] != x.view(),
        decreases v.len() - i,
    {
        if same_ref(&v[i], x) {
            assert(refs_view(v@)[i as int] == x.view());
            return true;
        }
        i += 1;
    }
    false
}

fn is_required(installed: &Mods, required: &Vec<String>, r: &ModRef) -> (b: bool)
    ensures
        b == required_mod(installed.view(), strings_of(required@), r.view()),
{
    match installed.get(r) {
        Some(m) => contains_string(required, m.folder_name.as_str()),
        None => false,
    }
}

fn in_use(installed: &Mods, active: &[ModRef], f: &str) -> (b: bool)
    ensures
        b == folder_in_use(installed.view(), refs_view(active@), f@),
{
    let mut k: usize = 0;
    while k < active.len()
        invariant
            k <= active@.len(),
            forall|j: int| 0 <= j < k ==> !installed_in(installed.view(), #[trigger] refs_view(active@)[j], f@),
        decreases active.len() - k,
    {
        match installed.get(&active[k]) {
            Some(m) => {
                if str_eq(m.folder_name.as_str(), f) {
                    assert(installed_in(installed.view(), refs_view(active@)[k as int], f@));
                    return true;
                }
            },
            None => {},
        }
        k += 1;
    }
    false
}

/// How the `active` mods differ from the mods of the `required` folders: the mods of
/// required folders that no active mod is installed in, and the active mods that no
/// required folder asks for; nothing when both are empty.
pub fn mod_mismatch(installed: &Mods, active: &[ModRef], required: &Vec<String>) -> (r: Option<ModMismatch>)
    ensures
        match r {
            Some(m) => refs_view(m.missing_mods@) == missing_mods(installed.view(), refs_view(active@), strings_of(required@))
                && refs_view(m.added_mods@) == added_mods(installed.view(), strings_of(required@), refs_view(active@))
                && (m.missing_mods@.len() > 0 || m.added_mods@.len() > 0),
            None => missing_mods(installed.view(), refs_view(active@), strings_of(required@)).len() == 0
                && added_mods(installed.view(), strings_of(required@), refs_view(active@)).len() == 0,
        },
{
    let ghost iv = installed.view();
    let ghost av = refs_view(active@);
    let ghost rv = strings_of(required@);
    let mut added: Vec<ModRef> = Vec::new();
    let mut i: usize = 0;
    while i < active.len()
        invariant
            i <= active@.len(),
            iv == installed.view(),
            av == refs_view(active@),
            rv == strings_of(required@),
            refs_view(added@) == added_mods(iv, rv, av.take(i as int)),
        decreases active.len() - i,
    {
        assert(av.take(i + 1).drop_last() =~= av.take(i as int));
        assert(av.take(i + 1).last() == active@[i as int].view());
        if !is_required(installed, required, &active[i]) && !contains_ref(&added, &active[i]) {
            let ghost before = added@;
            added.push(copy_ref(&active[i]));
            assert(refs_view(added@) =~= refs_view(before).push(active@[i as int].view()));
        }
        i += 1;
    }
    assert(av.take(active@.len() as int) =~= av);
    let mut missing: Vec<ModRef> = Vec::new();
    let mut j: usize = 0;
    while j < required.len()
        invariant
            j <= required@.len(),
            iv == installed.view(),
            av == refs_view(active@),
            rv == strings_of(required@),
            refs_view(missing@) == missing_mods(iv, av, rv.take(j as int)),
        decreases required.len() - j,
    {
        assert(rv.take(j + 1).drop_last() =~= rv.take(j as int));
        assert(rv.take(j + 1).last() == required@[j as int]@);
        if !in_use(installed, active, required[j].as_str()) {
            let x = installed.by_folder(required[j].as_str());
            if !contains_ref(&missing, &x) {
                let ghost before = missing@;
                missing.push(x);
                assert(refs_view(missing@) =~= refs_view(before).push(missing@.last().view()));
            }
        }
        j += 1;
    }
    assert(rv.take(required@.len() as int) =~= rv);
    if missing.len() == 0 && added.len() == 0 {
        None
    } else {
        Some(ModMismatch { missing_mods: missing, added_mods: added })
    }
}

/// How the active mods differ from those that the mod controllers of a single-player
/// game database ask for.
pub fn validate_single_player_mods(installed: &Mods, active: &[ModRef], controllers: &[String]) -> (r: Option<ModMismatch>)
    ensures
        match r {
            Some(m) => refs_view(m.missing_mods@) == missing_mods(installed.view(), refs_view(active@), required_folders(strings_of(controllers@)))
                && refs_view(m.added_mods@) == added_mods(installed.view(), required_folders(strings_of(controllers@)), refs_view(active@))
                && (m.missing_mods@.len() > 0 || m.added_mods@.len() > 0),
            None => missing_mods(installed.view(), refs_view(active@), required_folders(strings_of(controllers@))).len() == 0
                && added_mods(installed.view(), required_folders(strings_of(controllers@)), refs_view(active@)).len() == 0,
        },
{
    let required = mod_folders(controllers);
    mod_mismatch(installed, active, &required)
}

/// Whether every installed mod that `refs` names is one of `mods`.
pub open spec fn refs_in_range(mods: Seq<ModInfo>, refs: Seq<ModRefView>) -> bool {
    forall|k: int| 0 <= k < refs.len() ==> (#[trigger] refs[k] matches ModRefView::Installed(i) ==> i < mods.len())
}

/// The line that names a mod: its name, or the unknown folder or archive path.
pub open spec fn mod_name_line(mods: Seq<ModInfo>, r: ModRefView) -> Seq<char> {
    match r {
        ModRefView::Installed(i) => mods[i as int].name@,
        ModRefView::UnknownFolder(f) => "??? ("@ + f + ")"@,
        ModRefView::UnknownPakPath(p) => "??? ("@ + p + ")"@,
    }
}

/// The lines that name mods, each after a line break.
pub open spec fn mod_name_lines(mods: Seq<ModInfo>, refs: Seq<ModRefView>) -> Seq<char>
    decreases refs.len(),
{
    if refs.len() == 0 {
        seq![]
    } else {
        mod_name_lines(mods, refs.drop_last()) + seq!['\n'] + mod_name_line(mods, refs.last())
    }
}

/// A paragraph that names mods under a heading, or nothing when there are none.
pub open spec fn spec_join_mod_names(heading: Seq<char>, mods: Seq<ModInfo>, refs: Seq<ModRefView>) -> Seq<char> {
    if refs.len() == 0 {
        seq![]
    } else {
        "\n\n"@ + heading + mod_name_lines(mods, refs)
    }
}

/// A paragraph that names the mods `refs` under `heading`, or nothing when there are none.
pub fn join_mod_names(heading: &str, mods: &Mods, refs: &[ModRef]) -> (r: String)
    requires
        refs_in_range(mods.view(), refs_view(refs@)),
    ensures
        r@ == spec_join_mod_names(heading@, mods.view(), refs_view(refs@)),
{
    let mut result = String::new();
    if refs.len() == 0 {
        return result;
    }
    push_str(&mut result, "\n\n");
    push_str(&mut result, heading);
    let ghost start = result@;
    let ghost rv = refs_view(refs@);
    let mut i: usize = 0;
    while i < refs.len()
        invariant
            i <= refs@.len(),
            rv == refs_view(refs@),
            refs_in_range(mods.view(), rv),
            result@ == start + mod_name_lines(mods.view(), rv.take(i as int)),
        decreases refs.len() - i,
    {
        assert(rv.take(i + 1).drop_last() =~= rv.take(i as int));
        assert(rv.take(i + 1).last() == refs@[i as int].view());
        let ghost before = result@;
        result.push('\n');
        match &refs[i] {
            ModRef::Installed(idx) => {
                assert(rv[i as int] matches ModRefView::Installed(j) ==> j < mods.view().len());
                push_str(&mut result, mods.at(*idx).name.as_str());
            },
            ModRef::UnknownFolder(folder) => {
                push_str(&mut result, "??? (");
                push_str(&mut result, folder.as_str());
                push_str(&mut result, ")");
            },
            ModRef::UnknownPakPath(path) => {
                push_str(&mut result, "??? (");
                push_str(&mut result, path.as_str());
                push_str(&mut result, ")");
            },
        }
        assert(result@ =~= before + seq!['\n'] + mod_name_line(mods.view(), refs@[i as int].view()));
        i += 1;
    }
    assert(rv.take(refs@.len() as int) =~= rv);
    assert(result@ =~= "\n\n"@ + heading@ + mod_name_lines(mods.view(), rv));
    result
}

/// The question asked before a single-player game whose mods differ from the active ones.
pub open spec fn spec_mismatch_prompt(mods: Seq<ModInfo>, missing: Seq<ModRefView>, added: Seq<ModRefView>) -> Seq<char> {
    "It looks like your mod list doesn't match this game. Launch anyway?"@
        + spec_join_mod_names("Missing mods:"@, mods, missing)
        + spec_join_mod_names("Added mods:"@, mods, added)
}

/// The question asked before a single-player game whose mods differ as `mismatch` says.
pub fn mismatch_prompt(mods: &Mods, mismatch: &ModMismatch) -> (r: String)
    requires
        refs_in_range(mods.view(), refs_view(mismatch.missing_mods@)),
        refs_in_range(mods.view(), refs_view(mismatch.added_mods@)),
    ensures
        r@ == spec_mismatch_prompt(mods.view(), refs_view(mismatch.missing_mods@), refs_view(mismatch.added_mods@)),
{
    let mut r = String::new();
    push_str(&mut r, "It looks like your mod list doesn't match this game. Launch anyway?");
    let missing = join_mod_names("Missing mods:", mods, mismatch.missing_mods.as_slice());
    push_str(&mut r, missing.as_str());
    let added = join_mod_names("Added mods:", mods, mismatch.added_mods.as_slice());
    push_str(&mut r, added.as_str());
    r
}

/// Whoever can play online can play single-player: online play needs all that
/// single-player play needs.
pub proof fn lemma_online_implies_single_player(
    platform_user: Result<PlatformUser, String>,
    online: bool,
    fls_account: TaskState<Result<Account, String>>,
)
    ensures
        spec_online_capability(platform_user, online, fls_account) == TaskState::<Result<(), Seq<char>>>::Ready(Ok(()))
            ==> spec_sp_capability(platform_user, fls_account) == TaskState::<Result<(), Seq<char>>>::Ready(Ok(())),
{
}

proof fn lemma_added_empty(installed: Seq<ModInfo>, required: Seq<Seq<char>>, active: Seq<ModRefView>)
    ensures
        added_mods(installed, required, active).len() == 0 <==> forall|k: int|
            0 <= k < active.len() ==> required_mod(installed, required, #[trigger] active[k]),
    decreases active.len(),
{
    if active.len() > 0 {
        let rest = active.drop_last();
        lemma_added_empty(installed, required, rest);
        let a = added_mods(installed, required, rest);
        if added_mods(installed, required, active).len() == 0 {
            assert(a.len() == 0);
            assert(!a.contains(active.last()));
            assert forall|k: int| 0 <= k < active.len() implies required_mod(installed, required, #[trigger] active[k]) by {
                if k < active.len() - 1 {
                    assert(active[k] == rest[k]);
                }
            }
        } else {
            if forall|k: int| 0 <= k < active.len() ==> required_mod(installed, required, #[trigger] active[k]) {
                assert forall|k: int| 0 <= k < rest.len() implies required_mod(installed, required, #[trigger] rest[k]) by {
                    assert(rest[k] == active[k]);
                }
                assert(required_mod(installed, required, active[active.len() - 1]));
            }
        }
    }
}

proof fn lemma_missing_empty(installed: Seq<ModInfo>, active: Seq<ModRefView>, required: Seq<Seq<char>>)
    ensures
        missing_mods(installed, active, required).len() == 0 <==> forall|j: int|
            0 <= j < required.len() ==> folder_in_use(installed, active, #[trigger] required[j]),
    decreases required.len(),
{
    if required.len() > 0 {
        let rest = required.drop_last();
        lemma_missing_empty(installed, active, rest);
        let m = missing_mods(installed, active, rest);
        let f = required.last();
        let x = found_or(folder_names(installed), f, ModRefView::UnknownFolder(f));
        if missing_mods(installed, active, required).len() == 0 {
            assert(m.len() == 0);
            assert(!m.contains(x));
            assert forall|j: int| 0 <= j < required.len() implies folder_in_use(installed, active, #[trigger] required[j]) by {
                if j < required.len() - 1 {
                    assert(required[j] == rest[j]);
                }
            }
        } else {
            if forall|j: int| 0 <= j < required.len() ==> folder_in_use(installed, active, #[trigger] required[j]) {
                assert forall|j: int| 0 <= j < rest.len() implies folder_in_use(installed, active, #[trigger] rest[j]) by {
                    assert(rest[j] == required[j]);
                }
                assert(folder_in_use(installed, active, required[required.len() - 1]));
            }
        }
    }
}

/// A single-player game's mods match the active mods exactly when every active mod is
/// installed in a folder that the game asks for, and every folder that the game asks
/// for has an active mod installed in it.
pub proof fn lemma_no_mismatch(installed: Seq<ModInfo>, active: Seq<ModRefView>, required: Seq<Seq<char>>)
    ensures
        (missing_mods(installed, active, required).len() == 0 && added_mods(installed, required, active).len() == 0) <==> (
        (forall|k: int| 0 <= k < active.len() ==> required_mod(installed, required, #[trigger] active[k]))
            && (forall|j: int| 0 <= j < required.len() ==> folder_in_use(installed, active, #[trigger] required[j]))),
{
    lemma_added_empty(installed, required, active);
    lemma_missing_empty(installed, active, required);
}

} // verus!
