use bugle::auth::{Account, CachedUser, CachedUsers, PlatformUser, TaskState};
use bugle::config::BattlEyeUsage;
use bugle::game::mod_info::{ModInfo, ModRef, ModVersion, Mods};
use bugle::game::{MapRef, ServerRef, Session};
use bugle::launcher::{
    auth_state, auth_state_after_login, check_continue_session, check_join_server, check_single_player_launch,
    join_battleye, join_mod_names, last_session_battleye, launch_battleye, mismatch_prompt, mod_folders,
    mod_mismatch, online_capability, single_player_battleye, sp_capability, validate_single_player_mods,
    LaunchError, SessionBattlEyeUsage,
};
use bugle::net::{IpAddress, SocketAddress};

fn account(id: &str) -> Account {
    Account {
        master_id: format!("M{}", id),
        title_id: format!("T{}", id),
        display_name: format!("Name {}", id),
        platform_id: id.to_string(),
    }
}

fn user(id: &str) -> PlatformUser {
    PlatformUser { id: id.to_string(), display_name: format!("User {}", id) }
}

fn cached(ids: &[&str]) -> CachedUsers {
    let mut users = CachedUsers::new();
    for id in ids {
        users.insert(CachedUser::new(account(id), "00:11:22:33:44:55"));
    }
    users
}

fn cap(c: &TaskState<Result<(), String>>) -> String {
    match c {
        TaskState::Pending => "pending".to_string(),
        TaskState::Ready(Ok(())) => "ok".to_string(),
        TaskState::Ready(Err(e)) => format!("err: {}", e),
    }
}

#[test]
fn capabilities_follow_user_platform_and_account() {
    let ok: Result<PlatformUser, String> = Ok(user("1"));
    let none: Result<PlatformUser, String> = Err("Steam not running".to_string());
    let pending: TaskState<Result<Account, String>> = TaskState::Pending;
    let ready = TaskState::Ready(Ok(account("1")));
    let failed = TaskState::Ready(Err("boom".to_string()));
    assert_eq!(cap(&online_capability(&ok, true, &ready)), "ok");
    assert_eq!(cap(&online_capability(&ok, true, &pending)), "pending");
    assert_eq!(cap(&online_capability(&ok, true, &failed)), "err: FLS error");
    assert_eq!(cap(&online_capability(&ok, false, &ready)), "err: Steam in offline mode");
    assert_eq!(cap(&online_capability(&none, true, &ready)), "err: Steam not running");
    assert_eq!(cap(&sp_capability(&ok, &ready)), "ok");
    assert_eq!(cap(&sp_capability(&ok, &pending)), "pending");
    assert_eq!(cap(&sp_capability(&ok, &failed)), "err: FLS account not cached");
    assert_eq!(cap(&sp_capability(&none, &ready)), "err: Steam not running");
}

#[test]
fn auth_state_uses_the_remembered_account() {
    let users = cached(&["1", "2"]);
    let state = auth_state(Some(user("2")), &users, false);
    match &state.fls_account {
        TaskState::Ready(Ok(a)) => assert_eq!(a.master_id, "M2"),
        _ => panic!("expected the cached account"),
    }
    assert_eq!(cap(&state.online_capability), "err: Steam in offline mode");
    assert_eq!(cap(&state.sp_capability), "ok");
}

#[test]
fn auth_state_without_a_remembered_account() {
    let users = cached(&["1"]);
    let online = auth_state(Some(user("9")), &users, true);
    assert!(matches!(online.fls_account, TaskState::Pending));
    assert_eq!(cap(&online.online_capability), "pending");
    let offline = auth_state(Some(user("9")), &users, false);
    match &offline.fls_account {
        TaskState::Ready(Err(e)) => assert_eq!(e, "Steam in offline mode"),
        _ => panic!("expected an error"),
    }
    assert_eq!(cap(&offline.sp_capability), "err: FLS account not cached");
    let no_steam = auth_state(None, &users, true);
    assert_eq!(no_steam.platform_user.as_ref().unwrap_err(), "Steam not running");
    assert_eq!(cap(&no_steam.online_capability), "err: Steam not running");
}

#[test]
fn auth_state_after_login_takes_the_answer() {
    let state = auth_state_after_login(Some(user("1")), Ok(account("1")), true);
    assert_eq!(cap(&state.online_capability), "ok");
    let state = auth_state_after_login(Some(user("1")), Err("denied".to_string()), true);
    assert_eq!(cap(&state.online_capability), "err: FLS error");
    assert_eq!(cap(&state.sp_capability), "err: FLS account not cached");
}

fn online_session() -> Option<Session> {
    Some(Session::Online(ServerRef::Unknown(SocketAddress { ip: IpAddress::V4(10, 0, 0, 1), port: 7777 })))
}

#[test]
fn battleye_for_the_last_session() {
    let sp = Some(Session::SinglePlayer(MapRef::Known { map_id: 0 }));
    assert_eq!(last_session_battleye(BattlEyeUsage::Always(true), &None, false), SessionBattlEyeUsage::Resolved(true));
    assert_eq!(last_session_battleye(BattlEyeUsage::Always(false), &online_session(), true), SessionBattlEyeUsage::Resolved(false));
    assert_eq!(last_session_battleye(BattlEyeUsage::Auto, &sp, true), SessionBattlEyeUsage::Resolved(false));
    assert_eq!(last_session_battleye(BattlEyeUsage::Auto, &None, true), SessionBattlEyeUsage::AskUser);
    assert_eq!(last_session_battleye(BattlEyeUsage::Auto, &online_session(), true), SessionBattlEyeUsage::WaitForServerLoader);
    assert_eq!(last_session_battleye(BattlEyeUsage::Auto, &online_session(), false), SessionBattlEyeUsage::AskUser);
}

#[test]
fn battleye_for_launches() {
    assert_eq!(launch_battleye(BattlEyeUsage::Always(false)), Some(false));
    assert_eq!(launch_battleye(BattlEyeUsage::Auto), None);
    assert_eq!(join_battleye(BattlEyeUsage::Always(false), Some(true)), Some(false));
    assert_eq!(join_battleye(BattlEyeUsage::Auto, Some(true)), Some(true));
    assert_eq!(join_battleye(BattlEyeUsage::Auto, None), None);
    assert!(single_player_battleye(BattlEyeUsage::Always(true)));
    assert!(!single_player_battleye(BattlEyeUsage::Always(false)));
    assert!(!single_player_battleye(BattlEyeUsage::Auto));
}

#[test]
fn offline_launches_need_a_remembered_account() {
    let users = cached(&["1"]);
    assert_eq!(check_single_player_launch(true, &None, &users), Ok(false));
    assert_eq!(check_single_player_launch(false, &Some(user("1")), &users), Ok(true));
    assert_eq!(check_single_player_launch(false, &Some(user("2")), &users), Err(LaunchError::FlsAccountNotCached));
    assert_eq!(check_single_player_launch(false, &None, &users), Err(LaunchError::FlsAccountNotCached));
    assert_eq!(check_join_server(true), Ok(()));
    assert_eq!(check_join_server(false), Err(LaunchError::SteamNotOnline));
    let sp = Some(Session::SinglePlayer(MapRef::Known { map_id: 0 }));
    let coop = Some(Session::CoOp(MapRef::Known { map_id: 0 }));
    assert_eq!(check_continue_session(false, &online_session(), &Some(user("1")), &users), Err(LaunchError::SteamNotOnline));
    assert_eq!(check_continue_session(true, &online_session(), &Some(user("1")), &users), Ok(false));
    assert_eq!(check_continue_session(false, &sp, &Some(user("1")), &users), Ok(true));
    assert_eq!(check_continue_session(false, &sp, &Some(user("3")), &users), Err(LaunchError::FlsAccountNotCached));
    assert_eq!(check_continue_session(false, &coop, &None, &users), Ok(false));
    assert_eq!(LaunchError::SteamNotOnline.message(), "Steam is in offline mode. Online play is disabled.");
    assert!(LaunchError::FlsAccountNotCached.message().starts_with("Steam is offline and the game has not stored"));
}

fn mod_info(name: &str, folder: &str) -> ModInfo {
    ModInfo {
        name: name.to_string(),
        description: String::new(),
        change_notes: String::new(),
        author: String::new(),
        author_url: String::new(),
        version: ModVersion { major: 1, minor: 0, build: 0 },
        requires_load_on_startup: false,
        live_steam_file_id: String::new(),
        testlive_steam_file_id: None,
        folder_name: folder.to_string(),
        revision_number: 0,
        snapshot_id: 0,
        pak_path: format!("C:/mods/{}.pak", folder),
    }
}

fn installed() -> Mods {
    Mods::new(vec![mod_info("Pippi", "Pippi"), mod_info("Emberlight", "Emberlight"), mod_info("Less Building Placement Restrictions", "LBPR")])
}

fn strings(v: &[&str]) -> Vec<String> {
    v.iter().map(|s| s.to_string()).collect()
}

#[test]
fn mod_folders_come_from_the_controllers() {
    let controllers = strings(&[
        "/Game/Mods/Pippi/PippiController.PippiController_C",
        "/Game/Mods/Pippi/Other.Other_C",
        "/Game/Systems/NotAMod.NotAMod_C",
        "/Game/Mods/NoSlash",
        "/Game/Mods//Game/Mods/LBPR/X.X_C",
        "prefix/Game/Mods/Emberlight/",
    ]);
    assert_eq!(mod_folders(&controllers), strings(&["Pippi", "LBPR", "Emberlight"]));
}

#[test]
fn matching_mods_give_no_mismatch() {
    let mods = installed();
    let active = vec![ModRef::Installed(0), ModRef::Installed(2)];
    let controllers = strings(&["/Game/Mods/Pippi/C.C_C", "/Game/Mods/LBPR/C.C_C"]);
    assert!(validate_single_player_mods(&mods, &active, &controllers).is_none());
}

#[test]
fn mismatch_lists_missing_and_added_mods() {
    let mods = installed();
    let active = vec![ModRef::Installed(0), ModRef::Installed(1), ModRef::Installed(1), ModRef::UnknownPakPath("x.pak".to_string())];
    let controllers = strings(&["/Game/Mods/Pippi/C.C_C", "/Game/Mods/LBPR/C.C_C", "/Game/Mods/Gone/C.C_C"]);
    let m = validate_single_player_mods(&mods, &active, &controllers).unwrap();
    assert_eq!(m.missing_mods, vec![ModRef::Installed(2), ModRef::UnknownFolder("Gone".to_string())]);
    assert_eq!(m.added_mods, vec![ModRef::Installed(1), ModRef::UnknownPakPath("x.pak".to_string())]);
    assert_eq!(
        mismatch_prompt(&mods, &m),
        "It looks like your mod list doesn't match this game. Launch anyway?\n\nMissing mods:\nLess Building Placement Restrictions\n??? (Gone)\n\nAdded mods:\nEmberlight\n??? (x.pak)"
    );
}

#[test]
fn mod_mismatch_with_no_required_folders() {
    let mods = installed();
    assert!(mod_mismatch(&mods, &[], &Vec::new()).is_none());
    let m = mod_mismatch(&mods, &[ModRef::UnknownFolder("Old".to_string())], &Vec::new()).unwrap();
    assert!(m.missing_mods.is_empty());
    assert_eq!(m.added_mods, vec![ModRef::UnknownFolder("Old".to_string())]);
}

#[test]
fn join_mod_names_is_empty_without_mods() {
    let mods = installed();
    assert_eq!(join_mod_names("Heading:", &mods, &[]), "");
    assert_eq!(join_mod_names("Heading:", &mods, &[ModRef::Installed(1)]), "\n\nHeading:\nEmberlight");
}
