use bugle::auth::{Account, CachedUser, CachedUsers};
use bugle::game::engine::map::MapInfo;
use bugle::game::engine::pak::EngineError;
use bugle::game::mod_info::{modinfo_json, sort_by_name, ModInfo, ModRef, ModVersion, Mods};
use bugle::game::mod_list::{mod_list_from_lines, mod_list_lines, ModActions, ModListState, Selection};
use bugle::game::{
    build_id, db_map_index, join_path, last_session, launch_command, load_cached_users, map_ref_text,
    record_join_server, record_single_player, revision, save_cached_users, Branch, Game, LaunchOptions, MapRef,
    SaveError, ServerRef, Session,
};
use bugle::ini_doc::{ini_get, ini_get_all, ini_parse};
use bugle::net::{IpAddress, SocketAddress};

fn map(name: &str, asset: &str, object: &str, db: &str) -> MapInfo {
    MapInfo {
        display_name: name.to_string(),
        asset_path: asset.to_string(),
        object_name: object.to_string(),
        db_name: db.to_string(),
    }
}

fn maps() -> Vec<MapInfo> {
    vec![
        map("Exiled Lands", "/Game/Maps/ConanSandbox/ConanSandbox", "ConanSandbox", "game.db"),
        map("Isle of Siptah", "/Game/DLC_EXT/DLC_Siptah/Maps/DLC_Isle_of_Siptah", "DLC_Isle_of_Siptah", "dlc_siptah.db"),
    ]
}

fn mod_info(name: &str, folder: &str, pak: &str) -> ModInfo {
    ModInfo {
        name: name.to_string(),
        description: String::new(),
        change_notes: String::new(),
        author: "someone".to_string(),
        author_url: String::new(),
        version: ModVersion { major: 1, minor: 2, build: 3 },
        requires_load_on_startup: false,
        live_steam_file_id: "880454836".to_string(),
        testlive_steam_file_id: None,
        folder_name: folder.to_string(),
        revision_number: 0,
        snapshot_id: 0,
        pak_path: pak.to_string(),
    }
}

#[test]
fn build_id_and_revision_correspond() {
    assert_eq!(build_id((123456, 789)), (123456 << 13) + 789);
    assert_eq!(build_id((0x7ffff, 0xffff)), (0x3ffff << 13) + 0x1fff);
    let b = build_id((200000, 4096));
    assert_eq!(revision(b), (0x40000 | 200000, 0x7000 | 4096));
    assert_eq!(revision(b).0, 0x40000 | 200000);
    assert_eq!(build_id(revision(b)), b);
    assert_eq!(revision(5), (0x40000, 0x8005));
    assert_eq!(build_id(revision(0x1234_5678)), 0x1234_5678);
}

#[test]
fn last_session_follows_game_ini() {
    let maps = maps();
    let sp = ini_parse("[SavedCoopData]\nStartedListenServerSession=True\nWasCoopEnabled=False\nLastMap=/Game/Maps/ConanSandbox/ConanSandbox\n").unwrap();
    assert!(matches!(last_session(Some(&sp), &maps, None), Some(Session::SinglePlayer(MapRef::Known { map_id: 0 }))));
    let coop = ini_parse("[SavedCoopData]\nLastMap=/Game/Mods/Other\n").unwrap();
    match last_session(Some(&coop), &maps, None) {
        Some(Session::CoOp(MapRef::Unknown { asset_path })) => assert_eq!(asset_path, "/Game/Mods/Other"),
        other => panic!("unexpected {:?}", other),
    }
    let online = ini_parse("[SavedCoopData]\nStartedListenServerSession=false\n[SavedServers]\nLastConnected=1.2.3.4:7777\n").unwrap();
    let addr = SocketAddress { ip: IpAddress::V4(1, 2, 3, 4), port: 7777 };
    assert!(matches!(last_session(Some(&online), &maps, Some(addr)), Some(Session::Online(ServerRef::Unknown(a))) if a == addr));
    assert!(last_session(Some(&online), &maps, None).is_none());
    assert!(last_session(None, &maps, Some(addr)).is_none());
    let none = ini_parse("[Other]\nx=1\n").unwrap();
    assert!(last_session(Some(&none), &maps, None).is_none());
}

#[test]
fn joining_a_server_is_recorded_as_the_last_session() {
    let maps = maps();
    let mut ini = ini_parse("[SavedCoopData]\nStartedListenServerSession=True\nLastMap=/x\n").unwrap();
    record_join_server(&mut ini, "1.2.3.4:7777", Some("secret"));
    assert_eq!(ini_get(&ini, Some("SavedServers"), "LastConnected"), Some("1.2.3.4:7777".to_string()));
    assert_eq!(ini_get(&ini, Some("SavedServers"), "LastPassword"), Some("secret".to_string()));
    assert_eq!(ini_get(&ini, Some("SavedCoopData"), "StartedListenServerSession"), Some("False".to_string()));
    let addr = SocketAddress { ip: IpAddress::V4(1, 2, 3, 4), port: 7777 };
    assert!(matches!(last_session(Some(&ini), &maps, Some(addr)), Some(Session::Online(_))));
    record_join_server(&mut ini, "5.6.7.8:1", None);
    assert_eq!(ini_get(&ini, Some("SavedServers"), "LastPassword"), Some(String::new()));

    record_single_player(&mut ini, "/Game/DLC_EXT/DLC_Siptah/Maps/DLC_Isle_of_Siptah");
    assert!(matches!(last_session(Some(&ini), &maps, None), Some(Session::SinglePlayer(MapRef::Known { map_id: 1 }))));
}

#[test]
fn launch_command_has_the_flags_and_extra_words() {
    let options = LaunchOptions { enable_battleye: true, use_all_cores: true, extra_args: "-log 'a b'".to_string() };
    let cmd = launch_command(&options, &["-continuesession"]);
    assert_eq!(cmd.program, "ConanSandbox/Binaries/Win64/ConanSandbox_BE.exe");
    assert_eq!(cmd.args, vec!["-continuesession", "-BattlEye", "-USEALLAVAILABLECORES", "-log", "a b"]);
    assert!(cmd.extra_args_valid);
    let plain = LaunchOptions { enable_battleye: false, use_all_cores: false, extra_args: "'unterminated".to_string() };
    let cmd = launch_command(&plain, &[]);
    assert_eq!(cmd.program, "ConanSandbox/Binaries/Win64/ConanSandbox.exe");
    assert!(cmd.args.is_empty());
    assert!(!cmd.extra_args_valid);
}

#[test]
fn cached_users_load_and_save_through_game_ini() {
    let mut users = CachedUsers::new();
    for id in ["1", "2"] {
        users.insert(CachedUser {
            account: Account {
                master_id: format!("M{}", id),
                title_id: format!("T{}", id),
                display_name: format!("D{}", id),
                platform_id: format!("P{}", id),
            },
            user_token: "tok".to_string(),
        });
    }
    let mut ini = ini_parse("[FuncomLiveServices]\nCachedUsers=stale\nOther=kept\n").unwrap();
    save_cached_users(&mut ini, &users);
    let saved = ini_get_all(&ini, Some("FuncomLiveServices"), "CachedUsers");
    assert_eq!(saved.len(), 2);
    assert_eq!(saved[0], users.iter()[0].to_string());
    assert_eq!(ini_get(&ini, Some("FuncomLiveServices"), "Other"), Some("kept".to_string()));
    let loaded = load_cached_users(&ini);
    assert_eq!(loaded.iter().len(), 2);
    assert_eq!(loaded.by_platform_id("P2").unwrap().account.display_name, "D2");
    let broken = ini_parse("[FuncomLiveServices]\nCachedUsers=garbage\nCachedUsers=(PlatformId=\"9\")\n").unwrap();
    let loaded = load_cached_users(&broken);
    assert_eq!(loaded.iter().len(), 1);
    assert_eq!(loaded.iter()[0].account.platform_id, "9");
}

#[test]
fn mod_lists_save_and_load() {
    let mods = Mods::new(vec![mod_info("A", "111", "C:/w/111/A.pak"), mod_info("B", "222", "C:/w/222/B.pak")]);
    let lines: Vec<String> = vec!["# comment".into(), "  C:/w/222/B.pak ".into(), "C:/x/Custom.pak".into(), "C:/w/111/A.pak".into()];
    let list = mod_list_from_lines(&mods, &lines);
    assert_eq!(list, vec![ModRef::Installed(1), ModRef::UnknownPakPath("C:/x/Custom.pak".into()), ModRef::Installed(0)]);
    let mut with_folder = list.clone();
    with_folder.push(ModRef::UnknownFolder("333".into()));
    let saved = mod_list_lines(&mods, &with_folder);
    assert_eq!(saved, vec!["C:/w/222/B.pak", "C:/x/Custom.pak", "C:/w/111/A.pak"]);
    assert_eq!(mod_list_from_lines(&mods, &saved), list);
    assert_eq!(mods.by_folder("222"), ModRef::Installed(1));
    assert_eq!(mods.by_folder("999"), ModRef::UnknownFolder("999".into()));
    assert_eq!(mods.by_pak_path("nope"), ModRef::UnknownPakPath("nope".into()));
    assert_eq!(mods.get(&ModRef::Installed(1)).unwrap().name, "B");
    assert!(mods.get(&ModRef::Installed(5)).is_none());
    assert_eq!(ModRef::Installed(4).to_index(), Some(4));
    assert_eq!(ModRef::UnknownFolder("x".into()).to_index(), None);
    assert_eq!(mods.len(), 2);
}

#[test]
fn mod_manager_moves_mods_between_lists() {
    let mut state = ModListState::new(4);
    state.populate(vec![ModRef::Installed(2), ModRef::UnknownPakPath("x.pak".into())]);
    assert_eq!(state.available(), &[ModRef::Installed(0), ModRef::Installed(1), ModRef::Installed(3)]);
    assert_eq!(state.update_actions(), ModActions { activate: false, deactivate: false, move_up: false, move_down: false, more_info: false });

    state.set_selection(Some(Selection::Available(1)));
    assert_eq!(state.get_selected_available(), Some(1));
    assert_eq!(state.update_actions(), ModActions { activate: true, deactivate: false, move_up: false, move_down: false, more_info: true });
    state.activate();
    assert_eq!(state.available(), &[ModRef::Installed(0), ModRef::Installed(3)]);
    assert_eq!(state.active(), &[ModRef::Installed(2), ModRef::UnknownPakPath("x.pak".into()), ModRef::Installed(1)]);
    assert_eq!(state.selection(), None);

    state.set_selection(Some(Selection::Active(2)));
    assert_eq!(state.update_actions(), ModActions { activate: false, deactivate: true, move_up: true, move_down: false, more_info: true });
    state.move_top();
    assert_eq!(state.active()[0], ModRef::Installed(1));
    assert_eq!(state.get_selected_active(), Some(0));
    state.move_down();
    assert_eq!(state.active(), &[ModRef::Installed(2), ModRef::Installed(1), ModRef::UnknownPakPath("x.pak".into())]);
    state.move_up();
    assert_eq!(state.active(), &[ModRef::Installed(1), ModRef::Installed(2), ModRef::UnknownPakPath("x.pak".into())]);
    state.move_bottom();
    assert_eq!(state.active(), &[ModRef::Installed(2), ModRef::UnknownPakPath("x.pak".into()), ModRef::Installed(1)]);
    assert_eq!(state.get_selected_active(), Some(2));

    state.deactivate();
    assert_eq!(state.available(), &[ModRef::Installed(0), ModRef::Installed(1), ModRef::Installed(3)]);
    state.set_selection(Some(Selection::Active(1)));
    state.deactivate();
    assert_eq!(state.active(), &[ModRef::Installed(2)]);
    assert_eq!(state.available(), &[ModRef::Installed(0), ModRef::Installed(1), ModRef::Installed(3)]);
}

#[test]
fn mods_sort_by_name_stably() {
    let sorted = sort_by_name(vec![
        mod_info("b", "1", "p1"),
        mod_info("a", "2", "p2"),
        mod_info("b", "3", "p3"),
        mod_info("B", "4", "p4"),
    ]);
    let folders: Vec<&str> = sorted.iter().map(|m| m.folder_name.as_str()).collect();
    assert_eq!(folders, vec!["4", "2", "1", "3"]);
}

#[test]
fn mod_description_text() {
    let mut m = mod_info("A", "1", "a.pak");
    assert_eq!(m.steam_file_id(Branch::Main), Some(880454836));
    assert_eq!(m.steam_file_id(Branch::PublicBeta), None);
    m.testlive_steam_file_id = Some("42".into());
    assert_eq!(m.steam_file_id(Branch::PublicBeta), Some(42));
    m.live_steam_file_id = "n/a".into();
    assert_eq!(m.steam_file_id(Branch::Main), None);
    assert_eq!(ModVersion { major: 1, minor: 20, build: 300 }.to_string(), "1.20.300");
    assert_eq!(Branch::default(), Branch::Main);

    assert_eq!(modinfo_json(b"{\"name\":1}").unwrap(), b"{\"name\":1}".to_vec());
    let mut ucs2 = vec![0xff, 0xfe];
    for u in "{\"é\":\"€\"}".encode_utf16() {
        ucs2.extend_from_slice(&u.to_le_bytes());
    }
    assert_eq!(modinfo_json(&ucs2).unwrap(), "{\"é\":\"€\"}".as_bytes().to_vec());
    assert_eq!(modinfo_json(&[0x7b]), Err(EngineError::UnexpectedEof));
}

#[test]
fn saved_games_name_one_known_map() {
    let maps = maps();
    assert_eq!(db_map_index(&maps, &["DLC_Isle_of_Siptah".to_string()]), Ok(1));
    assert_eq!(db_map_index(&maps, &[]), Err(SaveError::NoActors));
    assert_eq!(db_map_index(&maps, &["Nowhere".to_string()]), Err(SaveError::UnrecognizedMap));
    assert_eq!(
        db_map_index(&maps, &["ConanSandbox".to_string(), "DLC_Isle_of_Siptah".to_string()]),
        Err(SaveError::MultipleMaps)
    );
    assert_eq!(map_ref_text(&maps, &MapRef::Known { map_id: 1 }), "Isle of Siptah");
    assert_eq!(map_ref_text(&maps, &MapRef::Unknown { asset_path: "/x".into() }), "<unknown map: /x>");
}

#[test]
fn game_paths_and_commands() {
    assert_eq!(join_path("C:/Games/Conan", "ConanSandbox/Saved"), "C:/Games/Conan/ConanSandbox/Saved");
    assert_eq!(join_path("C:/Games/Conan/", "x"), "C:/Games/Conan/x");
    assert_eq!(join_path("", "x"), "x");
    let ini = ini_parse("[SavedCoopData]\nLastMap=/Game/Maps/ConanSandbox/ConanSandbox\n").unwrap();
    let game = Game::new(
        "C:/Conan".to_string(),
        Branch::PublicBeta,
        false,
        (200000, 12),
        vec![mod_info("Z", "1", "z.pak"), mod_info("A", "2", "a.pak")],
        maps(),
        Some(&ini),
        None,
    );
    assert_eq!(game.save_path(), "C:/Conan/ConanSandbox/Saved");
    assert_eq!(game.game_ini_path(), "C:/Conan/ConanSandbox/Saved/Config/WindowsNoEditor/Game.ini");
    assert_eq!(game.mod_list_path(), "C:/Conan/ConanSandbox/Mods/modlist.txt");
    assert_eq!(game.in_progress_game_path(1), "C:/Conan/ConanSandbox/Saved/dlc_siptah.db");
    assert_eq!(game.installed_mods().at(0).name, "A");
    assert_eq!(game.build_id(), build_id((200000, 12)));
    assert_eq!(game.branch(), Branch::PublicBeta);
    assert!(matches!(game.last_session(), Some(Session::CoOp(MapRef::Known { map_id: 0 }))));
    let options = LaunchOptions { enable_battleye: false, use_all_cores: false, extra_args: String::new() };
    assert_eq!(game.continue_session(&options).args, vec!["-continuesession"]);
    let mut ini2 = ini_parse("").unwrap();
    let cmd = game.launch_single_player(&mut ini2, 1, &options);
    assert_eq!(cmd.args, vec!["-continuesession"]);
    assert_eq!(
        ini_get(&ini2, Some("SavedCoopData"), "LastMap"),
        Some("/Game/DLC_EXT/DLC_Siptah/Maps/DLC_Isle_of_Siptah".to_string())
    );
    let cmd = game.join_server(&mut ini2, "9.9.9.9:1", None, &options);
    assert_eq!(cmd.program, "ConanSandbox/Binaries/Win64/ConanSandbox.exe");
    assert_eq!(ini_get(&ini2, Some("SavedCoopData"), "StartedListenServerSession"), Some("False".to_string()));
    assert!(cmd.extra_args_valid);
    let be = LaunchOptions { enable_battleye: true, use_all_cores: false, extra_args: "\"unterminated".to_string() };
    let cmd = game.launch_single_player(&mut ini2, 0, &be);
    assert_eq!(cmd.program, "ConanSandbox/Binaries/Win64/ConanSandbox_BE.exe");
    assert!(!cmd.extra_args_valid);
    let cmd = game.join_server(&mut ini2, "9.9.9.9:1", Some("pw"), &be);
    assert_eq!(cmd.program, "ConanSandbox/Binaries/Win64/ConanSandbox_BE.exe");
    assert!(!cmd.extra_args_valid);
    assert_eq!(cmd.args, vec!["-continuesession", "-BattlEye"]);
}

#[test]
fn mod_manager_selected_mod() {
    let mods = Mods::new(vec![mod_info("Alpha", "A", "a.pak"), mod_info("Beta", "B", "b.pak")]);
    let mut state = ModListState::new(2);
    state.populate(vec![ModRef::UnknownPakPath("x.pak".into()), ModRef::Installed(1)]);
    assert!(state.selected_mod(&mods).is_none());
    state.set_selection(Some(Selection::Active(1)));
    assert_eq!(state.selected_mod(&mods).unwrap().name, "Beta");
    state.set_selection(Some(Selection::Active(0)));
    assert!(state.selected_mod(&mods).is_none());
    state.set_selection(Some(Selection::Available(0)));
    assert_eq!(state.selected_mod(&mods).unwrap().name, "Alpha");
}

#[test]
fn pak_paths_compare_as_paths() {
    let mods = Mods::new(vec![mod_info("A", "a", "C:\\Steam\\content\\1\\a.pak"), mod_info("B", "b", "mods/b.pak")]);
    assert_eq!(mods.by_pak_path("C:\\Steam\\content\\1\\a.pak"), ModRef::Installed(0));
    assert_eq!(mods.by_pak_path("c:/Steam//content/./1/a.pak"), ModRef::Installed(0));
    assert_eq!(mods.by_pak_path("mods//b.pak"), ModRef::Installed(1));
    assert_eq!(mods.by_pak_path("mods/./b.pak/"), ModRef::Installed(1));
    assert_eq!(mods.by_pak_path("./mods/b.pak"), ModRef::UnknownPakPath("./mods/b.pak".into()));
    assert_eq!(mods.by_pak_path("/mods/b.pak"), ModRef::UnknownPakPath("/mods/b.pak".into()));
    assert_eq!(mods.by_pak_path("C:Steam\\content\\1\\a.pak"), ModRef::UnknownPakPath("C:Steam\\content\\1\\a.pak".into()));
    let lines = vec!["mods//b.pak".to_string(), "  c:\\Steam\\content\\1\\a.pak ".to_string()];
    assert_eq!(mod_list_from_lines(&mods, &lines), vec![ModRef::Installed(1), ModRef::Installed(0)]);
}

#[test]
fn mod_list_files_leave_out_mods_known_by_folder() {
    let mods = Mods::new(vec![mod_info("A", "a", "a.pak")]);
    let list = vec![ModRef::Installed(0), ModRef::UnknownFolder("gone".into()), ModRef::UnknownPakPath("x.pak".into())];
    let lines = mod_list_lines(&mods, &list);
    assert_eq!(lines, vec!["a.pak".to_string(), "x.pak".to_string()]);
    assert_eq!(mod_list_from_lines(&mods, &lines), vec![ModRef::Installed(0), ModRef::UnknownPakPath("x.pak".into())]);
}
