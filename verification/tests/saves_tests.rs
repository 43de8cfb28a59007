use bugle::game::engine::map::MapInfo;
use bugle::game::saves::{db_name_from, Character, DbNameError, GameDB, SinglePlayerState};

fn map(name: &str, db: &str) -> MapInfo {
    MapInfo {
        display_name: name.to_string(),
        asset_path: format!("/Game/Maps/{}", name),
        object_name: name.to_string(),
        db_name: db.to_string(),
    }
}

fn maps() -> Vec<MapInfo> {
    vec![map("Exiled Lands", "game.db"), map("Isle of Siptah", "dlc_siptah.db")]
}

fn db(file: &str, map_id: usize, who: Option<&str>) -> GameDB {
    GameDB {
        file_name: file.to_string(),
        map_id,
        last_played_char: who.map(|n| Character {
            name: n.to_string(),
            clan: None,
            level: 10,
            last_played_timestamp: 1_600_000_000,
        }),
    }
}

fn names(state: &SinglePlayerState) -> Vec<String> {
    state.visible_backups().iter().map(|&i| state.backups()[i].file_name.clone()).collect()
}

fn loaded() -> SinglePlayerState {
    let maps = maps();
    let mut state = SinglePlayerState::new(maps.len(), 0);
    state.set_games(
        &maps,
        vec![
            db("zeta.db", 0, Some("Zed")),
            db("game.db", 0, Some("Conan")),
            db("alpha.db", 0, None),
            db("siptah_backup.db", 1, None),
            db("beta.db", 0, Some("Bea")),
        ],
    );
    state
}

#[test]
fn new_state_has_no_games() {
    let state = SinglePlayerState::new(2, 1);
    assert_eq!(state.map_id(), 1);
    assert!(state.in_progress(0).is_none());
    assert!(state.in_progress(1).is_none());
    assert!(state.backups().is_empty());
    let actions = state.update_actions();
    assert!(!actions.continue_game && !actions.load && !actions.save && !actions.save_as && !actions.delete);
}

#[test]
fn set_games_splits_in_progress_from_backups() {
    let state = loaded();
    let current = state.in_progress(0).unwrap();
    assert_eq!(current.file_name, "game.db");
    assert_eq!(current.last_played_char.as_ref().unwrap().name, "Conan");
    assert!(state.in_progress(1).is_none());
    assert!(state.in_progress(7).is_none());
    let files: Vec<&str> = state.backups().iter().map(|g| g.file_name.as_str()).collect();
    assert_eq!(files, vec!["zeta.db", "alpha.db", "siptah_backup.db", "beta.db"]);
}

#[test]
fn backups_of_selected_map_are_sorted_by_name() {
    let mut state = loaded();
    assert_eq!(names(&state), vec!["alpha.db", "beta.db", "zeta.db"]);
    state.map_selected(1);
    assert_eq!(names(&state), vec!["siptah_backup.db"]);
    let actions = state.update_actions();
    assert!(!actions.continue_game);
    assert!(!actions.save_as);
}

#[test]
fn selection_enables_actions() {
    let mut state = loaded();
    let actions = state.update_actions();
    assert!(actions.continue_game && actions.save_as);
    assert!(!actions.load && !actions.save && !actions.delete);
    state.select_backup(1);
    let actions = state.update_actions();
    assert!(actions.continue_game && actions.load && actions.save && actions.save_as && actions.delete);
    assert_eq!(state.selected_backup_source(), Some(3));
    state.select_backup(9);
    assert_eq!(state.selected_backup_source(), None);
}

#[test]
fn map_selected_clears_selection() {
    let mut state = loaded();
    state.select_backup(0);
    state.map_selected(1);
    assert_eq!(state.selected_backup_source(), None);
    assert!(!state.update_actions().load);
}

#[test]
fn new_game_drops_in_progress() {
    let mut state = loaded();
    state.select_backup(0);
    state.new_game_started();
    assert!(state.in_progress(0).is_none());
    assert_eq!(state.backups().len(), 4);
    assert!(!state.update_actions().continue_game);
}

#[test]
fn loading_a_backup_makes_it_the_game_in_progress() {
    let maps = maps();
    let mut state = loaded();
    state.select_backup(1); // beta.db
    state.backup_loaded(&maps);
    let current = state.in_progress(0).unwrap();
    assert_eq!(current.file_name, "game.db");
    assert_eq!(current.map_id, 0);
    assert_eq!(current.last_played_char.as_ref().unwrap().name, "Bea");
    assert_eq!(state.backups().len(), 4);
    assert_eq!(state.selected_backup_source(), None);
}

#[test]
fn saving_overwrites_the_selected_backup() {
    let mut state = loaded();
    state.select_backup(2); // zeta.db
    state.game_saved();
    let saved = &state.backups()[0];
    assert_eq!(saved.file_name, "zeta.db");
    assert_eq!(saved.last_played_char.as_ref().unwrap().name, "Conan");
    assert_eq!(state.backups()[1].file_name, "alpha.db");
    assert!(state.backups()[1].last_played_char.is_none());
}

#[test]
fn save_as_replaces_a_backup_of_that_name() {
    let mut state = loaded();
    state.game_saved_as("alpha.db");
    assert_eq!(state.backups().len(), 4);
    assert_eq!(state.backups()[1].file_name, "alpha.db");
    assert_eq!(state.backups()[1].last_played_char.as_ref().unwrap().name, "Conan");
}

#[test]
fn save_as_a_new_name_appends_a_backup() {
    let mut state = loaded();
    state.game_saved_as("gamma.db");
    assert_eq!(state.backups().len(), 5);
    let last = state.backups().last().unwrap();
    assert_eq!(last.file_name, "gamma.db");
    assert_eq!(last.map_id, 0);
    assert_eq!(names(&state), vec!["alpha.db", "beta.db", "gamma.db", "zeta.db"]);
}

#[test]
fn deleting_removes_the_selected_backup() {
    let mut state = loaded();
    state.select_backup(0); // alpha.db
    state.backup_deleted();
    let files: Vec<&str> = state.backups().iter().map(|g| g.file_name.as_str()).collect();
    assert_eq!(files, vec!["zeta.db", "siptah_backup.db", "beta.db"]);
    assert_eq!(names(&state), vec!["beta.db", "zeta.db"]);
}

#[test]
fn the_last_database_of_a_map_wins() {
    let maps = maps();
    let mut state = SinglePlayerState::new(maps.len(), 0);
    state.set_games(&maps, vec![db("game.db", 0, Some("First")), db("game.db", 0, Some("Second"))]);
    assert_eq!(state.in_progress(0).unwrap().last_played_char.as_ref().unwrap().name, "Second");
    assert!(state.backups().is_empty());
}

#[test]
fn backup_names_become_db_file_names() {
    assert_eq!(db_name_from(" save ").unwrap(), "save.db");
    assert_eq!(db_name_from("save.db").unwrap(), "save.db");
    assert_eq!(db_name_from("save.txt").unwrap(), "save.txt.db");
    assert_eq!(db_name_from("a.").unwrap(), "a..db");
    assert_eq!(db_name_from(".db").unwrap(), ".db.db");
    assert_eq!(db_name_from("save/").unwrap(), "save.db");
    assert_eq!(db_name_from("   "), Err(DbNameError::Empty));
    assert_eq!(db_name_from(" a/b "), Err(DbNameError::Invalid("a/b".to_string())));
    assert_eq!(db_name_from("..").unwrap_err(), DbNameError::Invalid("..".to_string()));
    assert_eq!(db_name_from(".").unwrap_err(), DbNameError::Invalid(".".to_string()));
    assert_eq!(db_name_from("/save").unwrap_err(), DbNameError::Invalid("/save".to_string()));
    assert_eq!(db_name_from("C:save").unwrap_err(), DbNameError::Invalid("C:save".to_string()));
    assert_eq!(db_name_from("dir\\save").unwrap_err(), DbNameError::Invalid("dir\\save".to_string()));
}
