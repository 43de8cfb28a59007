use bugle::auth::playfab::{account_from_login_reply, account_from_reply, check_reply, display_name_fixup, display_name_splits, endpoint_url, steam_ticket_text, LoginError, SDK, TITLE_ID};
use bugle::auth::{user_token_for_mac, Account, CachedUser, CachedUsers};
use bugle::game::user::{CachedUser as GameUser, CachedUsers as GameUsers};

fn account(id: &str) -> Account {
    Account {
        master_id: format!("M{}", id),
        title_id: format!("T{}", id),
        display_name: format!("Name {}", id),
        platform_id: format!("P{}", id),
    }
}

#[test]
fn cached_user_text_reads_back() {
    let user = CachedUser { account: account("1"), user_token: "abc".to_string() };
    let text = user.to_string();
    assert_eq!(
        text,
        "(MasterAccountId=\"M1\",TitlePlayerId=\"T1\",PlatformId=\"P1\",TitleDisplayName=\"Name 1\",UserToken=\"abc\")"
    );
    let back = CachedUser::parse(&text).unwrap();
    assert_eq!(back.account.master_id, "M1");
    assert_eq!(back.account.title_id, "T1");
    assert_eq!(back.account.display_name, "Name 1");
    assert_eq!(back.account.platform_id, "P1");
    assert_eq!(back.user_token, "abc");
}

#[test]
fn cached_user_fields_may_be_missing_or_unquoted() {
    let user = CachedUser::parse("(PlatformId=\"765\",UserToken=raw, MasterAccountId = \"a\\\"b\" )").unwrap();
    assert_eq!(user.account.platform_id, "765");
    assert_eq!(user.user_token, "");
    assert_eq!(user.account.master_id, "a\"b");
    assert_eq!(user.account.title_id, "");
    assert!(CachedUser::parse("PlatformId=\"1\"").is_err());
    assert!(CachedUser::parse("(PlatformId=\"1\"").is_err());
}

#[test]
fn user_token_is_the_md5_of_the_lowered_mac() {
    let expected = format!("{:x}", md5::compute("0a1b2c3d4e5f"));
    assert_eq!(user_token_for_mac("0A:1B:2C:3D:4E:5F"), expected);
    assert_eq!(user_token_for_mac(""), format!("{:x}", md5::compute("")));
    let user = CachedUser::new(account("2"), "0A-1B-2C-3D-4E-5F");
    assert_eq!(user.user_token, expected);
    assert_eq!(user.account.platform_id, "P2");
}

#[test]
fn cached_users_keep_one_user_per_platform_id() {
    let mut users = CachedUsers::new();
    users.insert(CachedUser { account: account("1"), user_token: "x".to_string() });
    users.insert(CachedUser { account: account("2"), user_token: "y".to_string() });
    users.insert(CachedUser { account: account("1"), user_token: "z".to_string() });
    assert_eq!(users.iter().len(), 2);
    assert_eq!(users.iter()[0].user_token, "z");
    assert_eq!(users.by_platform_id("P1").unwrap().user_token, "z");
    assert_eq!(users.by_platform_id("P2").unwrap().user_token, "y");
    assert!(users.by_platform_id("P3").is_none());
}

#[test]
fn game_cached_users_replace_by_platform_id() {
    let mut users = GameUsers::new();
    users.insert(GameUser::parse("(PlatformId=\"9\",UserToken=\"a\")").unwrap());
    users.insert(GameUser::parse("(PlatformId=\"9\",UserToken=\"b\",TitleDisplayName=\"D\")").unwrap());
    let u = users.by_platform_id("9").unwrap();
    assert_eq!(u.user_token, "b");
    assert_eq!(u.title_display_name, "D");
    assert!(users.by_platform_id("8").is_none());
    assert!(GameUser::parse("()").is_err());
}

#[test]
fn display_names_show_their_discriminator() {
    assert_eq!(display_name_fixup("Conan12345".to_string()), "Conan#12345");
    assert_eq!(display_name_fixup("12345".to_string()), "12345");
    assert_eq!(display_name_fixup("".to_string()), "");
    assert_eq!(display_name_fixup("Ünï12345".to_string()), "Ünï#12345");
}

#[test]
fn login_request_and_reply() {
    assert_eq!(endpoint_url("Client/LoginWithSteam"), "https://A5B4F.playfabapi.com/Client/LoginWithSteam");
    assert_eq!(TITLE_ID, "A5B4F");
    assert_eq!(SDK, "UE4MKPL-1.31.200121");
    assert_eq!(steam_ticket_text(&[0x01, 0xab, 0xff]), "01ABFF");
    let ok = account_from_reply(Some((
        "M".to_string(),
        "T".to_string(),
        "Player12345".to_string(),
        Some("7656".to_string()),
    )))
    .unwrap();
    assert_eq!(ok.display_name, "Player#12345");
    assert_eq!(ok.platform_id, "7656");
    assert_eq!(ok.master_id, "M");
    assert_eq!(ok.title_id, "T");
    assert_eq!(account_from_reply(None).err(), Some(LoginError::MissingAccountInfo));
    assert_eq!(
        account_from_reply(Some(("M".to_string(), "T".to_string(), "N".to_string(), None))).err(),
        Some(LoginError::MissingSteamInfo)
    );
}

fn display_state(
    platform_user: Result<bugle::auth::PlatformUser, String>,
    fls_account: bugle::auth::TaskState<Result<Account, String>>,
) -> bugle::auth::AuthState {
    bugle::auth::AuthState {
        platform_user,
        fls_account,
        online_capability: bugle::auth::TaskState::Ready(Ok(())),
        sp_capability: bugle::auth::TaskState::Ready(Err("not logged in".to_string())),
    }
}

#[test]
fn auth_display_shows_users_and_capabilities() {
    let user = bugle::auth::PlatformUser { id: "7656".to_string(), display_name: "Conan".to_string() };
    let d = bugle::auth::auth_display(&display_state(Ok(user), bugle::auth::TaskState::Ready(Ok(account("ABC")))));
    assert_eq!(d.platform_user_id, "7656");
    assert_eq!(d.platform_user_name, "Conan");
    assert!(!d.can_refresh_platform);
    assert_eq!(d.fls_account_id, "MABC");
    assert_eq!(d.fls_account_name, "Name ABC");
    assert!(!d.can_refresh_fls);
    assert_eq!(d.online_play, "Yes");
    assert_eq!(d.single_player, "No, not logged in");
}

#[test]
fn auth_display_shows_errors_in_brackets() {
    let d = bugle::auth::auth_display(&display_state(
        Err("Steam not running".to_string()),
        bugle::auth::TaskState::Pending,
    ));
    assert_eq!(d.platform_user_id, "<Steam not running>");
    assert_eq!(d.platform_user_name, "<Steam not running>");
    assert!(d.can_refresh_platform);
    assert_eq!(d.fls_account_id, "<Fetching...>");
    assert_eq!(d.fls_account_name, "<Fetching...>");
    assert!(!d.can_refresh_fls);
    let d = bugle::auth::auth_display(&display_state(
        Err("x".to_string()),
        bugle::auth::TaskState::Ready(Err("timeout".to_string())),
    ));
    assert_eq!(d.fls_account_name, "<timeout>");
    assert!(d.can_refresh_fls);
    let mut s = display_state(Err("x".to_string()), bugle::auth::TaskState::Pending);
    s.online_capability = bugle::auth::TaskState::Pending;
    assert_eq!(bugle::auth::auth_display(&s).online_play, "<Checking...>");
}

#[test]
fn login_request_fields() {
    let r = bugle::auth::playfab::login_request(&[0x0a, 0xff]);
    assert_eq!(r.title_id, "A5B4F");
    assert!(!r.create_account);
    assert_eq!(r.steam_ticket, "0AFF");
    assert!(r.user_account_info);
}

#[test]
fn login_reply_envelope_checks() {
    assert_eq!(check_reply(true, Some(Some(200)), true), Ok(()));
    assert_eq!(check_reply(false, Some(Some(200)), true), Err(LoginError::NotAnObject));
    assert_eq!(check_reply(true, None, true), Err(LoginError::MissingCode));
    assert_eq!(check_reply(true, Some(None), true), Err(LoginError::CodeNotANumber));
    assert_eq!(check_reply(true, Some(Some(401)), true), Err(LoginError::BadCode(401)));
    assert_eq!(check_reply(true, Some(Some(200)), false), Err(LoginError::MissingData));
    let info = Some(("M".to_string(), "T".to_string(), "Player12345".to_string(), Some("7656".to_string())));
    assert_eq!(account_from_login_reply(true, Some(Some(500)), true, info.clone()).err(), Some(LoginError::BadCode(500)));
    let a = account_from_login_reply(true, Some(Some(200)), true, info).unwrap();
    assert_eq!(a.display_name, "Player#12345");
    assert_eq!(account_from_login_reply(true, Some(Some(200)), true, None).err(), Some(LoginError::MissingAccountInfo));
}

#[test]
fn display_names_that_can_be_split() {
    assert!(display_name_splits("Abc"));
    assert!(display_name_splits("Player12345"));
    assert!(display_name_splits("Jürgen12345"));
    // "€" takes three bytes: five bytes before the end falls inside it.
    assert!(!display_name_splits("ab€cdef"));
    assert!(display_name_splits("ab€cdefg"));
}

#[test]
fn machine_token_is_32_lower_hex_digits() {
    let t = user_token_for_mac("AA:BB:CC:DD:EE:FF");
    assert_eq!(t.len(), 32);
    assert!(t.chars().all(|c| c.is_ascii_digit() || ('a'..='f').contains(&c)));
}

#[test]
fn cached_users_after_a_sequence_of_inserts() {
    let mut users = CachedUsers::new();
    let mut a1 = account("1");
    a1.display_name = "first".to_string();
    users.insert(CachedUser::new(a1, "00:11:22:33:44:55"));
    users.insert(CachedUser::new(account("2"), "00:11:22:33:44:55"));
    let mut a3 = account("1");
    a3.display_name = "second".to_string();
    users.insert(CachedUser::new(a3, "00:11:22:33:44:55"));
    assert_eq!(users.iter().len(), 2);
    assert_eq!(users.by_platform_id("P1").unwrap().account.display_name, "second");
    assert_eq!(users.by_platform_id("P2").unwrap().account.master_id, "M2");
    assert!(users.by_platform_id("P3").is_none());
    assert_eq!(users.iter()[0].account.platform_id, "P1");
}
