use bugle::config::{
    battleye_usage_from, battleye_usage_text, config_from_ini, config_to_ini, text_lossy, BattlEyeUsage,
    Config, ConfigError, ConfigPersister, IniConfigPersister, TransientConfig,
};
use bugle::ini_doc::{ini_add, ini_delete, ini_get, ini_get_all, ini_new, ini_parse, ini_set};

#[test]
fn battleye_setting_ignores_case_and_space() {
    assert_eq!(battleye_usage_from(Some(" Auto ")), BattlEyeUsage::Auto);
    assert_eq!(battleye_usage_from(Some("ALWAYS")), BattlEyeUsage::Always(true));
    assert_eq!(battleye_usage_from(Some("never\t")), BattlEyeUsage::Always(false));
    assert_eq!(battleye_usage_from(Some("sometimes")), BattlEyeUsage::Always(true));
    assert_eq!(battleye_usage_from(None), BattlEyeUsage::Always(true));
    assert_eq!(BattlEyeUsage::default(), BattlEyeUsage::Always(true));
    assert_eq!(battleye_usage_text(BattlEyeUsage::Auto), "auto");
    assert_eq!(battleye_usage_text(BattlEyeUsage::Always(false)), "never");
}

#[test]
fn settings_survive_a_save_and_load() {
    for usage in [BattlEyeUsage::Auto, BattlEyeUsage::Always(true), BattlEyeUsage::Always(false)] {
        let config = Config { use_battleye: usage };
        let ini = config_to_ini(&config);
        assert_eq!(config_from_ini(&ini), config);
        let mut text = Vec::new();
        ini.write_to(&mut text).unwrap();
        let persister = IniConfigPersister::new("bugle.ini".to_string());
        assert_eq!(persister.load_text(&String::from_utf8(text).unwrap()), Ok(config));
    }
}

#[test]
fn settings_load_from_text() {
    let persister = IniConfigPersister::new("bugle.ini".to_string());
    assert_eq!(persister.config_path(), "bugle.ini");
    assert_eq!(
        persister.load_text("UseBattlEye = Never\n"),
        Ok(Config { use_battleye: BattlEyeUsage::Always(false) })
    );
    assert_eq!(persister.load_text(""), Ok(Config { use_battleye: BattlEyeUsage::Always(true) }));
    assert_eq!(persister.load_text("[Section\nkey=value\n"), Err(ConfigError::Parse));
    assert_eq!(TransientConfig.load(), Ok(Config::default()));
    assert_eq!(TransientConfig.save(&Config::default()), Ok(()));
}

#[test]
fn file_text_is_utf8_or_utf16_after_a_bom() {
    assert_eq!(text_lossy("UseBattlEye=auto".as_bytes()), "UseBattlEye=auto");
    let mut utf16 = vec![0xff, 0xfe];
    for u in "Ünï\u{1F600}".encode_utf16() {
        utf16.extend_from_slice(&u.to_le_bytes());
    }
    utf16.push(0x41);
    assert_eq!(text_lossy(&utf16), "Ünï\u{1F600}");
    assert_eq!(text_lossy(&[0xff, 0xfe, 0x00, 0xd8, 0x41, 0x00]), "\u{FFFD}A");
    assert_eq!(text_lossy(&[0x41, 0xff, 0x42]), "A\u{FFFD}B");
}

#[test]
fn ini_documents_get_set_add_and_delete() {
    let mut ini = ini_parse("[S]\nk=1\nk=2\nother=x\n").unwrap();
    assert_eq!(ini_get(&ini, Some("S"), "k"), Some("1".to_string()));
    assert_eq!(ini_get_all(&ini, Some("S"), "k"), vec!["1".to_string(), "2".to_string()]);
    assert_eq!(ini_get(&ini, Some("T"), "k"), None);
    ini_add(&mut ini, Some("S"), "k", "3");
    assert_eq!(ini_get_all(&ini, Some("S"), "k").len(), 3);
    assert_eq!(ini_delete(&mut ini, Some("S"), "k"), Some("1".to_string()));
    assert!(ini_get_all(&ini, Some("S"), "k").is_empty());
    assert_eq!(ini_get(&ini, Some("S"), "other"), Some("x".to_string()));
    ini_set(&mut ini, None, "top", "level");
    assert_eq!(ini_get(&ini, None, "top"), Some("level".to_string()));
    let empty = ini_new();
    assert_eq!(ini_get(&empty, None, "top"), None);
}
