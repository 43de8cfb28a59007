use bugle::l10n::{select_locale, DirectoryLoader, Locale};

fn locale(language: &str, region: Option<&str>) -> Locale {
    Locale {
        language: language.to_string(),
        script: None,
        region: region.map(|r| r.to_string()),
        variants: vec![],
    }
}

#[test]
fn locale_is_the_first_available_preference() {
    let available = vec![(locale("en", None), "English".to_string()), (locale("fr", Some("FR")), "Français".to_string())];
    let r = select_locale(&available, &[locale("de", Some("DE")), locale("fr", Some("FR")), locale("en", None)]).unwrap();
    assert_eq!(r.language, "fr");
    assert_eq!(r.region.as_deref(), Some("FR"));
}

#[test]
fn locale_falls_back_to_the_language_without_region() {
    let available = vec![(locale("en", None), "English".to_string())];
    let r = select_locale(&available, &[locale("en", Some("GB"))]).unwrap();
    assert_eq!(r.language, "en");
    assert_eq!(r.region, None);
    assert!(select_locale(&available, &[locale("ja", Some("JP"))]).is_none());
    assert!(select_locale(&available, &[]).is_none());
}

#[test]
fn directory_loader_keeps_its_path() {
    assert_eq!(DirectoryLoader::new("l10n").base_path(), "l10n");
}
