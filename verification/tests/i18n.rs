use tigersetup_engine::i18n::{
    detect_ui_language, fill, mnemonic_of, strip_mnemonics, text, EN_US, PL_PL,
};

#[test]
fn polish_covers_every_english_key_and_falls_back() {
    for (key, _) in EN_US {
        assert!(PL_PL.iter().any(|(k, _)| *k == key), "pl-PL lacks {key}");
    }
    assert!(text("pl-PL", "outcome.installed").starts_with("Zainstalowano"));
    assert!(text("de-DE", "outcome.installed").starts_with("Installed"));
    assert_eq!(fill("{a}-{b}", &[("a", "1"), ("b", "2")]), "1-2");
}

#[test]
fn every_catalog_entry_is_declared_once_and_keeps_its_placeholders() {
    for catalog in [EN_US, PL_PL] {
        let mut seen = std::collections::HashSet::new();
        for (key, _) in catalog {
            assert!(seen.insert(key), "{key} is declared twice");
        }
    }
    for (key, english) in EN_US {
        let polish = text("pl-PL", key);
        for token in english.split('{').skip(1).filter_map(|t| t.split('}').next()) {
            assert!(
                polish.contains(&format!("{{{token}}}")),
                "pl-PL {key} lacks the {{{token}}} placeholder"
            );
        }
    }
}

#[test]
fn the_brand_name_is_never_translated() {
    for (key, polish) in PL_PL {
        assert!(
            !polish.contains("TigerSetup"),
            "{key} names the brand; the wizard writes it, the catalog never does"
        );
    }
}

#[test]
fn mnemonics_are_read_off_a_label() {
    assert_eq!(mnemonic_of("&Next"), Some('n'));
    assert_eq!(mnemonic_of("Za&instaluj"), Some('i'));
    assert_eq!(mnemonic_of("A && B"), None);
    assert_eq!(strip_mnemonics("Za&instaluj"), "Zainstaluj");
    assert_eq!(strip_mnemonics("A && B"), "A & B");
}

#[test]
fn the_interface_language_follows_the_primary_one() {
    assert_eq!(detect_ui_language(0x0415), "pl-PL");
    assert_eq!(detect_ui_language(0x0407), "en-US");
    assert_eq!(detect_ui_language(0x0409), "en-US");
}
