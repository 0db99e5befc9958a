use dusty::lang::{select_language, Language};

#[test]
fn language_names_select_catalogues() {
    assert_eq!(select_language("portuguese"), Language::PtBr);
    assert_eq!(select_language("english"), Language::EnUs);
    assert_eq!(select_language("french"), Language::FrFr);
    assert_eq!(select_language("spanish"), Language::EsEs);
}

#[test]
fn language_names_are_trimmed() {
    assert_eq!(select_language("  french\n"), Language::FrFr);
    assert_eq!(select_language("\tspanish \u{3000}"), Language::EsEs);
}

#[test]
fn unknown_language_falls_back_to_english() {
    assert_eq!(select_language("German"), Language::EnUs);
    assert_eq!(select_language("French"), Language::EnUs);
    assert_eq!(select_language(""), Language::EnUs);
    assert_eq!(select_language("   "), Language::EnUs);
    assert_eq!(select_language("span ish"), Language::EnUs);
}

#[test]
fn trimmed_name_selects_same_catalogue() {
    for name in ["  french ", "\tportuguese\n", " German ", "spanish"] {
        assert_eq!(select_language(name), select_language(name.trim()));
    }
}
