use gettext::Catalog;
use rocket_i18n::catalog::catalog_path;
use rocket_i18n::error::{MissingStateError, MissingTranslationsError, RequestError};
use rocket_i18n::negotiation::{negotiate, I18n, Translations};

/// The bytes of a catalog file that translates `id` into `text`.
fn catalog_file(id: &str, text: &str) -> Vec<u8> {
    let mut bytes: Vec<u8> = Vec::new();
    let word = |n: usize| (n as u32).to_le_bytes();
    let id_at: usize = 44;
    let text_at: usize = id_at + id.len() + 1;
    bytes.extend_from_slice(&[0xde, 0x12, 0x04, 0x95]);
    bytes.extend_from_slice(&word(0));
    bytes.extend_from_slice(&word(1));
    bytes.extend_from_slice(&word(28));
    bytes.extend_from_slice(&word(36));
    bytes.extend_from_slice(&word(0));
    bytes.extend_from_slice(&word(44));
    bytes.extend_from_slice(&word(id.len()));
    bytes.extend_from_slice(&word(id_at));
    bytes.extend_from_slice(&word(text.len()));
    bytes.extend_from_slice(&word(text_at));
    bytes.extend_from_slice(id.as_bytes());
    bytes.push(0);
    bytes.extend_from_slice(text.as_bytes());
    bytes.push(0);
    bytes
}

/// A catalog that translates `Hello` into `hello`.
fn catalog(hello: &str) -> Catalog {
    Catalog::parse(&catalog_file("Hello", hello)[..]).expect("a well-formed catalog")
}

fn english_and_french() -> Translations {
    vec![("en", catalog("Hello")), ("fr", catalog("Bonjour"))]
}

fn served(found: &I18n) -> (&'static str, String) {
    (found.lang, found.catalog.gettext("Hello").to_string())
}

#[test]
fn test_catalogs_differ() {
    assert_eq!(catalog("Bonjour").gettext("Hello"), "Bonjour");
    assert_eq!(catalog("Hallo").gettext("Hello"), "Hallo");
    assert_eq!(catalog("Hallo").gettext("Bye"), "Bye");
}

#[test]
fn first_preference_with_region_and_weight() {
    let table = english_and_french();
    let found = negotiate(Some("fr-FR,en;q=0.8"), &table).unwrap();
    assert_eq!(served(&found), ("fr", "Bonjour".to_string()));
}

#[test]
fn absent_preference_is_served_the_default() {
    let table = english_and_french();
    let found = negotiate(None, &table).unwrap();
    assert_eq!(served(&found), ("en", "Hello".to_string()));
}

#[test]
fn unsupported_preference_falls_back_to_the_default() {
    let table = english_and_french();
    let found = negotiate(Some("de-DE"), &table).unwrap();
    assert_eq!(served(&found), ("en", "Hello".to_string()));
}

#[test]
fn missing_default_fails() {
    let table: Translations = vec![("fr", catalog("Bonjour"))];
    let e = negotiate(Some("de-DE"), &table).err().unwrap();
    assert_eq!(e.lang(), "en");
}

#[test]
fn missing_default_fails_without_preference_too() {
    let table: Translations = vec![("fr", catalog("Bonjour"))];
    assert_eq!(negotiate(None, &table).err().unwrap().lang(), "en");
    assert_eq!(negotiate(Some(""), &table).err().unwrap().lang(), "en");
    assert_eq!(negotiate(Some("en-GB"), &table).err().unwrap().lang(), "en");
}

#[test]
fn empty_table_fails() {
    let table: Translations = Vec::new();
    assert_eq!(negotiate(Some("fr"), &table).err().unwrap().lang(), "en");
    assert_eq!(negotiate(None, &table).err().unwrap().lang(), "en");
}

#[test]
fn supported_preference_needs_no_default() {
    let table: Translations = vec![("fr", catalog("Bonjour"))];
    let found = negotiate(Some("de,fr-CA;q=0.5"), &table).unwrap();
    assert_eq!(served(&found), ("fr", "Bonjour".to_string()));
}

#[test]
fn order_ranks_preferences_and_weights_do_not() {
    let table = english_and_french();
    let found = negotiate(Some("en;q=0.1,fr;q=0.9"), &table).unwrap();
    assert_eq!(served(&found), ("en", "Hello".to_string()));
    let found = negotiate(Some("de;q=1.0,fr;q=0.2,en;q=0.9"), &table).unwrap();
    assert_eq!(served(&found), ("fr", "Bonjour".to_string()));
}

#[test]
fn empty_preference_falls_back() {
    let table = english_and_french();
    assert_eq!(served(&negotiate(Some(""), &table).unwrap()).0, "en");
    assert_eq!(served(&negotiate(Some(","), &table).unwrap()).0, "en");
    assert_eq!(served(&negotiate(Some(",,fr"), &table).unwrap()).0, "fr");
}

#[test]
fn preference_without_language_falls_back() {
    let table = english_and_french();
    assert_eq!(served(&negotiate(Some("-fr"), &table).unwrap()).0, "en");
    assert_eq!(served(&negotiate(Some(";q=0.5"), &table).unwrap()).0, "en");
    assert_eq!(served(&negotiate(Some("-fr,fr"), &table).unwrap()).0, "fr");
}

#[test]
fn empty_tag_is_a_tag_like_any_other() {
    let table: Translations = vec![("", catalog("nothing")), ("en", catalog("Hello"))];
    let found = negotiate(Some("-x"), &table).unwrap();
    assert_eq!(served(&found), ("", "nothing".to_string()));
}

#[test]
fn tags_are_compared_as_written() {
    let table = english_and_french();
    assert_eq!(served(&negotiate(Some("FR"), &table).unwrap()).0, "en");
    assert_eq!(served(&negotiate(Some("de, fr"), &table).unwrap()).0, "en");
    assert_eq!(served(&negotiate(Some("fr "), &table).unwrap()).0, "en");
    assert_eq!(served(&negotiate(Some("fr_FR"), &table).unwrap()).0, "en");
    assert_eq!(served(&negotiate(Some("f"), &table).unwrap()).0, "en");
    assert_eq!(served(&negotiate(Some("fra"), &table).unwrap()).0, "en");
}

#[test]
fn region_is_not_part_of_a_table_tag_match() {
    let table: Translations = vec![("en", catalog("Hello")), ("pt-BR", catalog("Ola"))];
    let found = negotiate(Some("pt-BR"), &table).unwrap();
    assert_eq!(served(&found), ("en", "Hello".to_string()));
}

#[test]
fn first_entry_of_a_repeated_tag_wins() {
    let table: Translations = vec![
        ("fr", catalog("Bonjour")),
        ("en", catalog("Hello")),
        ("fr", catalog("Salut")),
        ("en", catalog("Hi")),
    ];
    let found = negotiate(Some("fr"), &table).unwrap();
    assert_eq!(served(&found), ("fr", "Bonjour".to_string()));
    let found = negotiate(Some("de"), &table).unwrap();
    assert_eq!(served(&found), ("en", "Hello".to_string()));
}

#[test]
fn table_is_left_as_it_was() {
    let table = english_and_french();
    let _ = negotiate(Some("fr"), &table).unwrap();
    assert_eq!(table.len(), 2);
    assert_eq!(table[1].0, "fr");
    assert_eq!(table[1].1.gettext("Hello"), "Bonjour");
}

#[test]
fn request_without_state_fails() {
    match I18n::from_request(None, Some("fr")) {
        Err(RequestError::MissingState(e)) => assert_eq!(e, MissingStateError),
        _ => panic!("a request without translations should fail"),
    }
}

#[test]
fn request_with_state_is_negotiated() {
    let table = english_and_french();
    let found = I18n::from_request(Some(&table), Some("fr-FR,en;q=0.8")).unwrap();
    assert_eq!(served(&found), ("fr", "Bonjour".to_string()));
    let found = I18n::from_request(Some(&table), None).unwrap();
    assert_eq!(served(&found), ("en", "Hello".to_string()));
}

#[test]
fn request_without_default_fails() {
    let table: Translations = vec![("fr", catalog("Bonjour"))];
    match I18n::from_request(Some(&table), Some("de-DE")) {
        Err(RequestError::MissingTranslations(e)) => {
            assert_eq!(e.lang(), "en");
            assert_eq!(e.message(), "Could not find translations for en");
        }
        _ => panic!("a request for a missing locale should fail"),
    }
}

#[test]
fn missing_translations_error_texts() {
    let e = MissingTranslationsError::new("pl".to_string());
    assert_eq!(e.lang(), "pl");
    assert_eq!(e.message(), "Could not find translations for pl");
    assert_eq!(e.description(), "Could not find translations");
}

#[test]
fn missing_state_error_texts() {
    let e = MissingStateError;
    assert_eq!(e.message(), "Could not retrieve state");
    assert_eq!(e.description(), "Could not retrieve state");
}

#[test]
fn catalog_file_path() {
    assert_eq!(catalog_path("app", "fr"), "translations/fr/LC_MESSAGES/app.mo");
    assert_eq!(catalog_path("your-domain", "pl"), "translations/pl/LC_MESSAGES/your-domain.mo");
    assert_eq!(catalog_path("", ""), "translations//LC_MESSAGES/.mo");
}

#[test]
fn negotiated_pattern_is_interpolated() {
    let table: Translations = vec![
        ("en", catalog("Hello {0}!")),
        ("fr", catalog("Bonjour {0} !")),
    ];
    let found = negotiate(Some("fr-BE"), &table).unwrap();
    let pattern = found.catalog.gettext("Hello");
    assert_eq!(
        rocket_i18n::template::format(pattern, &["Alex"]),
        Ok("Bonjour Alex !".to_string())
    );
}
