use audio_player::settings::validate_language;

#[test]
fn validate_language_accepts_supported_codes() {
    assert!(validate_language("en").is_ok());
    assert!(validate_language("es").is_ok());
}

#[test]
fn validate_language_rejects_unsupported_codes() {
    assert!(validate_language("fr").is_err());
    assert!(validate_language("").is_err());
    assert!(
        validate_language("ES").is_err(),
        "los códigos son sensibles a mayúsculas"
    );
}

#[test]
fn unsupported_language_message_names_the_code() {
    assert_eq!(
        validate_language("fr"),
        Err("Idioma no soportado: 'fr' (soportados: en, es)".to_string())
    );
}
