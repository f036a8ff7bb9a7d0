//! Checks on the user preferences that are stored between sessions.
use vstd::prelude::*;

use crate::text::same_text;

verus! {

/// The interface languages the application ships: English and Spanish.
pub open spec fn supported_language(language: Seq<char>) -> bool {
    language == "en"@ || language == "es"@
}

/// The message given for a language that is not supported.
pub open spec fn unsupported_language_message(language: Seq<char>) -> Seq<char> {
    "Idioma no soportado: '"@ + language + "' (soportados: en, es)"@
}

/// Accepts the language codes the interface supports (case sensitive) and
/// rejects any other with a message that names it.
pub fn validate_language(language: &str) -> (r: Result<(), String>)
    ensures
        r is Ok <==> supported_language(language@),
        r matches Err(m) ==> m@ == unsupported_language_message(language@),
{
    if same_text(language, "en") || same_text(language, "es") {
        Ok(())
    } else {
        let mut message = String::from_str("Idioma no soportado: '");
        message.append(language);
        message.append("' (soportados: en, es)");
        Err(message)
    }
}

} // verus!
