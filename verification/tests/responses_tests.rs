use grace_chat::responses::{contains_sub, handle_chat_response, handle_validation_response};

#[test]
fn validation_success_and_plain_failures() {
    assert_eq!(
        handle_validation_response(200, None),
        (true, "API Key validation: SUCCESS".to_string())
    );
    assert_eq!(
        handle_validation_response(400, None),
        (false, "API Key validation: FAILED - Bad Request".to_string())
    );
    assert_eq!(
        handle_validation_response(429, None),
        (false, "API Key validation: FAILED - Rate Limited".to_string())
    );
    assert_eq!(
        handle_validation_response(500, None),
        (false, "API Key validation: FAILED - Server Error".to_string())
    );
}

#[test]
fn validation_unauthorized_reads_the_body() {
    let cases = [
        ("apiKeyInvalid", "API Key validation: FAILED - Invalid API Key"),
        ("apiKeyMissing", "API Key validation: FAILED - Missing API Key"),
        ("apiKeyDisabled", "API Key validation: FAILED - API Key Disabled"),
        ("apiKeyExhausted", "API Key validation: FAILED - API Key Exhausted"),
    ];
    for (code, line) in cases {
        let body = format!("{{\"status\":\"error\",\"code\":\"{code}\"}}");
        assert_eq!(handle_validation_response(401, Some(body)), (false, line.to_string()));
    }
    assert_eq!(
        handle_validation_response(401, Some("something else".to_string())),
        (false, "API Key validation: FAILED - Unauthorized".to_string())
    );
    assert_eq!(
        handle_validation_response(401, None),
        (false, "API Key validation: FAILED - Unauthorized".to_string())
    );
}

#[test]
fn validation_unexpected_status_carries_the_number() {
    assert_eq!(
        handle_validation_response(503, None),
        (false, "API Key validation: FAILED - Unexpected status: 503".to_string())
    );
}

#[test]
fn chat_response_lines() {
    assert_eq!(handle_chat_response(200, None), "Success");
    assert_eq!(
        handle_chat_response(400, None),
        "Lo siento, tu pregunta no es válida. ¿Podrías reformularla?"
    );
    assert_eq!(
        handle_chat_response(429, None),
        "Demasiadas consultas en este momento. Por favor, espera un momento e intenta de nuevo."
    );
    assert_eq!(
        handle_chat_response(500, None),
        "El servicio no está disponible en este momento. Por favor, intenta más tarde."
    );
    assert_eq!(
        handle_chat_response(418, None),
        "Error inesperado (código 418). Por favor, intenta de nuevo."
    );
}

#[test]
fn chat_response_unauthorized_reads_the_body() {
    assert_eq!(
        handle_chat_response(401, Some("apiKeyInvalid".to_string())),
        "Tu API key no es válida. Por favor, contacta al administrador."
    );
    assert_eq!(
        handle_chat_response(401, Some("xx apiKeyMissing yy".to_string())),
        "Tu API key no es válida. Por favor, contacta al administrador."
    );
    assert_eq!(
        handle_chat_response(401, Some("apiKeyDisabled".to_string())),
        "Tu API key ha sido deshabilitada o agotada. Contacta al administrador."
    );
    assert_eq!(
        handle_chat_response(401, Some("apiKeyExhausted".to_string())),
        "Tu API key ha sido deshabilitada o agotada. Contacta al administrador."
    );
    assert_eq!(
        handle_chat_response(401, None),
        "Hay un problema con la configuración del chat. Por favor, contacta al administrador."
    );
}

#[test]
fn substring_search_matches_std() {
    let cases = [
        ("", ""),
        ("abc", ""),
        ("", "a"),
        ("abc", "abc"),
        ("abc", "abcd"),
        ("aaab", "aab"),
        ("banana", "nana"),
        ("banana", "nanb"),
        ("héllo wörld", "wör"),
        ("héllo wörld", "wrld"),
    ];
    for (hay, needle) in cases {
        assert_eq!(contains_sub(hay, needle), hay.contains(needle), "({hay:?}, {needle:?})");
    }
}
