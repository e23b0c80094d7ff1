//! The backend's HTTP status codes, turned into verdicts and user-facing
//! text. The surrounding request I/O lives outside this crate; these
//! functions decide, from the status code and the error body the caller
//! read, exactly what is reported.

use vstd::prelude::*;
use crate::chars::{str_to_chars, chars_to_string, lemma_char_eq_by_code};
use crate::decimal::{dec_of, push_dec};

verus! {

/// `needle` occurs contiguously somewhere in `hay`.
pub open spec fn contains_seq(hay: Seq<char>, needle: Seq<char>) -> bool {
    exists|i: int|
        0 <= i && i + needle.len() <= hay.len() && #[trigger] hay.subrange(i, i + needle.len())
            == needle
}

/// Whether `needle` occurs contiguously in `hay`.
pub fn contains_sub(hay: &str, needle: &str) -> (r: bool)
    ensures
        r == contains_seq(hay@, needle@),
{
    let h = str_to_chars(hay);
    let n = str_to_chars(needle);
    if n.len() == 0 {
        proof {
            let w: int = 0;
            assert(hay@.subrange(w, w + needle@.len()) =~= needle@);
        }
        return true;
    }
    if n.len() > h.len() {
        assert(!contains_seq(hay@, needle@));
        return false;
    }
    let mut i: usize = 0;
    loop
        invariant
            h@ == hay@,
            n@ == needle@,
            1 <= n@.len() <= h@.len(),
            h@.len() <= usize::MAX,
            0 <= i <= h@.len() - n@.len() + 1,
            forall|j: int| 0 <= j < i ==> #[trigger] h@.subrange(j, j + n@.len()) != n@,
        decreases h@.len() - i,
    {
        if i > h.len() - n.len() {
            proof {
                assert forall|j: int|
                    0 <= j && j + needle@.len() <= hay@.len() implies #[trigger] hay@.subrange(
                    j,
                    j + needle@.len(),
                ) != needle@ by {
                    assert(j < i);
                }
            }
            return false;
        }
        let mut k: usize = 0;
        let mut hit = true;
        while k < n.len()
            invariant
                h@.len() <= usize::MAX,
                n@.len() <= h@.len(),
                i + n@.len() <= h@.len(),
                k <= n@.len(),
                hit ==> forall|t: int| 0 <= t < k ==> h@[i + t] == n@[t],
                !hit ==> h@.subrange(i as int, i + n@.len()) != n@,
            decreases n@.len() - k,
        {
            let a = h[i + k] as u32;
            let b = n[k] as u32;
            if a != b {
                proof {
                    assert(h@.subrange(i as int, i + n@.len()) != n@) by {
                        assert(h@.subrange(i as int, i + n@.len())[k as int] == h@[i + k]);
                    }
                }
                hit = false;
                k = n.len();
            } else {
                proof {
                    lemma_char_eq_by_code(h@[i + k], n@[k as int]);
                }
                k = k + 1;
            }
        }
        if hit {
            proof {
                assert(h@.subrange(i as int, i + n@.len()) =~= n@);
            }
            return true;
        }
        i = i + 1;
    }
}

/// The text of an error body, where the caller could read one.
pub open spec fn body_chars(error_text: Option<Seq<char>>) -> Seq<char> {
    match error_text {
        Some(t) => t,
        None => Seq::empty(),
    }
}

/// The verdict on an api-key validation request that came back with
/// `status`, and the exact line reported for it. For `401` the error body
/// is searched for the backend's error codes; everywhere else the body is
/// ignored.
pub open spec fn validation_verdict(status: u16, error_text: Option<Seq<char>>) -> (bool, Seq<
    char,
>) {
    if status == 200 {
        (true, "API Key validation: SUCCESS"@)
    } else if status == 400 {
        (false, "API Key validation: FAILED - Bad Request"@)
    } else if status == 401 {
        let body = body_chars(error_text);
        if contains_seq(body, "apiKeyInvalid"@) {
            (false, "API Key validation: FAILED - Invalid API Key"@)
        } else if contains_seq(body, "apiKeyMissing"@) {
            (false, "API Key validation: FAILED - Missing API Key"@)
        } else if contains_seq(body, "apiKeyDisabled"@) {
            (false, "API Key validation: FAILED - API Key Disabled"@)
        } else if contains_seq(body, "apiKeyExhausted"@) {
            (false, "API Key validation: FAILED - API Key Exhausted"@)
        } else {
            (false, "API Key validation: FAILED - Unauthorized"@)
        }
    } else if status == 429 {
        (false, "API Key validation: FAILED - Rate Limited"@)
    } else if status == 500 {
        (false, "API Key validation: FAILED - Server Error"@)
    } else {
        (false, "API Key validation: FAILED - Unexpected status: "@ + dec_of(status as nat))
    }
}

/// Decides an api-key validation response, per [`validation_verdict`].
pub fn handle_validation_response(status: u16, error_text: Option<String>) -> (r: (bool, String))
    ensures
        r.0 == validation_verdict(
            status,
            match error_text {
                Some(t) => Some(t@),
                None => None,
            },
        ).0,
        r.1@ == validation_verdict(
            status,
            match error_text {
                Some(t) => Some(t@),
                None => None,
            },
        ).1,
{
    if status == 200 {
        (true, "API Key validation: SUCCESS".to_owned())
    } else if status == 400 {
        (false, "API Key validation: FAILED - Bad Request".to_owned())
    } else if status == 401 {
        let body: String = match error_text {
            Some(t) => t,
            None => String::new(),
        };
        if contains_sub(body.as_str(), "apiKeyInvalid") {
            (false, "API Key validation: FAILED - Invalid API Key".to_owned())
        } else if contains_sub(body.as_str(), "apiKeyMissing") {
            (false, "API Key validation: FAILED - Missing API Key".to_owned())
        } else if contains_sub(body.as_str(), "apiKeyDisabled") {
            (false, "API Key validation: FAILED - API Key Disabled".to_owned())
        } else if contains_sub(body.as_str(), "apiKeyExhausted") {
            (false, "API Key validation: FAILED - API Key Exhausted".to_owned())
        } else {
            (false, "API Key validation: FAILED - Unauthorized".to_owned())
        }
    } else if status == 429 {
        (false, "API Key validation: FAILED - Rate Limited".to_owned())
    } else if status == 500 {
        (false, "API Key validation: FAILED - Server Error".to_owned())
    } else {
        let mut line = "API Key validation: FAILED - Unexpected status: ".to_owned();
        let mut digits: Vec<char> = Vec::new();
        push_dec(&mut digits, status as u64);
        let ds = chars_to_string(&digits);
        line.append(ds.as_str());
        (false, line)
    }
}

/// The line shown to the user when a chat request came back with `status`.
/// For `401` the error body is searched for the backend's error codes;
/// everywhere else the body is ignored. (`200` is handled by the chat flow
/// itself and only acknowledged here.)
pub open spec fn chat_response_line(status: u16, error_text: Option<Seq<char>>) -> Seq<char> {
    if status == 200 {
        "Success"@
    } else if status == 400 {
        "Lo siento, tu pregunta no es válida. ¿Podrías reformularla?"@
    } else if status == 401 {
        let body = body_chars(error_text);
        if contains_seq(body, "apiKeyInvalid"@) || contains_seq(body, "apiKeyMissing"@) {
            "Tu API key no es válida. Por favor, contacta al administrador."@
        } else if contains_seq(body, "apiKeyDisabled"@) || contains_seq(body, "apiKeyExhausted"@) {
            "Tu API key ha sido deshabilitada o agotada. Contacta al administrador."@
        } else {
            "Hay un problema con la configuración del chat. Por favor, contacta al administrador."@
        }
    } else if status == 429 {
        "Demasiadas consultas en este momento. Por favor, espera un momento e intenta de nuevo."@
    } else if status == 500 {
        "El servicio no está disponible en este momento. Por favor, intenta más tarde."@
    } else {
        "Error inesperado (código "@ + dec_of(status as nat)
            + "). Por favor, intenta de nuevo."@
    }
}

/// Decides a chat response, per [`chat_response_line`].
pub fn handle_chat_response(status: u16, error_text: Option<String>) -> (r: String)
    ensures
        r@ == chat_response_line(
            status,
            match error_text {
                Some(t) => Some(t@),
                None => None,
            },
        ),
{
    if status == 200 {
        "Success".to_owned()
    } else if status == 400 {
        "Lo siento, tu pregunta no es válida. ¿Podrías reformularla?".to_owned()
    } else if status == 401 {
        let body: String = match error_text {
            Some(t) => t,
            None => String::new(),
        };
        let invalid = contains_sub(body.as_str(), "apiKeyInvalid");
        let missing = contains_sub(body.as_str(), "apiKeyMissing");
        let disabled = contains_sub(body.as_str(), "apiKeyDisabled");
        let exhausted = contains_sub(body.as_str(), "apiKeyExhausted");
        if invalid || missing {
            "Tu API key no es válida. Por favor, contacta al administrador.".to_owned()
        } else if disabled || exhausted {
            "Tu API key ha sido deshabilitada o agotada. Contacta al administrador.".to_owned()
        } else {
            "Hay un problema con la configuración del chat. Por favor, contacta al administrador.".to_owned()
        }
    } else if status == 429 {
        "Demasiadas consultas en este momento. Por favor, espera un momento e intenta de nuevo.".to_owned()
    } else if status == 500 {
        "El servicio no está disponible en este momento. Por favor, intenta más tarde.".to_owned()
    } else {
        let mut line = "Error inesperado (código ".to_owned();
        let mut digits: Vec<char> = Vec::new();
        push_dec(&mut digits, status as u64);
        let ds = chars_to_string(&digits);
        line.append(ds.as_str());
        line.append("). Por favor, intenta de nuevo.");
        line
    }
}

} // verus!
