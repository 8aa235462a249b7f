//! The command line: which provider is meant, and what is run.

use vstd::prelude::*;
use vstd::string::*;

use crate::client::{law_names_stand_for_services, Provider};
use crate::text::{ascii_lower, same, to_ascii_lower};

verus! {

/// The name that a provider goes by: aliases are resolved, and letters are put
/// in lower case.
pub open spec fn provider_name(p: Seq<char>) -> Seq<char> {
    let lower = ascii_lower(p);
    if lower == "openrouter"@ || lower == "gemini"@ {
        "gemini"@
    } else if lower == "gpt-transcribe"@ || lower == "gpttranscribe"@ || lower == "gpt"@ {
        "gpt-transcribe"@
    } else {
        lower
    }
}

/// The name that a provider goes by.
pub fn normalize_provider(p: &str) -> (name: String)
    ensures
        name@ == provider_name(p@),
{
    let lower = to_ascii_lower(p);
    let l: &str = lower.as_str();
    if same(l, "openrouter") || same(l, "gemini") {
        "gemini".to_string()
    } else if same(l, "gpt-transcribe") || same(l, "gpttranscribe") || same(l, "gpt") {
        "gpt-transcribe".to_string()
    } else {
        lower
    }
}

/// What is run.
#[derive(Debug)]
pub enum Mode {
    /// Transcribe a file and print the text.
    File(String),
    /// Dictate one phrase.
    Once,
    /// Dictate so many phrases.
    Count(usize),
    /// Dictate until stopped.
    Continuous,
}

/// What is run for the given options. A file comes before `once`, and that
/// before `count`.
pub fn mode(file: Option<String>, once: bool, count: Option<usize>) -> (mode: Mode)
    ensures
        mode == match (file, count) {
            (Some(path), _) => Mode::File(path),
            (None, Some(n)) => if once {
                Mode::Once
            } else {
                Mode::Count(n)
            },
            (None, None) => if once {
                Mode::Once
            } else {
                Mode::Continuous
            },
        },
{
    if let Some(path) = file {
        return Mode::File(path);
    }
    if once {
        return Mode::Once;
    }
    match count {
        Some(n) => Mode::Count(n),
        None => Mode::Continuous,
    }
}

/// The name of a provider is settled: resolving it again changes nothing.
pub proof fn law_provider_name_is_settled(p: Seq<char>)
    ensures
        provider_name(provider_name(p)) == provider_name(p),
{
    reveal_strlit("openrouter");
    reveal_strlit("gemini");
    reveal_strlit("gpt-transcribe");
    let lower = ascii_lower(p);
    assert(ascii_lower(lower) =~= lower);
    assert(ascii_lower("gemini"@) =~= "gemini"@);
    assert(ascii_lower("gpt-transcribe"@) =~= "gpt-transcribe"@);
}

/// Which names are aliases of which provider, however they are written; any other
/// name is only put in lower case.
pub proof fn law_aliases_go_by_one_name(p: Seq<char>)
    ensures
        ascii_lower(p) == "openrouter"@ || ascii_lower(p) == "gemini"@ ==> provider_name(p)
            == "gemini"@,
        ascii_lower(p) == "gpt-transcribe"@ || ascii_lower(p) == "gpttranscribe"@ || ascii_lower(p)
            == "gpt"@ ==> provider_name(p) == "gpt-transcribe"@,
        ascii_lower(p) != "openrouter"@ && ascii_lower(p) != "gpttranscribe"@ && ascii_lower(p)
            != "gpt"@ ==> provider_name(p) == ascii_lower(p),
{
    reveal_strlit("openrouter");
    reveal_strlit("gemini");
    reveal_strlit("gpt-transcribe");
    reveal_strlit("gpttranscribe");
    reveal_strlit("gpt");
    assert("openrouter"@.len() == 10 && "gemini"@.len() == 6 && "gpt-transcribe"@.len() == 14
        && "gpttranscribe"@.len() == 13 && "gpt"@.len() == 3);
}

/// Resolving a name never leads to another service, nor to none where the name
/// in lower case stands for one.
pub proof fn law_resolving_a_name_keeps_its_service(p: Seq<char>)
    ensures
        Provider::named(provider_name(p)) == Provider::named(ascii_lower(p)),
{
    law_aliases_go_by_one_name(p);
    law_names_stand_for_services(ascii_lower(p));
    law_names_stand_for_services(provider_name(p));
}

} // verus!
