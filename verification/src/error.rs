//! What can go wrong while a request is given its translations.

use vstd::prelude::*;
use vstd::string::StringExecFns;

verus! {

/// No catalog is loaded for the locale that a request resolved to.
#[derive(Debug)]
pub struct MissingTranslationsError(String);

impl View for MissingTranslationsError {
    type V = Seq<char>;

    /// The locale tag for which no catalog was found.
    closed spec fn view(&self) -> Seq<char> {
        self.0@
    }
}

impl MissingTranslationsError {
    /// The error for the locale tag `lang`.
    pub fn new(lang: String) -> (e: MissingTranslationsError)
        ensures
            e@ == lang@,
    {
        MissingTranslationsError(lang)
    }

    /// The locale tag for which no catalog was found.
    pub fn lang(&self) -> (lang: &str)
        ensures
            lang@ == self@,
    {
        self.0.as_str()
    }

    /// The error as a sentence that names the locale.
    pub fn message(&self) -> (text: String)
        ensures
            text@ == "Could not find translations for "@ + self@,
    {
        let mut text = String::from_str("Could not find translations for ");
        text.append(self.0.as_str());
        text
    }

    /// The error in a few words, without the locale.
    pub fn description(&self) -> (text: &'static str)
        ensures
            text@ == "Could not find translations"@,
    {
        "Could not find translations"
    }
}

/// The application holds no translations at all: none were registered
/// with it before the request came in.
#[derive(Debug, Clone, Copy, PartialEq, Eq, Structural)]
pub struct MissingStateError;

impl MissingStateError {
    /// The error as a sentence.
    pub fn message(&self) -> (text: String)
        ensures
            text@ == "Could not retrieve state"@,
    {
        String::from_str("Could not retrieve state")
    }

    /// The error in a few words.
    pub fn description(&self) -> (text: &'static str)
        ensures
            text@ == "Could not retrieve state"@,
    {
        "Could not retrieve state"
    }
}

/// Why a request got no translations.
#[derive(Debug)]
pub enum RequestError {
    /// The application holds no translations.
    MissingState(MissingStateError),
    /// The translations hold no catalog for the locale of the request.
    MissingTranslations(MissingTranslationsError),
}

} // verus!
