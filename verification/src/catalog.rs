//! The message catalog of one locale, and where its file is found.

use vstd::prelude::*;
use vstd::string::StringExecFns;

verus! {

/// `gettext::Catalog`: the messages of one locale. What it holds is not
/// looked into here; a catalog is only handed on.
#[verifier::external_type_specification]
#[verifier::external_body]
pub struct ExCatalog(gettext::Catalog);

/// `Clone::clone` of `gettext::Catalog` gives a catalog with the same
/// messages and the same plural rule as the one it is called on.
pub assume_specification[ <gettext::Catalog as Clone>::clone ](catalog: &gettext::Catalog) -> (copy:
    gettext::Catalog)
    ensures
        copy == *catalog,
;

/// The path of a catalog file, relative to the directory that the program
/// runs in: `translations/<lang>/LC_MESSAGES/<domain>.mo`.
pub open spec fn catalog_path_spec(domain: Seq<char>, lang: Seq<char>) -> Seq<char> {
    "translations/"@ + lang + "/LC_MESSAGES/"@ + domain + ".mo"@
}

/// The path of the catalog file of `domain` for the locale `lang`.
pub fn catalog_path(domain: &str, lang: &str) -> (path: String)
    ensures
        path@ == catalog_path_spec(domain@, lang@),
{
    let mut path = String::from_str("translations/");
    path.append(lang);
    path.append("/LC_MESSAGES/");
    path.append(domain);
    path.append(".mo");
    path
}

} // verus!
