//! Locale negotiation: which of the loaded catalogs a request is served
//! from, given the languages that the client says it prefers.

use vstd::prelude::*;
use gettext::Catalog;
use crate::error::{MissingStateError, MissingTranslationsError, RequestError};
use crate::text::{chars_of, lemma_first_sep_at, split, split_chars, string_of, views};

verus! {

/// The translations that a request is served from.
pub struct I18n {
    /// The catalog containing the translated messages, in the correct locale for this request.
    pub catalog: Catalog,
    /// The language of the current request.
    pub lang: &'static str,
}

/// The catalogs that an application has loaded, each with its locale tag,
/// in the order in which they were loaded.
pub type Translations = Vec<(&'static str, Catalog)>;

/// The locale tag that serves a request which states no preference, or
/// none that the application has a catalog for.
pub open spec fn default_tag() -> Seq<char> {
    "en"@
}

/// The characters that end the language of a preference: `-` before a
/// region or script, `;` before a weight.
pub open spec fn subtag_marks() -> Seq<char> {
    seq!['-', ';']
}

/// The character between the preferences of a list.
pub open spec fn list_marks() -> Seq<char> {
    seq![',']
}

/// The language of one preference: what stands before its first `-` or
/// `;`, or all of it where it holds neither.
pub open spec fn language_of(preference: Seq<char>) -> Seq<char> {
    split(preference, subtag_marks())[0]
}

/// The languages that a preference list names, in the order of the list.
pub open spec fn candidates(preferences: Seq<char>) -> Seq<Seq<char>> {
    split(preferences, list_marks()).map_values(|p: Seq<char>| language_of(p))
}

/// The first of `candidates` that is one of `tags`.
pub open spec fn first_supported(candidates: Seq<Seq<char>>, tags: Seq<Seq<char>>) -> Option<
    Seq<char>,
>
    decreases candidates.len(),
{
    if candidates.len() == 0 {
        None
    } else if tags.contains(candidates[0]) {
        Some(candidates[0])
    } else {
        first_supported(candidates.drop_first(), tags)
    }
}

/// The preference list of a request: the one it states, or the default
/// tag alone.
pub open spec fn stated(raw_preference: Option<Seq<char>>) -> Seq<char> {
    match raw_preference {
        Some(p) => p,
        None => default_tag(),
    }
}

/// The locale tag that a request resolves to: the first language of its
/// preferences that the application has a catalog for, and the default
/// where there is none. A request without preferences is taken to ask for
/// the default.
pub open spec fn chosen_tag(raw_preference: Option<Seq<char>>, tags: Seq<Seq<char>>) -> Seq<char> {
    match first_supported(candidates(stated(raw_preference)), tags) {
        Some(tag) => tag,
        None => default_tag(),
    }
}

/// The outcome of a negotiation over the locale tags `tags`: the index of
/// the first entry that carries the chosen tag, or, where no entry does,
/// the tag that is missing.
pub open spec fn negotiate_spec(raw_preference: Option<Seq<char>>, tags: Seq<Seq<char>>) -> Result<
    int,
    Seq<char>,
> {
    let tag = chosen_tag(raw_preference, tags);
    match tags.index_of_first(tag) {
        Some(k) => Ok(k),
        None => Err(tag),
    }
}

/// The locale tags of a table, in the order of its entries.
pub open spec fn tags_of(table: Seq<(&'static str, Catalog)>) -> Seq<Seq<char>> {
    Seq::new(table.len(), |i: int| table[i].0@)
}

/// The text of a preference, where there is one.
pub open spec fn preference_view(raw_preference: Option<&str>) -> Option<Seq<char>> {
    match raw_preference {
        Some(p) => Some(p@),
        None => None,
    }
}

/// The first supported candidate, where there is one, is a tag of the
/// table.
pub proof fn lemma_first_supported(candidates: Seq<Seq<char>>, tags: Seq<Seq<char>>)
    ensures
        first_supported(candidates, tags) matches Some(tag) ==> tags.contains(tag)
            && candidates.contains(tag),
        first_supported(candidates, tags).is_none() ==> forall|i: int|
            0 <= i < candidates.len() ==> !tags.contains(#[trigger] candidates[i]),
    decreases candidates.len(),
{
    if candidates.len() == 0 {
    } else if tags.contains(candidates[0]) {
    } else {
        let later = candidates.drop_first();
        lemma_first_supported(later, tags);
        match first_supported(later, tags) {
            Some(tag) => {
                let i = choose|i: int| 0 <= i < later.len() && later[i] == tag;
                assert(candidates[i + 1] == tag);
            },
            None => {
                assert forall|i: int| 0 <= i < candidates.len() implies !tags.contains(
                    #[trigger] candidates[i],
                ) by {
                    if i > 0 {
                        assert(candidates[i] == later[i - 1]);
                    }
                }
            },
        }
    }
}

/// A request is served from the first entry that carries the tag it
/// resolves to.
pub proof fn lemma_served_entry(raw_preference: Option<Seq<char>>, tags: Seq<Seq<char>>)
    ensures
        negotiate_spec(raw_preference, tags) matches Ok(k) ==> 0 <= k < tags.len() && tags[k]
            == chosen_tag(raw_preference, tags) && forall|j: int|
            0 <= j < k ==> tags[j] != chosen_tag(raw_preference, tags),
{
    tags.index_of_first_ensures(chosen_tag(raw_preference, tags));
}

/// Negotiation fails only for want of the default locale: the tag that
/// the error names is the default, and the table has no entry for it.
pub proof fn lemma_only_default_is_missed(raw_preference: Option<Seq<char>>, tags: Seq<Seq<char>>)
    ensures
        negotiate_spec(raw_preference, tags) matches Err(tag) ==> tag == default_tag()
            && !tags.contains(default_tag()),
        tags.contains(default_tag()) ==> negotiate_spec(raw_preference, tags).is_ok(),
{
    let tag = chosen_tag(raw_preference, tags);
    tags.index_of_first_ensures(tag);
    lemma_first_supported(candidates(stated(raw_preference)), tags);
}

/// Whether `a` and `b` hold the same characters.
fn same_chars(a: &Vec<char>, b: &Vec<char>) -> (same: bool)
    ensures
        same == (a@ == b@),
{
    if a.len() != b.len() {
        return false;
    }
    let mut i: usize = 0;
    while i < a.len()
        invariant
            i <= a.len(),
            a.len() == b.len(),
            a@.take(i as int) == b@.take(i as int),
        decreases a.len() - i,
    {
        if a[i] != b[i] {
            return false;
        }
        proof {
            assert(a@.take(i + 1) == a@.take(i as int).push(a@[i as int]));
            assert(b@.take(i + 1) == b@.take(i as int).push(b@[i as int]));
        }
        i = i + 1;
    }
    proof {
        assert(a@.take(i as int) == a@);
        assert(b@.take(i as int) == b@);
    }
    true
}

/// The index of the first of `tags` that equals `tag`.
fn find_tag(tags: &Vec<Vec<char>>, tag: &Vec<char>) -> (found: Option<usize>)
    ensures
        found matches Some(k) ==> k < tags@.len() && views(tags@).index_of_first(tag@) == Some(
            k as int,
        ),
        found.is_none() ==> views(tags@).index_of_first(tag@).is_none(),
{
    let mut i: usize = 0;
    while i < tags.len()
        invariant
            i <= tags.len(),
            forall|j: int| 0 <= j < i ==> views(tags@)[j] != tag@,
        decreases tags.len() - i,
    {
        if same_chars(&tags[i], tag) {
            proof {
                assert(views(tags@)[i as int] == tag@);
                views(tags@).index_of_first_ensures(tag@);
            }
            return Some(i);
        }
        i = i + 1;
    }
    proof {
        views(tags@).index_of_first_ensures(tag@);
    }
    None
}

/// The characters of each locale tag of `table`.
fn tag_chars(table: &Translations) -> (tags: Vec<Vec<char>>)
    ensures
        tags@.len() == table@.len(),
        views(tags@) == tags_of(table@),
{
    let mut tags: Vec<Vec<char>> = Vec::new();
    let mut i: usize = 0;
    while i < table.len()
        invariant
            i <= table.len(),
            tags@.len() == i,
            views(tags@) == tags_of(table@).take(i as int),
        decreases table.len() - i,
    {
        let tag = chars_of(table[i].0);
        proof {
            assert(views(tags@.push(tag)) == views(tags@).push(tag@));
            assert(tags_of(table@).take(i + 1) == tags_of(table@).take(i as int).push(tag@));
        }
        tags.push(tag);
        i = i + 1;
    }
    proof {
        assert(tags_of(table@).take(i as int) == tags_of(table@));
    }
    tags
}

/// What stands in `preference` before its first `-` or `;`.
fn leading_language(preference: &Vec<char>) -> (language: Vec<char>)
    ensures
        language@ == language_of(preference@),
{
    let mut language: Vec<char> = Vec::new();
    let mut i: usize = 0;
    while i < preference.len() && preference[i] != '-' && preference[i] != ';'
        invariant
            i <= preference.len(),
            language@ == preference@.take(i as int),
            forall|j: int| 0 <= j < i ==> !subtag_marks().contains(#[trigger] preference@[j]),
        decreases preference.len() - i,
    {
        proof {
            let c = preference@[i as int];
            assert forall|k: int| 0 <= k < subtag_marks().len() implies subtag_marks()[k] != c by {}
        }
        language.push(preference[i]);
        i = i + 1;
    }
    proof {
        if i < preference.len() {
            let c = preference@[i as int];
            if c == '-' {
                assert(subtag_marks()[0] == c);
            } else {
                assert(subtag_marks()[1] == c);
            }
        } else {
            assert(preference@.take(i as int) == preference@);
        }
        lemma_first_sep_at(preference@, subtag_marks(), i as int);
    }
    language
}

/// Chooses the catalog that serves a request.
///
/// `raw_preference` is what the client sent as its list of preferred
/// languages, if it sent one; without one it is taken to prefer the
/// default, `en`. The list is cut at its commas, and of each preference
/// only the language counts: what stands before the first `-` or `;`.
/// Order alone ranks the preferences. The request is served from the first
/// entry of `table` that carries the first of these languages that the
/// table has at all, and from the first entry for the default where the
/// table has none of them. Tags are compared as they are written.
///
/// Fails where the table has neither: then even the default locale is
/// missing, and the error names it.
pub fn negotiate(raw_preference: Option<&str>, table: &Translations) -> (r: Result<
    I18n,
    MissingTranslationsError,
>)
    ensures
        match negotiate_spec(preference_view(raw_preference), tags_of(table@)) {
            Ok(k) => r matches Ok(found) && found.lang == table@[k].0 && found.catalog
                == table@[k].1,
            Err(tag) => r matches Err(e) && e@ == tag,
        },
{
    let preferences = match raw_preference {
        Some(p) => p,
        None => "en",
    };
    let chars = chars_of(preferences);
    let commas: Vec<char> = vec![','];
    let tokens = split_chars(&chars, &commas);
    let tags = tag_chars(table);
    let ghost all = candidates(preferences@);
    let mut i: usize = 0;
    proof {
        assert(commas@ == list_marks());
        assert(all.skip(0) == all);
    }
    while i < tokens.len()
        invariant
            i <= tokens.len(),
            views(tokens@) == split(preferences@, list_marks()),
            all == candidates(preferences@),
            preferences@ == stated(preference_view(raw_preference)),
            views(tags@) == tags_of(table@),
            tags@.len() == table@.len(),
            first_supported(all, tags_of(table@)) == first_supported(
                all.skip(i as int),
                tags_of(table@),
            ),
        decreases tokens.len() - i,
    {
        let language = leading_language(&tokens[i]);
        proof {
            assert(all.skip(i as int)[0] == language@);
            assert(all.skip(i as int).drop_first() == all.skip(i + 1));
            tags_of(table@).index_of_first_ensures(language@);
        }
        match find_tag(&tags, &language) {
            Some(k) => {
                assert(tags_of(table@).contains(language@));
                assert(chosen_tag(preference_view(raw_preference), tags_of(table@)) == language@);
                return Ok(I18n { catalog: table[k].1.clone(), lang: table[k].0 });
            },
            None => {},
        }
        i = i + 1;
    }
    assert(chosen_tag(preference_view(raw_preference), tags_of(table@)) == default_tag());
    let fallback = chars_of("en");
    match find_tag(&tags, &fallback) {
        Some(k) => Ok(I18n { catalog: table[k].1.clone(), lang: table[k].0 }),
        None => Err(MissingTranslationsError::new(string_of(&fallback))),
    }
}

impl I18n {
    /// Gives a request its translations.
    ///
    /// `langs` is the table that the application holds, if it holds one,
    /// and `accept_language` is what the request states as its preferred
    /// languages, if it states any. Without a table the request fails with
    /// `MissingState`; with one, the outcome is that of `negotiate`.
    pub fn from_request(langs: Option<&Translations>, accept_language: Option<&str>) -> (r: Result<
        I18n,
        RequestError,
    >)
        ensures
            langs.is_none() ==> r matches Err(RequestError::MissingState(_)),
            langs matches Some(table) ==> match negotiate_spec(
                preference_view(accept_language),
                tags_of(table@),
            ) {
                Ok(k) => r matches Ok(found) && found.lang == table@[k].0 && found.catalog
                    == table@[k].1,
                Err(tag) => r matches Err(RequestError::MissingTranslations(e)) && e@ == tag,
            },
    {
        match langs {
            None => Err(RequestError::MissingState(MissingStateError)),
            Some(table) => match negotiate(accept_language, table) {
                Ok(found) => Ok(found),
                Err(e) => Err(RequestError::MissingTranslations(e)),
            },
        }
    }
}

} // verus!
