//! Internationalization for web applications: picks, for each request, the
//! message catalog of the locale that the client prefers, and fills the
//! placeholders of translated messages.
//!
//! [`negotiation::negotiate`] matches the languages that a request prefers
//! against the catalogs that the application has loaded.
//! [`template::format`] puts arguments in the place of the `{0}`, `{1}`, ...
//! of a translated pattern. Both are verified against a mathematical
//! description of their result.

use vstd::prelude::*;

pub mod catalog;
pub mod error;
pub mod negotiation;
pub mod template;
pub mod text;

pub use crate::catalog::catalog_path;
pub use crate::error::{MissingStateError, MissingTranslationsError, RequestError};
pub use crate::negotiation::{negotiate, I18n, Translations};
pub use crate::template::FormatError;
pub use gettext::Catalog;
