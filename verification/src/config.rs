//! Site configuration: the base URL and the optional feed settings, as
//! plain data. Loading it from the configuration file is the caller's
//! business.

use vstd::prelude::*;

verus! {

/// The whole site configuration.
#[derive(Debug, Clone, PartialEq)]
pub struct Config {
    pub site_url: String,
    pub rss: Option<RSSConfig>,
}

/// Feed settings, mirroring the channel fields a feed carries.
#[derive(Debug, Clone, PartialEq)]
pub struct RSSConfig {
    pub title: String,
    pub link: String,
    pub description: String,
    pub language: Option<String>,
    pub copyright: Option<String>,
    pub managing_editor: Option<String>,
    pub webmaster: Option<String>,
    pub categories: Option<Vec<Category>>,
    pub ttl: Option<u32>,
    pub image: Option<Image>,
    pub rating: Option<String>,
    pub text_input: Option<TextInput>,
    pub skip_hours: Option<Vec<String>>,
    pub skip_days: Option<Vec<String>>,
}

/// One feed category.
#[derive(Debug, Clone, PartialEq)]
pub struct Category {
    pub name: String,
    pub domain: Option<String>,
}

/// The feed's image.
#[derive(Debug, Clone, PartialEq)]
pub struct Image {
    pub url: String,
    pub title: String,
    pub link: String,
    pub width: Option<String>,
    pub height: Option<String>,
    pub description: Option<String>,
}

/// The feed's text-input box.
#[derive(Debug, Clone, PartialEq)]
pub struct TextInput {
    pub title: String,
    pub description: String,
    pub name: String,
    pub link: String,
}

} // verus!
