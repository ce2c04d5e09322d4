//! Cross-document metadata records: what one processed source
//! contributes to the site-wide article index.

use vstd::prelude::*;

verus! {

/// What a processed file contributes to the shared article collection.
/// The last-modified stamp is carried as its RFC 3339 text, so that the
/// record is plain data; the caller formats the file time it read.
#[derive(Debug, PartialEq, Eq, Clone)]
pub enum Metadata {
    Article {
        title: String,
        description: Option<String>,
        author: Option<String>,
        tags: Vec<String>,
        modified: String,
        url: String,
    },
    Image { url: String },
}

/// Mathematical image of [`Metadata`].
#[verifier::ext_equal]
pub enum MetadataV {
    Article {
        title: Seq<char>,
        description: Option<Seq<char>>,
        author: Option<Seq<char>>,
        tags: Seq<Seq<char>>,
        modified: Seq<char>,
        url: Seq<char>,
    },
    Image { url: Seq<char> },
}

impl View for Metadata {
    type V = MetadataV;

    open spec fn view(&self) -> MetadataV {
        match self {
            Metadata::Article { title, description, author, tags, modified, url } => {
                MetadataV::Article {
                    title: title@,
                    description: description.deep_view(),
                    author: author.deep_view(),
                    tags: tags.deep_view(),
                    modified: modified@,
                    url: url@,
                }
            },
            Metadata::Image { url } => MetadataV::Image { url: url@ },
        }
    }
}

impl DeepView for Metadata {
    type V = MetadataV;

    open spec fn deep_view(&self) -> MetadataV {
        self@
    }
}

} // verus!
