//! The records of the catalogue: an application page's metadata, and the
//! application as this store reads it.
use std::collections::HashMap;
use vstd::prelude::*;

verus! {

/// The metadata of an application page of the AppImage catalogue (its
/// YAML front matter); every field may be missing.
pub struct App {
    pub published: Option<bool>,
    pub layout: Option<String>,
    pub created: Option<String>,
    pub updated: Option<String>,
    pub description: Option<String>,
    pub license: Option<String>,
    pub authors: Option<Vec<Author>>,
    pub icons: Option<Vec<String>>,
    pub screenshots: Option<Vec<String>>,
}

/// An author named on an application page.
pub struct Author {
    pub name: Option<String>,
    pub url: Option<String>,
}

/// Where the AppImage of an application comes from.
pub enum Url {
    /// A direct download of the aarch64 AppImage.
    Aarch64(String),
    /// A direct download of the x86_64 AppImage.
    X86_64(String),
    /// The GitHub releases API endpoint whose assets hold the AppImages.
    GitHubReleases(String),
}

/// An application read from the catalogue, ready to enter the store.
pub struct ParsedApp {
    pub name: String,
    pub description: String,
    pub license: String,
    pub authors: Vec<Author>,
    pub screenshots: Vec<String>,
    /// The images: the icon under 0, the screenshots under 1 to 5.
    pub resources: HashMap<u8, Vec<u8>>,
    pub url: Url,
}

} // verus!
