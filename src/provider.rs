//! Repository definitions and their conversion into providers.

use vstd::prelude::*;
use crate::text::{is_prefix, same_text, starts_with};

verus! {

/// A raw repository definition as listed by the definition directory.
///
/// Any of its parts may be missing or malformed; such a definition is
/// rejected on conversion.
#[derive(Clone, Debug)]
pub struct RepositoryDefinition {
    /// The name of the repository, its identity.
    pub name: String,
    /// The declared kind of the repository.
    pub kind: String,
    /// Repository-specific settings as key and value.
    pub properties: Vec<(String, String)>,
}

/// The kinds of repository that can be queried.
#[derive(Clone, Copy, Debug, PartialEq, Eq, Structural)]
pub enum RepositoryKind {
    /// A repository that publishes its package index over HTTP.
    Stackable,
}

/// Why a definition could not be turned into a provider.
#[derive(Clone, Copy, Debug, PartialEq, Eq, Structural)]
pub enum ConversionError {
    /// The definition has an empty name.
    MissingName,
    /// The declared kind is not one that can be queried.
    UnsupportedKind,
    /// No `url` property is given.
    MissingUrl,
    /// The `url` property is not an `http://` or `https://` endpoint.
    InvalidUrl,
}

/// A validated, queryable handle to one repository.
#[derive(Debug)]
pub struct RepositoryProvider {
    name: String,
    kind: RepositoryKind,
    base_url: String,
}

/// The kind name under which a definition declares a Stackable repository.
pub open spec fn stackable_kind_name() -> Seq<char> {
    seq!['S', 't', 'a', 'c', 'k', 'a', 'b', 'l', 'e', 'R', 'e', 'p', 'o']
}

/// The property that holds a repository's endpoint.
pub open spec fn url_key() -> Seq<char> {
    seq!['u', 'r', 'l']
}

pub open spec fn http_scheme() -> Seq<char> {
    seq!['h', 't', 't', 'p', ':', '/', '/']
}

pub open spec fn https_scheme() -> Seq<char> {
    seq!['h', 't', 't', 'p', 's', ':', '/', '/']
}

/// An endpoint is an `http://` or `https://` scheme followed by at least one character.
pub open spec fn is_endpoint(u: Seq<char>) -> bool {
    (is_prefix(http_scheme(), u) && u.len() > http_scheme().len())
        || (is_prefix(https_scheme(), u) && u.len() > https_scheme().len())
}

/// The value of the first property named `key`, if any.
pub open spec fn property(props: Seq<(String, String)>, key: Seq<char>) -> Option<Seq<char>>
    decreases props.len(),
{
    if props.len() == 0 {
        None
    } else if props[0].0@ == key {
        Some(props[0].1@)
    } else {
        property(props.drop_first(), key)
    }
}

/// The abstract value of a provider: its name, kind and endpoint.
pub struct ProviderView {
    pub name: Seq<char>,
    pub kind: RepositoryKind,
    pub base_url: Seq<char>,
}

impl View for RepositoryProvider {
    type V = ProviderView;

    closed spec fn view(&self) -> ProviderView {
        ProviderView { name: self.name@, kind: self.kind, base_url: self.base_url@ }
    }
}

/// What converting a definition yields.
pub open spec fn conversion(d: RepositoryDefinition) -> Result<ProviderView, ConversionError> {
    if d.name@.len() == 0 {
        Err(ConversionError::MissingName)
    } else if d.kind@ != stackable_kind_name() {
        Err(ConversionError::UnsupportedKind)
    } else {
        match property(d.properties@, url_key()) {
            None => Err(ConversionError::MissingUrl),
            Some(u) => if is_endpoint(u) {
                Ok(ProviderView { name: d.name@, kind: RepositoryKind::Stackable, base_url: u })
            } else {
                Err(ConversionError::InvalidUrl)
            },
        }
    }
}

/// Finds the first property named `key`.
fn find_property<'a>(props: &'a Vec<(String, String)>, key: &str) -> (r: Option<&'a String>)
    ensures
        match r {
            Some(v) => property(props@, key@) == Some(v@),
            None => property(props@, key@) is None,
        },
{
    let mut i: usize = 0;
    assert(props@.skip(0) =~= props@);
    while i < props.len()
        invariant
            i <= props@.len(),
            property(props@, key@) == property(props@.skip(i as int), key@),
        decreases props@.len() - i,
    {
        assert(props@.skip(i as int).drop_first() =~= props@.skip(i + 1));
        if same_text(props[i].0.as_str(), key) {
            return Some(&props[i].1);
        }
        i = i + 1;
    }
    None
}

fn check_endpoint(u: &str) -> (r: bool)
    ensures
        r == is_endpoint(u@),
{
    proof {
        reveal_strlit("http://");
        reveal_strlit("https://");
        assert("http://"@ =~= http_scheme());
        assert("https://"@ =~= https_scheme());
    }
    let n = u.unicode_len();
    (starts_with(u, "http://") && n > 7) || (starts_with(u, "https://") && n > 8)
}

impl RepositoryProvider {
    /// Validates a definition and builds the provider for it.
    pub fn try_from_definition(d: &RepositoryDefinition) -> (r: Result<RepositoryProvider, ConversionError>)
        ensures
            match r {
                Ok(p) => conversion(*d) == Ok::<ProviderView, ConversionError>(p@),
                Err(e) => conversion(*d) == Err::<ProviderView, ConversionError>(e),
            },
    {
        proof {
            reveal_strlit("StackableRepo");
            reveal_strlit("url");
            assert("StackableRepo"@ =~= stackable_kind_name());
            assert("url"@ =~= url_key());
        }
        if d.name.as_str().unicode_len() == 0 {
            return Err(ConversionError::MissingName);
        }
        if !same_text(d.kind.as_str(), "StackableRepo") {
            return Err(ConversionError::UnsupportedKind);
        }
        match find_property(&d.properties, "url") {
            None => Err(ConversionError::MissingUrl),
            Some(u) => {
                if check_endpoint(u.as_str()) {
                    Ok(RepositoryProvider {
                        name: d.name.clone(),
                        kind: RepositoryKind::Stackable,
                        base_url: u.clone(),
                    })
                } else {
                    Err(ConversionError::InvalidUrl)
                }
            },
        }
    }

    /// The repository's name.
    pub fn name(&self) -> (r: &String)
        ensures
            r@ == self@.name,
    {
        &self.name
    }

    /// The repository's kind.
    pub fn kind(&self) -> (r: RepositoryKind)
        ensures
            r == self@.kind,
    {
        self.kind
    }

    /// The endpoint under which the repository publishes its package index.
    pub fn base_url(&self) -> (r: &String)
        ensures
            r@ == self@.base_url,
    {
        &self.base_url
    }
}

/// Converts a definition into a provider, or into nothing where it is invalid.
pub fn convert_to_repo_provider(d: &RepositoryDefinition) -> (r: Option<RepositoryProvider>)
    ensures
        match r {
            Some(p) => conversion(*d) == Ok::<ProviderView, ConversionError>(p@),
            None => conversion(*d) is Err,
        },
{
    match RepositoryProvider::try_from_definition(d) {
        Ok(p) => Some(p),
        Err(_) => None,
    }
}

} // verus!
