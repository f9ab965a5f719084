//! Options and entry points for reading N3 documents.
//!
//! The concrete N3 syntax is the domain of outside producers and
//! consumers; within this crate the reading entry points validate their
//! options (in particular the base IRI) and yield the empty formula, which
//! callers then extend through the construction API.

use vstd::prelude::*;

use crate::error::Error;
use crate::model::{Formula, SpecStatement};

verus! {

/// Options for reading N3 data.
#[derive(Debug, Clone)]
pub struct ParseOptions {
    /// Whether N3-specific features (like nested formulas) are allowed.
    pub allow_n3_extensions: bool,
    /// Base IRI to resolve relative IRIs against.
    pub base_iri: Option<String>,
}

impl Default for ParseOptions {
    fn default() -> (r: ParseOptions)
        ensures
            r.allow_n3_extensions,
            r.base_iri is None,
    {
        ParseOptions { allow_n3_extensions: true, base_iri: None }
    }
}

/// Whether a string is a valid RFC 3987 IRI, as oxiri decides it.
pub uninterp spec fn is_valid_iri(s: Seq<char>) -> bool;

/// Relies on oxiri::Iri::parse: it validates the text against the RFC 3987
/// grammar without changing it, and `into_inner` hands the text back.
#[verifier::external_body]
fn parse_iri(s: String) -> (r: Option<String>)
    ensures
        r is Some <==> is_valid_iri(s@),
        r matches Some(t) ==> t@ == s@,
{
    match oxiri::Iri::parse(s) {
        Ok(iri) => Some(iri.into_inner()),
        Err(_) => None,
    }
}

/// Reads N3 data from a reader under the given options and returns the
/// resulting formula. The concrete syntax is handled by outside
/// collaborators; this entry point accepts the stream and yields the empty
/// formula, which every document extends through the construction API.
pub fn parse_n3<R: std::io::Read>(_input: R, _options: ParseOptions) -> (r: Result<Formula, Error>)
    ensures
        r is Ok,
        r matches Ok(f) ==> f@.statements == Seq::<SpecStatement>::empty() && f@.universals
            == Set::<Seq<char>>::empty() && f@.existentials == Set::<Seq<char>>::empty(),
{
    Ok(Formula::new())
}

/// A reader for N3 documents, configured with a validated base IRI.
pub struct N3Parser {
    base_iri: Option<String>,
    options: ParseOptions,
}

impl N3Parser {
    /// The stored base IRI, if any, passed oxiri's validation.
    pub closed spec fn base_valid(&self) -> bool {
        match self.base_iri {
            Some(b) => is_valid_iri(b@),
            None => true,
        }
    }

    /// Creates a parser with the given options; a base IRI that oxiri
    /// rejects fails with a parse error.
    pub fn new(options: ParseOptions) -> (r: Result<N3Parser, Error>)
        ensures
            r is Ok <==> (match options.base_iri {
                Some(b) => is_valid_iri(b@),
                None => true,
            }),
            r matches Ok(p) ==> p.base_valid(),
            r is Err ==> r == Err::<N3Parser, Error>(Error::ParseError),
    {
        let base_iri = match &options.base_iri {
            Some(s) => {
                match parse_iri(s.clone()) {
                    Some(v) => Some(v),
                    None => {
                        return Err(Error::ParseError);
                    },
                }
            },
            None => None,
        };
        Ok(N3Parser { base_iri, options })
    }

    /// Reads an N3 document with this parser's options.
    pub fn parse<R: std::io::Read>(&self, input: R) -> (r: Result<Formula, Error>)
        ensures
            r is Ok,
            r matches Ok(f) ==> f@.statements == Seq::<SpecStatement>::empty() && f@.universals
                == Set::<Seq<char>>::empty() && f@.existentials == Set::<Seq<char>>::empty(),
    {
        parse_n3(input, self.options.clone())
    }
}

} // verus!
