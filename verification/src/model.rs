//! The metadata of one reference, as its `info.toml` holds it.
use vstd::prelude::*;

use crate::text::{opt_view, strs_view};

verus! {

/// One reference: the fields of its `info.toml`.
#[derive(Debug)]
pub struct Reference {
    pub title: String,
    pub authors: Vec<String>,
    pub year: Option<u16>,
    pub doi: Option<String>,
    pub arxiv: Option<String>,
    pub journal: Option<String>,
    pub tags: Vec<String>,
    pub files: Vec<String>,
    pub abstract_text: Option<String>,
}

/// The mathematical content of a [`Reference`].
pub struct RefView {
    pub title: Seq<char>,
    pub authors: Seq<Seq<char>>,
    pub year: Option<u16>,
    pub doi: Option<Seq<char>>,
    pub arxiv: Option<Seq<char>>,
    pub journal: Option<Seq<char>>,
    pub tags: Seq<Seq<char>>,
    pub files: Seq<Seq<char>>,
    pub abstract_text: Option<Seq<char>>,
}

impl View for Reference {
    type V = RefView;

    open spec fn view(&self) -> RefView {
        RefView {
            title: self.title@,
            authors: strs_view(self.authors@),
            year: self.year,
            doi: opt_view(self.doi),
            arxiv: opt_view(self.arxiv),
            journal: opt_view(self.journal),
            tags: strs_view(self.tags@),
            files: strs_view(self.files@),
            abstract_text: opt_view(self.abstract_text),
        }
    }
}

impl Reference {
    /// A reference with the given title and every other field empty.
    pub fn with_title(title: String) -> (r: Reference)
        ensures
            r@.title == title@,
            r@.authors.len() == 0,
            r@.year is None,
            r@.doi is None,
            r@.arxiv is None,
            r@.journal is None,
            r@.tags.len() == 0,
            r@.files.len() == 0,
            r@.abstract_text is None,
    {
        let r = Reference {
            title,
            authors: Vec::new(),
            year: None,
            doi: None,
            arxiv: None,
            journal: None,
            tags: Vec::new(),
            files: Vec::new(),
            abstract_text: None,
        };
        assert(strs_view(r.authors@) =~= Seq::empty());
        assert(strs_view(r.tags@) =~= Seq::empty());
        assert(strs_view(r.files@) =~= Seq::empty());
        r
    }
}

} // verus!
