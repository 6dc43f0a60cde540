//! The word lists that placeholders draw from.

use crate::requirement::RequirementType;
use vstd::prelude::*;

verus! {

/// One ordered list of candidate words for each category.
#[derive(Debug)]
pub struct CorpusSet {
    pub topics: Vec<String>,
    pub flavours: Vec<String>,
    pub verbs: Vec<String>,
    pub demographics: Vec<String>,
}

/// The words of a list, each as its characters.
pub open spec fn words_of(list: Seq<String>) -> Seq<Seq<char>> {
    list.map_values(|word: String| word@)
}

/// The words of every category, each word as its characters.
pub struct Corpora {
    pub topics: Seq<Seq<char>>,
    pub flavours: Seq<Seq<char>>,
    pub verbs: Seq<Seq<char>>,
    pub demographics: Seq<Seq<char>>,
}

impl Corpora {
    /// The words bound to a category, in their order.
    pub open spec fn words(self, ty: RequirementType) -> Seq<Seq<char>> {
        match ty {
            RequirementType::Noun => self.topics,
            RequirementType::Flavour => self.flavours,
            RequirementType::Verb => self.verbs,
            RequirementType::Demographic => self.demographics,
        }
    }
}

impl View for CorpusSet {
    type V = Corpora;

    open spec fn view(&self) -> Corpora {
        Corpora {
            topics: words_of(self.topics@),
            flavours: words_of(self.flavours@),
            verbs: words_of(self.verbs@),
            demographics: words_of(self.demographics@),
        }
    }
}

impl CorpusSet {
    /// The list bound to a category.
    pub fn corpus(&self, ty: RequirementType) -> (list: &Vec<String>)
        ensures
            words_of(list@) == self@.words(ty),
    {
        match ty {
            RequirementType::Noun => &self.topics,
            RequirementType::Flavour => &self.flavours,
            RequirementType::Verb => &self.verbs,
            RequirementType::Demographic => &self.demographics,
        }
    }
}

} // verus!
