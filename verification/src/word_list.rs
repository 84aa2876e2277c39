//! The vocabulary of a game as the logic code generator consults it: each
//! word group number with the word that stands for it.

use vstd::prelude::*;
use std::collections::HashMap;

verus! {

/// A word group: the word that names it.
#[derive(Debug, Clone)]
pub struct WordListEntry {
    pub canonical_word: String,
}

/// Word groups by number.
#[derive(Debug, Clone)]
pub struct WordList {
    pub words: HashMap<u16, WordListEntry>,
}

impl WordList {
    /// The word naming each group.
    pub open spec fn words_view(&self) -> Map<u16, Seq<char>> {
        self.words@.map_values(|e: WordListEntry| e.canonical_word@)
    }

    /// A word list with no words.
    pub fn new() -> (r: WordList)
        ensures
            r.words@ == Map::<u16, WordListEntry>::empty(),
    {
        WordList { words: HashMap::new() }
    }
}

} // verus!
