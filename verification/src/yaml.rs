//! What the library reads of a YAML document: the texts and the tables of
//! texts under the keys of its mapping.

use crate::text::{opt_text, text_is};
use vstd::prelude::*;

verus! {

/// A value in a document: its text if it is a string, and its entries if it
/// is a mapping, each key and each value by its text.
pub struct Node {
    pub text: Option<String>,
    pub table: Option<Vec<(Option<String>, Option<String>)>>,
}

/// The model of a value.
pub struct NodeView {
    pub text: Option<Seq<char>>,
    pub table: Option<Seq<(Option<Seq<char>>, Option<Seq<char>>)>>,
}

/// A document: the entries of its mapping, if it is one, each key by its text.
pub struct Document {
    pub entries: Option<Vec<(Option<String>, Node)>>,
}

/// The model of a document.
pub struct DocumentView {
    pub entries: Option<Seq<(Option<Seq<char>>, NodeView)>>,
}

/// The model of a table of texts.
pub open spec fn table_view(
    table: Seq<(Option<String>, Option<String>)>,
) -> Seq<(Option<Seq<char>>, Option<Seq<char>>)> {
    table.map_values(|e: (Option<String>, Option<String>)| (opt_text(e.0), opt_text(e.1)))
}

impl View for Node {
    type V = NodeView;

    open spec fn view(&self) -> NodeView {
        NodeView {
            text: opt_text(self.text),
            table: match self.table {
                Some(t) => Some(table_view(t@)),
                None => None,
            },
        }
    }
}

impl View for Document {
    type V = DocumentView;

    open spec fn view(&self) -> DocumentView {
        DocumentView {
            entries: match self.entries {
                Some(e) => Some(
                    e@.map_values(|e: (Option<String>, Node)| (opt_text(e.0), e.1@)),
                ),
                None => None,
            },
        }
    }
}

/// The models of the documents of a text.
pub open spec fn documents_view(docs: Seq<Document>) -> Seq<DocumentView> {
    docs.map_values(|d: Document| d@)
}

/// The value under a key among the entries of a mapping.
pub open spec fn lookup(entries: Seq<(Option<Seq<char>>, NodeView)>, key: Seq<char>) -> Option<
    NodeView,
>
    decreases entries.len(),
{
    if entries.len() == 0 {
        None
    } else if entries[0].0 == Some(key) {
        Some(entries[0].1)
    } else {
        lookup(entries.skip(1), key)
    }
}

impl DocumentView {
    /// The value under a key, if the document is a mapping that has it.
    pub open spec fn at(self, key: Seq<char>) -> Option<NodeView> {
        match self.entries {
            Some(e) => lookup(e, key),
            None => None,
        }
    }

    /// The text under a key, if there is a string.
    pub open spec fn text_at(self, key: Seq<char>) -> Option<Seq<char>> {
        match self.at(key) {
            Some(node) => node.text,
            None => None,
        }
    }

    /// The table under a key, if there is a mapping.
    pub open spec fn table_at(self, key: Seq<char>) -> Option<
        Seq<(Option<Seq<char>>, Option<Seq<char>>)>,
    > {
        match self.at(key) {
            Some(node) => node.table,
            None => None,
        }
    }
}

impl Document {
    /// The value under a key, if the document is a mapping that has it.
    pub fn at(&self, key: &str) -> (node: Option<&Node>)
        ensures
            match node {
                Some(n) => self@.at(key@) == Some(n@),
                None => self@.at(key@) is None,
            },
    {
        match &self.entries {
            None => None,
            Some(entries) => {
                let ghost model = self@.entries->0;
                let mut i: usize = 0;
                assert(model.skip(0) == model);
                while i < entries.len()
                    invariant
                        i <= entries.len(),
                        model == entries@.map_values(
                            |e: (Option<String>, Node)| (opt_text(e.0), e.1@),
                        ),
                        self@.entries == Some(model),
                        lookup(model, key@) == lookup(model.skip(i as int), key@),
                    decreases entries.len() - i,
                {
                    assert(model.skip(i as int).skip(1) == model.skip(i + 1));
                    let entry = &entries[i];
                    if let Some(k) = &entry.0 {
                        if text_is(k, key) {
                            return Some(&entry.1);
                        }
                    }
                    i = i + 1;
                }
                None
            },
        }
    }

    /// The text under a key, if there is a string.
    pub fn text_at(&self, key: &str) -> (text: Option<&String>)
        ensures
            match text {
                Some(t) => self@.text_at(key@) == Some(t@),
                None => self@.text_at(key@) is None,
            },
    {
        match self.at(key) {
            Some(node) => node.text.as_ref(),
            None => None,
        }
    }

    /// The table under a key, if there is a mapping.
    pub fn table_at(&self, key: &str) -> (table: Option<&Vec<(Option<String>, Option<String>)>>)
        ensures
            match table {
                Some(t) => self@.table_at(key@) == Some(table_view(t@)),
                None => self@.table_at(key@) is None,
            },
    {
        match self.at(key) {
            Some(node) => node.table.as_ref(),
            None => None,
        }
    }
}

} // verus!
