//! The metadata record stored beside each blob, and the filter that lists them.
use vstd::prelude::*;

verus! {

/// What the store keeps about one document.
///
/// `user_data` holds the annotations as key/value pairs, in the order given.
#[derive(Clone, Debug)]
pub struct DocumentMetadata {
    pub path: String,
    pub hash: String,
    pub creation_date: i64,
    pub tags: Vec<String>,
    pub user_data: Vec<(String, String)>,
}

/// The mathematical value of a metadata record.
pub struct MetaView {
    pub path: Seq<char>,
    pub hash: Seq<char>,
    pub creation_date: i64,
    pub tags: Seq<Seq<char>>,
    pub user_data: Seq<(Seq<char>, Seq<char>)>,
}

pub open spec fn strings_view(v: Seq<String>) -> Seq<Seq<char>> {
    v.map_values(|s: String| s@)
}

pub open spec fn pairs_view(v: Seq<(String, String)>) -> Seq<(Seq<char>, Seq<char>)> {
    v.map_values(|p: (String, String)| (p.0@, p.1@))
}

/// The annotation keys of a record, in order.
pub open spec fn annotation_keys(u: Seq<(Seq<char>, Seq<char>)>) -> Seq<Seq<char>> {
    u.map_values(|p: (Seq<char>, Seq<char>)| p.0)
}

impl View for DocumentMetadata {
    type V = MetaView;

    open spec fn view(&self) -> MetaView {
        MetaView {
            path: self.path@,
            hash: self.hash@,
            creation_date: self.creation_date,
            tags: strings_view(self.tags@),
            user_data: pairs_view(self.user_data@),
        }
    }
}

} // verus!
