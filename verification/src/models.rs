use vstd::prelude::*;

verus! {

/// One captured HTTP transaction, read back from the `history` table.
/// Records are created by an external capture pipeline and never mutated
/// here; this core only reads them.
#[derive(Clone, Debug)]
pub struct HistoryEntry {
    pub id: i64,
    pub remote_addr: String,
    pub uri: String,
    pub method: String,
    pub params: bool,
    pub status: i64,
    pub size: i64,
    pub timestamp: String,
    pub raw: Vec<u8>,
    pub ssl: bool,
    pub response: Vec<u8>,
    pub response_time: String,
    pub content_length: i64,
}

/// One manually inspected or modified traffic item, read back from the
/// `inspectors` table.
#[derive(Default, Debug)]
pub struct InspectorEntry {
    pub id: usize,
    pub request: String,
    pub response: String,
    pub modified_request: String,
    pub new_response: String,
    pub ssl: bool,
    pub target: String,
}

/// The sort direction of an identifier-ordered listing; no other sort keys
/// are supported.
#[derive(Clone, Copy, Debug, PartialEq, Eq, Structural)]
pub enum OrderByEnum {
    Desc,
    Asc,
}

/// True exactly for the descending direction.
pub open spec fn is_desc(o: OrderByEnum) -> bool {
    o == OrderByEnum::Desc
}

impl OrderByEnum {
    /// The SQL keyword selecting this ordering.
    pub fn to_string(self) -> (r: String)
        ensures
            is_desc(self) ==> r@ == "DESC"@,
            !is_desc(self) ==> r@ == "ASC"@,
    {
        match self {
            OrderByEnum::Desc => "DESC".to_owned(),
            OrderByEnum::Asc => "ASC".to_owned(),
        }
    }
}

} // verus!
