use vstd::prelude::*;
use vstd::string::*;

verus! {

/// One ingestion event: a key, its attributes in insertion order, and the
/// position the bus gave it once published.
#[derive(Debug)]
pub struct Record {
    pub key: String,
    pub attributes: Vec<(String, String)>,
    pub origin_offset: Option<u64>,
}

pub struct RecordView {
    pub key: Seq<char>,
    pub attributes: Seq<(Seq<char>, Seq<char>)>,
    pub origin_offset: Option<u64>,
}

pub open spec fn attrs_view(a: Seq<(String, String)>) -> Seq<(Seq<char>, Seq<char>)> {
    a.map_values(|p: (String, String)| (p.0@, p.1@))
}

impl View for Record {
    type V = RecordView;

    open spec fn view(&self) -> RecordView {
        RecordView {
            key: self.key@,
            attributes: attrs_view(self.attributes@),
            origin_offset: self.origin_offset,
        }
    }
}

impl RecordView {
    /// A record may travel: its key and its attributes are non-empty.
    pub open spec fn valid(self) -> bool {
        self.key.len() > 0 && self.attributes.len() > 0
    }
}

#[derive(Debug, Clone, Copy, PartialEq, Eq, Structural)]
pub enum ValidationError {
    EmptyKey,
    EmptyAttributes,
}

/// Builds a record from raw fields, refusing an empty key or an empty
/// attribute list. The record has not been published yet.
pub fn validate(key: String, attributes: Vec<(String, String)>) -> (r: Result<Record, ValidationError>)
    ensures
        key@.len() == 0 ==> r == Err::<Record, ValidationError>(ValidationError::EmptyKey),
        key@.len() > 0 && attributes@.len() == 0 ==> r == Err::<Record, ValidationError>(
            ValidationError::EmptyAttributes,
        ),
        key@.len() > 0 && attributes@.len() > 0 ==> (r matches Ok(rec) && rec@ == (RecordView {
            key: key@,
            attributes: attrs_view(attributes@),
            origin_offset: None,
        })),
{
    if key.as_str().is_empty() {
        return Err(ValidationError::EmptyKey);
    }
    if attributes.len() == 0 {
        return Err(ValidationError::EmptyAttributes);
    }
    Ok(Record { key, attributes, origin_offset: None })
}

} // verus!
