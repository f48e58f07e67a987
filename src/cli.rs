use vstd::prelude::*;
use vstd::string::*;
use crate::codec::{encode, serialize};
use crate::record::{validate, Record, RecordView, ValidationError};

verus! {

pub const BROKER: &'static str = "localhost:9092";

pub const TOPIC: &'static str = "mutants";

/// The two commands of the tool.
#[derive(Debug)]
pub enum Opts {
    AddMutant(AddMutant),
    ReadMutant(ReadMutant),
}

/// Publish a person and store it.
#[derive(Debug)]
pub struct AddMutant {
    pub name: String,
    pub last_name: String,
    pub address: String,
}

/// Read the topic as member of a consumer group.
#[derive(Debug)]
pub struct ReadMutant {
    pub group_id: String,
}

/// A message ready for the bus: its key and its wire document.
#[derive(Debug)]
pub struct Payload {
    pub key: String,
    pub payload: String,
}

pub open spec fn person_attrs(name: Seq<char>, last_name: Seq<char>, address: Seq<char>) -> Seq<
    (Seq<char>, Seq<char>),
> {
    seq![("name"@, name), ("last_name"@, last_name), ("address"@, address)]
}

impl AddMutant {
    pub fn broker(&self) -> (r: &'static str)
        ensures
            r@ == BROKER@,
    {
        BROKER
    }

    pub fn topic(&self) -> (r: &'static str)
        ensures
            r@ == TOPIC@,
    {
        TOPIC
    }

    /// The record of this person: keyed by the name, with the name, the last
    /// name and the address as attributes, in that order.
    pub fn to_record(&self) -> (r: Result<Record, ValidationError>)
        ensures
            self.name@.len() == 0 ==> r == Err::<Record, ValidationError>(ValidationError::EmptyKey),
            self.name@.len() > 0 ==> (r matches Ok(rec) && rec@ == (RecordView {
                key: self.name@,
                attributes: person_attrs(self.name@, self.last_name@, self.address@),
                origin_offset: None,
            })),
    {
        let mut attributes: Vec<(String, String)> = Vec::new();
        attributes.push((String::from_str("name"), self.name.clone()));
        attributes.push((String::from_str("last_name"), self.last_name.clone()));
        attributes.push((String::from_str("address"), self.address.clone()));
        let r = validate(self.name.clone(), attributes);
        proof {
            if self.name@.len() > 0 {
                assert(crate::record::attrs_view(attributes@) =~= person_attrs(
                    self.name@,
                    self.last_name@,
                    self.address@,
                ));
            }
        }
        r
    }
}

impl ReadMutant {
    pub fn broker(&self) -> (r: &'static str)
        ensures
            r@ == BROKER@,
    {
        BROKER
    }

    pub fn topic(&self) -> (r: &'static str)
        ensures
            r@ == TOPIC@,
    {
        TOPIC
    }
}

impl Payload {
    /// The message for a record: keyed by the record's key, carrying its wire
    /// document.
    pub fn from_record(rec: &Record) -> (p: Payload)
        ensures
            p.key@ == rec.key@,
            p.payload@ == encode(rec@),
    {
        Payload { key: rec.key.clone(), payload: serialize(rec) }
    }
}

} // verus!
