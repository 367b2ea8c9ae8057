//! The self-describing envelope of every value kept in the store: a one-byte
//! tag naming the kind of payload, followed by the payload bytes.
use crate::error::ListError;
use vstd::prelude::*;
use vstd::slice::slice_to_vec;

verus! {

/// The kind of payload that a record holds.
#[derive(Clone, Copy, PartialEq, Eq, Structural, Debug, Hash)]
pub enum Tag {
    /// The metadata of a list.
    List,
    /// A table-like structure that shares the store.
    Table,
}

/// The byte that stands for a tag at the front of an encoded record.
pub open spec fn tag_byte(t: Tag) -> u8 {
    match t {
        Tag::List => 1,
        Tag::Table => 2,
    }
}

/// Whether a byte names a tag.
pub open spec fn is_tag_byte(b: u8) -> bool {
    b == 1 || b == 2
}

/// The encoded form of a record: its tag byte, then its payload.
pub open spec fn record_bytes(t: Tag, data: Seq<u8>) -> Seq<u8> {
    seq![tag_byte(t)] + data
}

impl Tag {
    /// The byte that stands for this tag.
    pub fn to_byte(self) -> (r: u8)
        ensures
            r == tag_byte(self),
    {
        match self {
            Tag::List => 1,
            Tag::Table => 2,
        }
    }

    /// The tag that a byte stands for, if any.
    pub fn from_byte(b: u8) -> (r: Option<Tag>)
        ensures
            r is Some <==> is_tag_byte(b),
            r matches Some(t) ==> tag_byte(t) == b,
    {
        if b == 1 {
            Some(Tag::List)
        } else if b == 2 {
            Some(Tag::Table)
        } else {
            None
        }
    }
}

/// A tagged payload.
#[derive(Clone, Debug, PartialEq, Eq)]
pub struct Record {
    pub tag: Tag,
    pub data: Vec<u8>,
}

impl Record {
    /// A record of the given kind holding `data`.
    pub fn from_data(tag: Tag, data: Vec<u8>) -> (r: Record)
        ensures
            r.tag == tag,
            r.data@ == data@,
    {
        Record { tag, data }
    }

    /// The kind of payload.
    pub fn tag(&self) -> (r: Tag)
        ensures
            r == self.tag,
    {
        self.tag
    }

    /// The length of the payload.
    pub fn len(&self) -> (r: usize)
        ensures
            r == self.data@.len(),
    {
        self.data.len()
    }

    /// A copy of the payload.
    pub fn data(&self) -> (r: Vec<u8>)
        ensures
            r@ == self.data@,
    {
        slice_to_vec(self.data.as_slice())
    }

    /// The payload, if the record has the expected kind; `BadType` otherwise.
    pub fn expect(&self, tag: Tag) -> (r: Result<&[u8], ListError>)
        ensures
            self.tag == tag ==> (r matches Ok(p) && p@ == self.data@),
            self.tag != tag ==> r == Err::<&[u8], ListError>(
                ListError::BadType { expected: tag, actual: self.tag },
            ),
    {
        if self.tag == tag {
            Ok(self.data.as_slice())
        } else {
            Err(ListError::BadType { expected: tag, actual: self.tag })
        }
    }

    /// The bytes under which the record is stored.
    pub fn to_bytes(&self) -> (r: Vec<u8>)
        ensures
            r@ == record_bytes(self.tag, self.data@),
    {
        let mut out: Vec<u8> = Vec::new();
        out.push(self.tag.to_byte());
        let mut i: usize = 0;
        while i < self.data.len()
            invariant
                i <= self.data@.len(),
                out@ == seq![tag_byte(self.tag)] + self.data@.take(i as int),
            decreases self.data@.len() - i,
        {
            assert(self.data@.take(i + 1) =~= self.data@.take(i as int).push(self.data@[i as int]));
            out.push(self.data[i]);
            i = i + 1;
        }
        assert(self.data@.take(i as int) =~= self.data@);
        out
    }

    /// The record stored as `bytes`; `None` where they are empty or do not
    /// start with a tag byte.
    pub fn from_bytes(bytes: &[u8]) -> (r: Option<Record>)
        ensures
            r is Some <==> (bytes@.len() > 0 && is_tag_byte(bytes@[0])),
            r matches Some(rec) ==> record_bytes(rec.tag, rec.data@) == bytes@,
    {
        if bytes.len() == 0 {
            return None;
        }
        match Tag::from_byte(bytes[0]) {
            None => None,
            Some(tag) => {
                let mut data: Vec<u8> = Vec::new();
                let mut i: usize = 1;
                while i < bytes.len()
                    invariant
                        1 <= i <= bytes@.len(),
                        data@ == bytes@.subrange(1, i as int),
                    decreases bytes@.len() - i,
                {
                    assert(bytes@.subrange(1, i + 1) =~= bytes@.subrange(1, i as int).push(
                        bytes@[i as int],
                    ));
                    data.push(bytes[i]);
                    i = i + 1;
                }
                assert(record_bytes(tag, data@) =~= bytes@);
                Some(Record { tag, data })
            },
        }
    }
}

/// A stored record reads back as the record that was stored.
pub proof fn lemma_record_round_trip(t: Tag, data: Seq<u8>)
    ensures
        record_bytes(t, data).len() > 0,
        is_tag_byte(record_bytes(t, data)[0]),
        forall|t2: Tag, d2: Seq<u8>|
            record_bytes(t2, d2) == record_bytes(t, data) ==> t2 == t && d2 == data,
{
    assert forall|t2: Tag, d2: Seq<u8>| record_bytes(t2, d2) == record_bytes(t, data) implies t2
        == t && d2 == data by {
        assert(record_bytes(t2, d2)[0] == tag_byte(t2));
        assert(d2 =~= record_bytes(t2, d2).skip(1));
        assert(data =~= record_bytes(t, data).skip(1));
    }
}

} // verus!
