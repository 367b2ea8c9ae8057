//! The metadata of a list: the slot of its first element and its length.
//!
//! The elements of a list with `len > 0` occupy the slots `head ..= head + len - 1`.
//! Pushing and popping only move these bounds, so no element is ever renumbered.
use crate::error::ListError;
use crate::index::{
    be_bytes, be_decode_u64, be_encode_u64, be_value, index_at, index_key, index_of_key,
    lemma_be_value_of_bytes, lemma_index_key_order, lemma_pow256_values, encode_index, ListIndex,
    INDEX_WIDTH,
};
use crate::record::{Record, Tag};
use vstd::arithmetic::div_mod::lemma_fundamental_div_mod_converse;
use vstd::prelude::*;

verus! {

/// Size of the payload of a metadata record: the key of the head, then the
/// length as eight big-endian bytes.
pub const META_SIZE: usize = INDEX_WIDTH + 8;

/// Where the elements of a list lie.
#[derive(Clone, Copy, PartialEq, Eq, Structural, Debug)]
pub struct Meta {
    /// The slot of the first element.
    pub head: ListIndex,
    /// The number of elements.
    pub len: u64,
}

/// The metadata that a payload of `META_SIZE` bytes holds.
pub open spec fn meta_of_payload(p: Seq<u8>) -> Meta {
    Meta {
        head: index_of_key(p.subrange(0, INDEX_WIDTH as int)),
        len: be_value(p.subrange(INDEX_WIDTH as int, META_SIZE as int)) as u64,
    }
}

impl Meta {
    /// Every slot of the list, the last one included, is a `ListIndex`.
    pub open spec fn keys_fit(self) -> bool {
        self.head + self.len <= i64::MAX + 1
    }

    /// The slot of logical position `ix`, counted from the front when it is
    /// non-negative and from the back (`-1` is the last element) when negative.
    pub open spec fn key_at(self, ix: int) -> Option<i64> {
        if -(self.len as int) <= ix < self.len {
            Some((self.head + ix % (self.len as int)) as i64)
        } else {
            None
        }
    }

    /// The slot of the first element, if any.
    pub open spec fn first_key(self) -> Option<i64> {
        if self.len != 0 {
            Some(self.head)
        } else {
            None
        }
    }

    /// The slot of the last element, if any.
    pub open spec fn last_key(self) -> Option<i64> {
        if self.len != 0 {
            Some((self.head + self.len - 1) as i64)
        } else {
            None
        }
    }

    /// One more slot in front.
    pub open spec fn front_pushed(self) -> Meta {
        Meta { head: (self.head - 1) as i64, len: (self.len + 1) as u64 }
    }

    /// One more slot at the back.
    pub open spec fn back_pushed(self) -> Meta {
        Meta { head: self.head, len: (self.len + 1) as u64 }
    }

    /// The first slot released; nothing changes on an empty list.
    pub open spec fn front_popped(self) -> Meta {
        if self.len == 0 {
            self
        } else {
            Meta { head: (self.head + 1) as i64, len: (self.len - 1) as u64 }
        }
    }

    /// The last slot released; nothing changes on an empty list.
    pub open spec fn back_popped(self) -> Meta {
        if self.len == 0 {
            self
        } else {
            Meta { head: self.head, len: (self.len - 1) as u64 }
        }
    }

    /// The payload of the metadata record.
    pub open spec fn payload(self) -> Seq<u8> {
        index_key(self.head) + be_bytes(self.len as nat, 8)
    }

    /// The metadata record: tagged as a list, holding `payload()`.
    pub fn encode(self) -> (r: Record)
        ensures
            r.tag == Tag::List,
            r.data@ == self.payload(),
    {
        let mut out = encode_index(self.head);
        let mut len_bytes = be_encode_u64(self.len);
        out.append(&mut len_bytes);
        Record::from_data(Tag::List, out)
    }

    /// The metadata that a record holds. Fails with `BadType` on a record of
    /// another kind, and with `InvalidMeta` on a payload that is not
    /// `META_SIZE` bytes long.
    pub fn decode(inp: &Record) -> (r: Result<Self, ListError>)
        ensures
            inp.tag != Tag::List ==> r == Err::<Meta, ListError>(
                ListError::BadType { expected: Tag::List, actual: inp.tag },
            ),
            inp.tag == Tag::List && inp.data@.len() != META_SIZE ==> (r matches Err(
                ListError::InvalidMeta { payload },
            ) && payload@ == inp.data@),
            inp.tag == Tag::List && inp.data@.len() == META_SIZE ==> r == Ok::<Meta, ListError>(
                meta_of_payload(inp.data@),
            ),
    {
        let data = match inp.expect(Tag::List) {
            Ok(d) => d,
            Err(e) => return Err(e),
        };
        if data.len() != META_SIZE {
            Err(ListError::InvalidMeta { payload: inp.data() })
        } else {
            let head = index_at(data, 0);
            let len = be_decode_u64(data, INDEX_WIDTH);
            Ok(Meta { head, len })
        }
    }

    /// Whether every slot of the list is a `ListIndex`.
    pub fn keys_representable(&self) -> (r: bool)
        ensures
            r == self.keys_fit(),
    {
        (self.head as i128) + (self.len as i128) <= (i64::MAX as i128) + 1
    }

    /// The slot of logical position `ix`: `ix` counts from the front when it
    /// is non-negative and from the back when negative (`-1` is the last
    /// element, `-len` the first). `None` outside `[-len, len)`.
    pub fn mk_key(&self, ix: i64) -> (r: Option<ListIndex>)
        requires
            self.keys_fit(),
        ensures
            r == self.key_at(ix as int),
            0 <= ix < self.len ==> r == Some((self.head + ix) as i64),
            -(self.len as int) <= ix < 0 ==> r == Some((self.head + self.len + ix) as i64),
            !(-(self.len as int) <= ix < self.len) ==> r is None,
    {
        let len = self.len as i128;
        let i = ix as i128;
        if 0 <= i && i < len {
            proof {
                lemma_fundamental_div_mod_converse(ix as int, len as int, 0, ix as int);
            }
            Some((self.head as i128 + i) as i64)
        } else if -len <= i && i < 0 {
            proof {
                lemma_fundamental_div_mod_converse(ix as int, len as int, -1, len + ix);
            }
            Some((self.head as i128 + len + i) as i64)
        } else {
            None
        }
    }

    /// The slot of the first element, if any.
    pub fn head_ix(&self) -> (r: Option<ListIndex>)
        ensures
            r == self.first_key(),
    {
        if self.len != 0 {
            Some(self.head)
        } else {
            None
        }
    }

    /// The slot of the last element, if any.
    pub fn tail_ix(&self) -> (r: Option<ListIndex>)
        requires
            self.keys_fit(),
        ensures
            r == self.last_key(),
    {
        if self.len != 0 {
            Some((self.head as i128 + self.len as i128 - 1) as i64)
        } else {
            None
        }
    }

    /// The number of elements.
    pub fn len(&self) -> (r: u64)
        ensures
            r == self.len,
    {
        self.len
    }

    /// Whether the list has no element.
    pub fn is_empty(&self) -> (r: bool)
        ensures
            r == (self.len == 0),
    {
        self.len() == 0
    }

    /// Reserves the slot in front of the first element and returns it.
    pub fn push_front(&mut self) -> (r: ListIndex)
        requires
            old(self).head > i64::MIN,
            old(self).len < u64::MAX,
        ensures
            *final(self) == old(self).front_pushed(),
            r == final(self).head,
            old(self).keys_fit() ==> final(self).keys_fit(),
    {
        self.head = self.head - 1;
        self.len = self.len + 1;
        self.head
    }

    /// Releases the slot of the first element and returns it; `None`, with
    /// nothing changed, on an empty list.
    pub fn pop_front(&mut self) -> (r: Option<ListIndex>)
        requires
            old(self).len > 0 ==> old(self).head < i64::MAX,
        ensures
            r == old(self).first_key(),
            *final(self) == old(self).front_popped(),
            old(self).len == 0 ==> r is None && *final(self) == *old(self),
            old(self).keys_fit() ==> final(self).keys_fit(),
    {
        match self.head_ix() {
            None => None,
            Some(res) => {
                self.head = self.head + 1;
                self.len = self.len - 1;
                Some(res)
            },
        }
    }

    /// Reserves the slot after the last element and returns it.
    pub fn push_back(&mut self) -> (r: ListIndex)
        requires
            old(self).len < u64::MAX,
            old(self).head + old(self).len <= i64::MAX,
        ensures
            *final(self) == old(self).back_pushed(),
            r == old(self).head + old(self).len,
            final(self).keys_fit(),
    {
        self.len = self.len + 1;
        (self.head as i128 + self.len as i128 - 1) as i64
    }

    /// Releases the slot of the last element and returns it; `None`, with
    /// nothing changed, on an empty list.
    pub fn pop_back(&mut self) -> (r: Option<ListIndex>)
        requires
            old(self).keys_fit(),
        ensures
            r == old(self).last_key(),
            *final(self) == old(self).back_popped(),
            old(self).len == 0 ==> r is None && *final(self) == *old(self),
            final(self).keys_fit(),
    {
        match self.tail_ix() {
            None => None,
            Some(res) => {
                self.len = self.len - 1;
                Some(res)
            },
        }
    }
}

impl Default for Meta {
    /// The metadata of a list that has just been made: no element, head at 0.
    fn default() -> (r: Meta)
        ensures
            r.head == 0,
            r.len == 0,
    {
        Meta { head: 0, len: 0 }
    }
}

/// Encoding metadata and decoding the record gives the same metadata back.
pub proof fn lemma_meta_round_trip(m: Meta)
    ensures
        m.payload().len() == META_SIZE,
        meta_of_payload(m.payload()) == m,
{
    lemma_index_key_order(m.head, m.head);
    lemma_pow256_values();
    lemma_be_value_of_bytes(m.len as nat, 8);
    let p = m.payload();
    assert(p.subrange(0, INDEX_WIDTH as int) =~= index_key(m.head));
    assert(p.subrange(INDEX_WIDTH as int, META_SIZE as int) =~= be_bytes(m.len as nat, 8));
}

/// Pushing a slot and popping it at the same end restores the metadata, and
/// the pop hands back the slot that the push reserved.
pub proof fn lemma_push_then_pop(m: Meta)
    requires
        m.len < u64::MAX,
    ensures
        m.head > i64::MIN ==> m.front_pushed().front_popped() == m,
        m.head > i64::MIN ==> m.front_pushed().first_key() == Some(m.front_pushed().head),
        m.head + m.len <= i64::MAX ==> m.back_pushed().back_popped() == m,
        m.head + m.len <= i64::MAX ==> m.back_pushed().last_key() == Some(
            (m.head + m.len) as i64,
        ),
{
}

} // verus!
