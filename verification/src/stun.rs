//! The UNKNOWN-ATTRIBUTES attribute of STUN: a list of attribute types
//! written as big-endian 16-bit values, added to and read from the
//! attributes of a message.
use vstd::prelude::*;
use crate::bytes::{be16, get_be16, push_be16, read_be16};

verus! {

/// The type of a STUN attribute.
#[derive(Debug, Clone, Copy, PartialEq, Eq)]
pub struct AttrType(pub u16);

/// The type number of UNKNOWN-ATTRIBUTES.
pub const ATTR_UNKNOWN_ATTRIBUTES: u16 = 0x000A;

/// The size of an attribute type on the wire.
pub const ATTR_TYPE_SIZE: usize = 2;

/// Why an attribute could not be read.
#[derive(Debug, Clone, Copy, PartialEq, Eq)]
pub enum StunError {
    /// The message has no attribute of the type asked for.
    ErrAttributeNotFound,
    /// The value of UNKNOWN-ATTRIBUTES is not a whole number of types.
    ErrBadUnknownAttrsSize,
}

/// An attribute of a message: its type and its value.
#[derive(Debug)]
pub struct RawAttribute {
    pub typ: AttrType,
    pub value: Vec<u8>,
}

/// The attributes of a STUN message, in the order they were added.
#[derive(Debug)]
pub struct Message {
    pub attributes: Vec<RawAttribute>,
}

/// The attributes of a message as types and values.
pub open spec fn attrs_view(m: &Message) -> Seq<(AttrType, Seq<u8>)> {
    m.attributes@.map_values(|a: RawAttribute| (a.typ, a.value@))
}

/// The value of the first attribute of type `t`, if there is one.
pub open spec fn first_value(attrs: Seq<(AttrType, Seq<u8>)>, t: AttrType) -> Option<Seq<u8>>
    decreases attrs.len(),
{
    if attrs.len() == 0 {
        None
    } else if attrs[0].0 == t {
        Some(attrs[0].1)
    } else {
        first_value(attrs.drop_first(), t)
    }
}

impl Message {
    /// A message with no attributes.
    pub fn new() -> (r: Message)
        ensures
            attrs_view(&r) == Seq::<(AttrType, Seq<u8>)>::empty(),
    {
        let r = Message { attributes: Vec::new() };
        assert(attrs_view(&r) =~= Seq::<(AttrType, Seq<u8>)>::empty());
        r
    }

    /// Appends an attribute of type `t` with value `v`.
    pub fn add(&mut self, t: AttrType, v: &[u8])
        ensures
            attrs_view(final(self)) == attrs_view(old(self)).push((t, v@)),
    {
        let ghost before = attrs_view(self);
        let value = crate::bytes::slice_to_vec(v, 0, v.len());
        assert(v@.subrange(0, v@.len() as int) =~= v@);
        self.attributes.push(RawAttribute { typ: t, value });
        assert(attrs_view(self) =~= before.push((t, v@)));
    }

    /// The value of the first attribute of type `t`.
    pub fn get(&self, t: AttrType) -> (r: Result<Vec<u8>, StunError>)
        ensures
            match first_value(attrs_view(self), t) {
                Some(v) => r matches Ok(x) && x@ == v,
                None => r == Err::<Vec<u8>, StunError>(StunError::ErrAttributeNotFound),
            },
    {
        let mut i: usize = 0;
        assert(attrs_view(self).subrange(0, attrs_view(self).len() as int) =~= attrs_view(self));
        while i < self.attributes.len()
            invariant
                i <= self.attributes@.len(),
                first_value(attrs_view(self), t) == first_value(
                    attrs_view(self).subrange(i as int, attrs_view(self).len() as int),
                    t,
                ),
            decreases self.attributes@.len() - i,
        {
            let ghost rest = attrs_view(self).subrange(i as int, attrs_view(self).len() as int);
            assert(rest[0] == attrs_view(self)[i as int]);
            assert(rest.drop_first() =~= attrs_view(self).subrange(
                i + 1,
                attrs_view(self).len() as int,
            ));
            if self.attributes[i].typ.0 == t.0 {
                let v = &self.attributes[i].value;
                let out = crate::bytes::slice_to_vec(v.as_slice(), 0, v.len());
                assert(v@.subrange(0, v@.len() as int) =~= v@);
                return Ok(out);
            }
            i = i + 1;
        }
        Err(StunError::ErrAttributeNotFound)
    }
}

/// The list of attribute types that a peer did not understand.
#[derive(Debug)]
pub struct UnknownAttributes(pub Vec<AttrType>);

/// The wire form of a list of types: each as two big-endian bytes.
pub open spec fn types_bytes(ts: Seq<AttrType>) -> Seq<u8>
    decreases ts.len(),
{
    if ts.len() == 0 {
        Seq::empty()
    } else {
        types_bytes(ts.drop_last()) + be16(ts.last().0)
    }
}

/// The types written in `v`, two bytes each.
pub open spec fn parse_types(v: Seq<u8>) -> Seq<AttrType> {
    Seq::new(v.len() / 2, |i: int| AttrType(read_be16(v, 2 * i)))
}

proof fn lemma_types_bytes_len(ts: Seq<AttrType>)
    ensures
        types_bytes(ts).len() == 2 * ts.len(),
    decreases ts.len(),
{
    if ts.len() > 0 {
        lemma_types_bytes_len(ts.drop_last());
    }
}

impl UnknownAttributes {
    /// Adds the UNKNOWN-ATTRIBUTES attribute with these types to `m`.
    pub fn add_to(&self, m: &mut Message) -> (r: Result<(), StunError>)
        ensures
            r is Ok,
            attrs_view(final(m)) == attrs_view(old(m)).push(
                (AttrType(ATTR_UNKNOWN_ATTRIBUTES), types_bytes(self.0@)),
            ),
    {
        let mut v: Vec<u8> = Vec::new();
        let mut i: usize = 0;
        while i < self.0.len()
            invariant
                i <= self.0@.len(),
                v@ == types_bytes(self.0@.take(i as int)),
            decreases self.0@.len() - i,
        {
            proof {
                assert(self.0@.take(i + 1).drop_last() =~= self.0@.take(i as int));
            }
            push_be16(&mut v, self.0[i].0);
            i = i + 1;
        }
        assert(self.0@.take(self.0@.len() as int) =~= self.0@);
        m.add(AttrType(ATTR_UNKNOWN_ATTRIBUTES), v.as_slice());
        Ok(())
    }

    /// Reads the types of the UNKNOWN-ATTRIBUTES attribute of `m`.
    pub fn get_from(&mut self, m: &Message) -> (r: Result<(), StunError>)
        ensures
            match first_value(attrs_view(m), AttrType(ATTR_UNKNOWN_ATTRIBUTES)) {
                None => r == Err::<(), StunError>(StunError::ErrAttributeNotFound)
                    && final(self).0@ == old(self).0@,
                Some(v) => if v.len() % 2 != 0 {
                    r == Err::<(), StunError>(StunError::ErrBadUnknownAttrsSize)
                        && final(self).0@ == old(self).0@
                } else {
                    r is Ok && final(self).0@ == parse_types(v)
                },
            },
    {
        let v = match m.get(AttrType(ATTR_UNKNOWN_ATTRIBUTES)) {
            Ok(v) => v,
            Err(e) => return Err(e),
        };
        if v.len() % ATTR_TYPE_SIZE != 0 {
            return Err(StunError::ErrBadUnknownAttrsSize);
        }
        self.0.clear();
        let mut first: usize = 0;
        while first < v.len()
            invariant
                v@.len() % 2 == 0,
                first % 2 == 0,
                first <= v@.len(),
                self.0@ =~= parse_types(v@).take(first as int / 2),
            decreases v@.len() - first,
        {
            let t = get_be16(v.as_slice(), first);
            self.0.push(AttrType(t));
            first = first + ATTR_TYPE_SIZE;
            assert(self.0@ =~= parse_types(v@).take(first as int / 2));
        }
        assert(parse_types(v@).take(v@.len() as int / 2) =~= parse_types(v@));
        Ok(())
    }
}

/// What `add_to` writes, `get_from` reads back: the types survive the
/// round trip through a message that had no such attribute before.
pub proof fn lemma_unknown_attributes_roundtrip(
    attrs: Seq<(AttrType, Seq<u8>)>,
    ts: Seq<AttrType>,
)
    requires
        first_value(attrs, AttrType(ATTR_UNKNOWN_ATTRIBUTES)) is None,
    ensures
        first_value(
            attrs.push((AttrType(ATTR_UNKNOWN_ATTRIBUTES), types_bytes(ts))),
            AttrType(ATTR_UNKNOWN_ATTRIBUTES),
        ) == Some(types_bytes(ts)),
        types_bytes(ts).len() % 2 == 0,
        parse_types(types_bytes(ts)) == ts,
{
    lemma_first_value_push(attrs, AttrType(ATTR_UNKNOWN_ATTRIBUTES), types_bytes(ts));
    lemma_types_bytes_len(ts);
    lemma_parse_types_bytes(ts);
}

proof fn lemma_first_value_push(attrs: Seq<(AttrType, Seq<u8>)>, t: AttrType, v: Seq<u8>)
    requires
        first_value(attrs, t) is None,
    ensures
        first_value(attrs.push((t, v)), t) == Some(v),
    decreases attrs.len(),
{
    if attrs.len() > 0 {
        assert(attrs.push((t, v)).drop_first() =~= attrs.drop_first().push((t, v)));
        lemma_first_value_push(attrs.drop_first(), t, v);
    }
}

proof fn lemma_parse_types_bytes(ts: Seq<AttrType>)
    ensures
        parse_types(types_bytes(ts)) =~= ts,
    decreases ts.len(),
{
    lemma_types_bytes_len(ts);
    if ts.len() > 0 {
        let init = ts.drop_last();
        lemma_parse_types_bytes(init);
        lemma_types_bytes_len(init);
        let b = types_bytes(ts);
        let bi = types_bytes(init);
        assert forall|i: int| 0 <= i < ts.len() implies #[trigger] parse_types(b)[i] == ts[i] by {
            if i < ts.len() - 1 {
                assert(b[2 * i] == bi[2 * i]);
                assert(b[2 * i + 1] == bi[2 * i + 1]);
                assert(parse_types(bi)[i] == init[i]);
            } else {
                let x = ts.last().0;
                assert(b[2 * i] == be16(x)[0]);
                assert(b[2 * i + 1] == be16(x)[1]);
                crate::bytes::lemma_be16_roundtrip(x);
            }
        }
    }
}

} // verus!
