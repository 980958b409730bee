//! Nullable wrapper for C# nullable value types.
//!
//! On the wire a nullable value is one presence bit, followed by the value
//! when the bit is set.
use crate::bits::{BitReader, BitWriter, DecodeError, Decoded, spec_read_bit};
use crate::wire::{decoded_as, lemma_split_at, BitCodec};
use vstd::prelude::*;

verus! {

/// A nullable value type, like C#'s `Nullable<T>` or `T?`.
#[derive(Clone, Debug, Default, PartialEq, Eq, Hash)]
pub struct Nullable<T>(pub Option<T>);

impl<T: View> View for Nullable<T> {
    type V = Option<T::V>;

    open spec fn view(&self) -> Option<T::V> {
        match self.0 {
            Some(x) => Some(x@),
            None => None,
        }
    }
}

impl<T> Nullable<T> {
    /// A `Nullable` holding `value`.
    pub fn some(value: T) -> (r: Self)
        ensures
            r.0 == Some(value),
    {
        Nullable(Some(value))
    }

    /// An empty `Nullable`.
    pub fn none() -> (r: Self)
        ensures
            r.0 == None::<T>,
    {
        Nullable(None)
    }

    /// Whether a value is present.
    pub fn is_some(&self) -> (b: bool)
        ensures
            b == self.0 is Some,
    {
        self.0.is_some()
    }

    /// Whether the value is absent.
    pub fn is_none(&self) -> (b: bool)
        ensures
            b == self.0 is None,
    {
        self.0.is_none()
    }
}

impl<T> core::ops::Deref for Nullable<T> {
    type Target = Option<T>;

    fn deref(&self) -> (r: &Option<T>)
        ensures
            *r == self.0,
    {
        &self.0
    }
}

impl<T> From<T> for Nullable<T> {
    fn from(value: T) -> (r: Nullable<T>) {
        Nullable(Some(value))
    }
}

impl<T> vstd::std_specs::convert::FromSpecImpl<T> for Nullable<T> {
    open spec fn obeys_from_spec() -> bool {
        true
    }

    open spec fn from_spec(v: T) -> Nullable<T> {
        Nullable(Some(v))
    }
}

impl<T> From<Option<T>> for Nullable<T> {
    fn from(opt: Option<T>) -> (r: Nullable<T>) {
        Nullable(opt)
    }
}

impl<T> vstd::std_specs::convert::FromSpecImpl<Option<T>> for Nullable<T> {
    open spec fn obeys_from_spec() -> bool {
        true
    }

    open spec fn from_spec(v: Option<T>) -> Nullable<T> {
        Nullable(v)
    }
}

impl<T: BitCodec> BitCodec for Nullable<T> {
    open spec fn spec_decode(s: Seq<bool>, pos: int) -> Decoded<Option<T::V>> {
        match spec_read_bit(s, pos) {
            Decoded::Value(present, p) => if present {
                match T::spec_decode(s, p) {
                    Decoded::Value(v, q) => Decoded::Value(Some(v), q),
                    Decoded::Failed(e) => Decoded::Failed(e),
                    Decoded::OutOfDomain => Decoded::OutOfDomain,
                }
            } else {
                Decoded::Value(None, p)
            },
            Decoded::Failed(e) => Decoded::Failed(e),
            Decoded::OutOfDomain => Decoded::OutOfDomain,
        }
    }

    open spec fn spec_encode(v: Option<T::V>) -> Seq<bool> {
        match v {
            Some(x) => seq![true] + T::spec_encode(x),
            None => seq![false],
        }
    }

    open spec fn spec_encodable(v: Option<T::V>) -> bool {
        match v {
            Some(x) => T::spec_encodable(x),
            None => true,
        }
    }

    proof fn lemma_decode_encode(v: Option<T::V>, s: Seq<bool>, pos: int) {
        match v {
            Some(x) => {
                lemma_split_at(s, pos, seq![true], T::spec_encode(x));
                assert(s[pos] == s.subrange(pos, pos + 1)[0]);
                T::lemma_decode_encode(x, s, pos + 1);
            },
            None => {
                assert(s[pos] == s.subrange(pos, pos + 1)[0]);
            },
        }
    }

    fn decode(r: &mut BitReader) -> (res: Result<Nullable<T>, DecodeError>) {
        let present = match r.read_bit() {
            Ok(b) => b,
            Err(e) => {
                return Err(e);
            },
        };
        if present {
            match T::decode(r) {
                Ok(v) => Ok(Nullable(Some(v))),
                Err(e) => Err(e),
            }
        } else {
            Ok(Nullable(None))
        }
    }

    fn encode(&self, w: &mut BitWriter) {
        match &self.0 {
            Some(v) => {
                w.write_bit(true);
                v.encode(w);
                assert(old(w).bits@.push(true) + T::spec_encode(v@) =~= old(w).bits@ + (seq![true]
                    + T::spec_encode(v@)));
            },
            None => {
                w.write_bit(false);
                assert(old(w).bits@.push(false) =~= old(w).bits@ + seq![false]);
            },
        }
    }
}

} // verus!
