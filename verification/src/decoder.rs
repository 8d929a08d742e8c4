//! Registry for complex schema decoders and encoders.
use vstd::prelude::*;
use vstd::string::*;

use crate::text::{decimal, push_decimal};
use crate::value::{FieldValue, OwnedFieldValue, SemanticError, SpecOwnedValue};

verus! {

/// Value and exact byte consumption reported by a custom payload decoder.
pub struct DecodedPayload {
    /// Decoded semantic value.
    pub value: FieldValue,
    /// Number of input bytes consumed by the decoder.
    pub consumed: usize,
}

/// Custom implementation for complex xEdit definitions.
pub trait CustomDecoder {
    /// Stable identifier referenced by schema packages.
    spec fn spec_id(&self) -> Seq<char>;

    /// Decoder implementation version.
    spec fn spec_version(&self) -> u32;

    /// The bytes that encode a value, or `None` when the decoder rejects it.
    spec fn spec_encode(&self, value: SpecOwnedValue) -> Option<Seq<u8>>;

    /// Whether `res` is an outcome that decoding `payload` may give.
    spec fn spec_decodes(&self, payload: Seq<u8>, res: Result<DecodedPayload, SemanticError>) -> bool;

    /// Stable identifier referenced by schema packages.
    fn id(&self) -> (res: &'static str)
        ensures
            res@ == self.spec_id(),
    ;

    /// Decoder implementation version.
    fn version(&self) -> (res: u32)
        ensures
            res == self.spec_version(),
    ;

    /// Decodes a payload.
    fn decode(&self, payload: &[u8]) -> (res: Result<DecodedPayload, SemanticError>)
        ensures
            self.spec_decodes(payload@, res),
    ;

    /// Encodes an owned semantic value.
    fn encode(&self, value: &OwnedFieldValue) -> (res: Result<Vec<u8>, SemanticError>)
        ensures
            match res {
                Ok(b) => self.spec_encode(value@) == Some(b@),
                Err(_) => self.spec_encode(value@) is None,
            },
    ;
}

/// Identifier of xEdit's zero-width integer decoder.
pub const XEDIT_DTINTEGER_ID: &'static str = "xedit.dtinteger";

/// xEdit's zero-width integer: it reads no bytes and always yields unsigned zero.
pub struct ZeroWidthIntegerDecoder;

impl CustomDecoder for ZeroWidthIntegerDecoder {
    open spec fn spec_id(&self) -> Seq<char> {
        XEDIT_DTINTEGER_ID@
    }

    open spec fn spec_version(&self) -> u32 {
        1
    }

    open spec fn spec_encode(&self, value: SpecOwnedValue) -> Option<Seq<u8>> {
        if value == SpecOwnedValue::UInt(0) {
            Some(Seq::empty())
        } else {
            None
        }
    }

    /// Decoding reads no bytes and always yields unsigned zero.
    open spec fn spec_decodes(&self, payload: Seq<u8>, res: Result<DecodedPayload, SemanticError>) -> bool {
        res matches Ok(d) && d.consumed == 0 && d.value@ == crate::value::SpecFieldValue::UInt(0)
    }

    fn id(&self) -> (res: &'static str) {
        XEDIT_DTINTEGER_ID
    }

    fn version(&self) -> (res: u32) {
        1
    }

    fn decode(&self, payload: &[u8]) -> (res: Result<DecodedPayload, SemanticError>)
        ensures
            res matches Ok(d) && d.consumed == 0 && d.value@ == crate::value::SpecFieldValue::UInt(0),
    {
        Ok(DecodedPayload { value: FieldValue::UInt(0), consumed: 0 })
    }

    fn encode(&self, value: &OwnedFieldValue) -> (res: Result<Vec<u8>, SemanticError>)
        ensures
            value@ == SpecOwnedValue::UInt(0) ==> (res matches Ok(b) && b@.len() == 0),
            value@ != SpecOwnedValue::UInt(0) ==> (res matches Err(
                SemanticError::Decoder { decoder, message },
            ) && decoder@ == XEDIT_DTINTEGER_ID@ && message@
                == "zero-width xEdit integer only accepts unsigned value 0"@),
    {
        match value {
            OwnedFieldValue::UInt(0) => Ok(Vec::new()),
            _ => Err(
                SemanticError::Decoder {
                    decoder: XEDIT_DTINTEGER_ID.to_owned(),
                    message: "zero-width xEdit integer only accepts unsigned value 0".to_owned(),
                },
            ),
        }
    }
}

/// A decoder held by the registry: a built-in one or one of the caller's type `D`.
pub enum RegisteredDecoder<D: CustomDecoder> {
    /// The built-in zero-width integer decoder.
    ZeroWidthInteger(ZeroWidthIntegerDecoder),
    /// A decoder supplied by the caller.
    Custom(D),
}

impl<D: CustomDecoder> CustomDecoder for RegisteredDecoder<D> {
    open spec fn spec_id(&self) -> Seq<char> {
        match self {
            RegisteredDecoder::ZeroWidthInteger(d) => d.spec_id(),
            RegisteredDecoder::Custom(d) => d.spec_id(),
        }
    }

    open spec fn spec_version(&self) -> u32 {
        match self {
            RegisteredDecoder::ZeroWidthInteger(d) => d.spec_version(),
            RegisteredDecoder::Custom(d) => d.spec_version(),
        }
    }

    open spec fn spec_encode(&self, value: SpecOwnedValue) -> Option<Seq<u8>> {
        match self {
            RegisteredDecoder::ZeroWidthInteger(d) => d.spec_encode(value),
            RegisteredDecoder::Custom(d) => d.spec_encode(value),
        }
    }

    /// A registered decoder decodes as the decoder it holds.
    open spec fn spec_decodes(&self, payload: Seq<u8>, res: Result<DecodedPayload, SemanticError>) -> bool {
        match self {
            RegisteredDecoder::ZeroWidthInteger(d) => d.spec_decodes(payload, res),
            RegisteredDecoder::Custom(d) => d.spec_decodes(payload, res),
        }
    }

    fn id(&self) -> (res: &'static str) {
        match self {
            RegisteredDecoder::ZeroWidthInteger(d) => d.id(),
            RegisteredDecoder::Custom(d) => d.id(),
        }
    }

    fn version(&self) -> (res: u32) {
        match self {
            RegisteredDecoder::ZeroWidthInteger(d) => d.version(),
            RegisteredDecoder::Custom(d) => d.version(),
        }
    }

    fn decode(&self, payload: &[u8]) -> (res: Result<DecodedPayload, SemanticError>) {
        match self {
            RegisteredDecoder::ZeroWidthInteger(d) => d.decode(payload),
            RegisteredDecoder::Custom(d) => d.decode(payload),
        }
    }

    fn encode(&self, value: &OwnedFieldValue) -> (res: Result<Vec<u8>, SemanticError>) {
        match self {
            RegisteredDecoder::ZeroWidthInteger(d) => d.encode(value),
            RegisteredDecoder::Custom(d) => d.encode(value),
        }
    }
}

/// Versioned custom-decoder registry. `D` is the caller's type of custom decoders.
pub struct DecoderRegistry<D: CustomDecoder> {
    decoders: Vec<RegisteredDecoder<D>>,
}

impl<D: CustomDecoder> View for DecoderRegistry<D> {
    type V = Map<Seq<char>, RegisteredDecoder<D>>;

    closed spec fn view(&self) -> Map<Seq<char>, RegisteredDecoder<D>> {
        Map::new(
            |k: Seq<char>| exists|i: int| 0 <= i < self.decoders@.len() && (#[trigger] self.decoders@[i]).spec_id() == k,
            |k: Seq<char>|
                self.decoders@[choose|i: int|
                    0 <= i < self.decoders@.len() && (#[trigger] self.decoders@[i]).spec_id() == k],
        )
    }
}

impl<D: CustomDecoder> DecoderRegistry<D> {
    /// Each identifier is registered once.
    pub closed spec fn wf(&self) -> bool {
        forall|i: int, j: int|
            0 <= i < j < self.decoders@.len() ==> (#[trigger] self.decoders@[i]).spec_id() != (
            #[trigger] self.decoders@[j]).spec_id()
    }

    /// Every registered decoder is stored under its own identifier.
    pub proof fn lemma_keys(&self)
        requires
            self.wf(),
        ensures
            forall|k: Seq<char>| #[trigger] self@.contains_key(k) ==> self@[k].spec_id() == k,
    {
        assert forall|k: Seq<char>| #[trigger] self@.contains_key(k) implies self@[k].spec_id() == k by {
            let i = choose|i: int| 0 <= i < self.decoders@.len() && (#[trigger] self.decoders@[i]).spec_id() == k;
        }
    }

    proof fn lemma_at(&self, i: int)
        requires
            self.wf(),
            0 <= i < self.decoders@.len(),
        ensures
            self@.contains_key(self.decoders@[i].spec_id()),
            self@[self.decoders@[i].spec_id()] == self.decoders@[i],
    {
        let k = self.decoders@[i].spec_id();
        assert(exists|j: int| 0 <= j < self.decoders@.len() && (#[trigger] self.decoders@[j]).spec_id() == k);
        let j = choose|j: int| 0 <= j < self.decoders@.len() && (#[trigger] self.decoders@[j]).spec_id() == k;
        if j < i {
            assert(self.decoders@[j].spec_id() != self.decoders@[i].spec_id());
        } else if j > i {
            assert(self.decoders@[i].spec_id() != self.decoders@[j].spec_id());
        }
    }

    fn position(&self, id: &str) -> (res: Option<usize>)
        requires
            self.wf(),
        ensures
            match res {
                Some(i) => i < self.decoders@.len() && self.decoders@[i as int].spec_id() == id@,
                None => !self@.contains_key(id@),
            },
    {
        let mut i: usize = 0;
        while i < self.decoders.len()
            invariant
                i <= self.decoders@.len(),
                forall|j: int| 0 <= j < i ==> (#[trigger] self.decoders@[j]).spec_id() != id@,
            decreases self.decoders.len() - i,
        {
            if crate::text::text_eq(self.decoders[i].id(), id) {
                return Some(i);
            }
            i += 1;
        }
        None
    }

    /// Creates an empty decoder registry.
    pub fn new() -> (res: Self)
        ensures
            res.wf(),
            res@ == Map::<Seq<char>, RegisteredDecoder<D>>::empty(),
    {
        let res = DecoderRegistry { decoders: Vec::new() };
        assert(res@ =~= Map::<Seq<char>, RegisteredDecoder<D>>::empty());
        res
    }

    /// Registers or replaces a custom decoder under its identifier.
    pub fn register(&mut self, decoder: D)
        requires
            old(self).wf(),
        ensures
            final(self).wf(),
            final(self)@ == old(self)@.insert(decoder.spec_id(), RegisteredDecoder::Custom(decoder)),
    {
        self.register_entry(RegisteredDecoder::Custom(decoder));
    }

    fn register_entry(&mut self, decoder: RegisteredDecoder<D>)
        requires
            old(self).wf(),
        ensures
            final(self).wf(),
            final(self)@ == old(self)@.insert(decoder.spec_id(), decoder),
    {
        let ghost old_self = *self;
        let ghost old_map = self@;
        let ghost k = decoder.spec_id();
        let id = decoder.id();
        match self.position(id) {
            Some(i) => {
                self.decoders.set(i, decoder);
                proof {
                    assert forall|key: Seq<char>| #![auto] self@.contains_key(key) <==> old_map.insert(k, decoder).contains_key(key) by {
                        if old_map.contains_key(key) {
                            let j = choose|j: int| 0 <= j < old_self.decoders@.len() && (#[trigger] old_self.decoders@[j]).spec_id() == key;
                            assert(self.decoders@[j].spec_id() == key);
                        }
                        if self@.contains_key(key) {
                            let j = choose|j: int| 0 <= j < self.decoders@.len() && (#[trigger] self.decoders@[j]).spec_id() == key;
                            assert(old_self.decoders@[j].spec_id() == key);
                        }
                        if key == k {
                            assert(self.decoders@[i as int].spec_id() == key);
                        }
                    }
                    assert forall|key: Seq<char>| #[trigger] self@.contains_key(key) implies self@[key] == old_map.insert(k, decoder)[key] by {
                        let j = choose|j: int| 0 <= j < self.decoders@.len() && (#[trigger] self.decoders@[j]).spec_id() == key;
                        self.lemma_at(j);
                        if j != i {
                            old_self.lemma_at(j);
                        }
                    }
                    assert(self@ =~= old_map.insert(k, decoder));
                }
            },
            None => {
                self.decoders.push(decoder);
                proof {
                    let n = old_self.decoders@.len() as int;
                    assert forall|a: int, b: int| 0 <= a < b < self.decoders@.len() implies (
                    #[trigger] self.decoders@[a]).spec_id() != (#[trigger] self.decoders@[b]).spec_id() by {
                        if b == n {
                            assert(old_self.decoders@[a].spec_id() != k) by {
                                if old_self.decoders@[a].spec_id() == k {
                                    old_self.lemma_at(a);
                                }
                            }
                        } else {
                            assert(self.decoders@[a] == old_self.decoders@[a]);
                            assert(self.decoders@[b] == old_self.decoders@[b]);
                        }
                    }
                    assert forall|key: Seq<char>| #![auto] self@.contains_key(key) <==> old_map.insert(k, decoder).contains_key(key) by {
                        if old_map.contains_key(key) {
                            let j = choose|j: int| 0 <= j < old_self.decoders@.len() && (#[trigger] old_self.decoders@[j]).spec_id() == key;
                            assert(self.decoders@[j].spec_id() == key);
                        }
                        if self@.contains_key(key) {
                            let j = choose|j: int| 0 <= j < self.decoders@.len() && (#[trigger] self.decoders@[j]).spec_id() == key;
                            if j < n {
                                assert(old_self.decoders@[j].spec_id() == key);
                            }
                        }
                        if key == k {
                            assert(self.decoders@[n].spec_id() == key);
                        }
                    }
                    assert forall|key: Seq<char>| #[trigger] self@.contains_key(key) implies self@[key] == old_map.insert(k, decoder)[key] by {
                        let j = choose|j: int| 0 <= j < self.decoders@.len() && (#[trigger] self.decoders@[j]).spec_id() == key;
                        self.lemma_at(j);
                        if j < n {
                            old_self.lemma_at(j);
                        }
                    }
                    assert(self@ =~= old_map.insert(k, decoder));
                }
            },
        }
    }

    /// Creates a registry containing all built-in decoders.
    pub fn builtin() -> (res: Self)
        ensures
            res.wf(),
            res@.dom() == set![XEDIT_DTINTEGER_ID@],
            res@[XEDIT_DTINTEGER_ID@].spec_version() == 1,
    {
        let mut registry = Self::new();
        registry.register_entry(RegisteredDecoder::ZeroWidthInteger(ZeroWidthIntegerDecoder));
        assert(registry@.dom() =~= set![XEDIT_DTINTEGER_ID@]);
        registry
    }

    /// Resolves a decoder satisfying a minimum implementation version.
    pub fn require(&self, id: &str, minimum_version: u32) -> (res: Result<&RegisteredDecoder<D>, SemanticError>)
        requires
            self.wf(),
        ensures
            !self@.contains_key(id@) ==> (res matches Err(SemanticError::MissingDecoder(m)) && m@ == id@),
            self@.contains_key(id@) && self@[id@].spec_version() < minimum_version ==> (res matches Err(
                SemanticError::MissingDecoder(m),
            ) && m@ == id@ + " version "@ + decimal(minimum_version as nat) + " or newer"@),
            self@.contains_key(id@) && self@[id@].spec_version() >= minimum_version ==> (res matches Ok(d)
                && *d == self@[id@]),
    {
        match self.position(id) {
            None => Err(SemanticError::MissingDecoder(id.to_owned())),
            Some(i) => {
                proof {
                    self.lemma_at(i as int);
                }
                let decoder = &self.decoders[i];
                if decoder.version() < minimum_version {
                    let mut message = String::from_str(id);
                    message.append(" version ");
                    push_decimal(&mut message, minimum_version as u64);
                    message.append(" or newer");
                    Err(SemanticError::MissingDecoder(message))
                } else {
                    Ok(decoder)
                }
            },
        }
    }

    /// Returns a decoder by identifier.
    pub fn get(&self, id: &str) -> (res: Option<&RegisteredDecoder<D>>)
        requires
            self.wf(),
        ensures
            self@.contains_key(id@) ==> (res matches Some(d) && *d == self@[id@]),
            !self@.contains_key(id@) ==> res is None,
    {
        match self.position(id) {
            None => None,
            Some(i) => {
                proof {
                    self.lemma_at(i as int);
                }
                Some(&self.decoders[i])
            },
        }
    }
}

impl<D: CustomDecoder> Default for DecoderRegistry<D> {
    fn default() -> (res: Self)
        ensures
            res.wf(),
            res@ == Map::<Seq<char>, RegisteredDecoder<D>>::empty(),
    {
        Self::new()
    }
}

} // verus!
