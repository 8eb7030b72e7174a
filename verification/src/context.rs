//! What a compiled program carries along for the time it runs, and how it
//! is stored in and read back from the binary.

use crate::text::str_eq;
use vstd::bytes::{
    lemma_auto_spec_u32_to_from_le_bytes, lemma_auto_spec_u64_to_from_le_bytes,
    spec_u32_from_le_bytes, spec_u32_to_le_bytes, spec_u64_from_le_bytes, spec_u64_to_le_bytes,
};
use vstd::prelude::*;

verus! {

/// The name of the custom section that holds the serialised context.
pub const CONTEXT_SECTION: &'static str = "SycContext";

/// `SycContext` is what hosts all of the needed context to run a sycamore
/// program: for each string literal, in the order the literals were laid out,
/// its offset in the data section and its length in bytes. It gets encoded
/// into a custom section of the wasm binary and can be retrieved from it to
/// run the program.
#[derive(Debug)]
pub struct SycContext {
    pub literal_offsets: Vec<(u32, u32)>,
}

impl View for SycContext {
    type V = Seq<(u32, u32)>;

    open spec fn view(&self) -> Seq<(u32, u32)> {
        self.literal_offsets@
    }
}

/// Why a context cannot be read from a binary.
#[derive(Debug, Clone, Copy, PartialEq, Eq, Structural)]
pub enum ContextError {
    /// The bytes do not parse as a module, up to the section that holds
    /// the context.
    Malformed,
    /// The module has no custom section that holds a context.
    Missing,
    /// The section's bytes do not hold a context.
    Undecodable,
}

/// One item of a module, as far as reading the context goes: a custom
/// section with its name and bytes, anything else that parses, or what
/// does not parse.
#[derive(Debug)]
pub enum Payload {
    Custom { name: String, data: Vec<u8> },
    Other,
    Malformed,
}

pub enum PayloadView {
    Custom { name: Seq<char>, data: Seq<u8> },
    Other,
    Malformed,
}

impl View for Payload {
    type V = PayloadView;

    open spec fn view(&self) -> PayloadView {
        match self {
            Payload::Custom { name, data } => PayloadView::Custom { name: name@, data: data@ },
            Payload::Other => PayloadView::Other,
            Payload::Malformed => PayloadView::Malformed,
        }
    }
}

/// The pairs one after the other, each number as four bytes, the low byte
/// first.
pub open spec fn pairs_encoding(offsets: Seq<(u32, u32)>) -> Seq<u8>
    decreases offsets.len(),
{
    if offsets.len() == 0 {
        seq![]
    } else {
        pairs_encoding(offsets.drop_last()) + spec_u32_to_le_bytes(offsets.last().0)
            + spec_u32_to_le_bytes(offsets.last().1)
    }
}

/// The serialised form of a context: the number of pairs as eight bytes, the
/// low byte first, and then the pairs.
pub open spec fn offsets_encoding(offsets: Seq<(u32, u32)>) -> Seq<u8> {
    spec_u64_to_le_bytes(offsets.len() as u64) + pairs_encoding(offsets)
}

/// Whether the bytes start with the serialised form of these pairs.
pub open spec fn holds_offsets(bytes: Seq<u8>, offsets: Seq<(u32, u32)>) -> bool {
    offsets_encoding(offsets).is_prefix_of(bytes)
}

/// The pairs with whose serialised form the bytes start, if there are
/// such. Bytes that a machine can hold start with the form of one sequence
/// of pairs at most.
pub open spec fn offsets_decoding(bytes: Seq<u8>) -> Option<Seq<(u32, u32)>> {
    if exists|offsets: Seq<(u32, u32)>| #[trigger] holds_offsets(bytes, offsets) {
        Some(choose|offsets: Seq<(u32, u32)>| #[trigger] holds_offsets(bytes, offsets))
    } else {
        None
    }
}

/// The items that `wasmparser`'s `Parser::parse_all` finds in a module, in
/// order, up to the end of the module or to the first item that does not
/// parse, which is then the last.
pub uninterp spec fn parsed_payloads(wasm: Seq<u8>) -> Seq<PayloadView>;

/// Whether `wasmparser::validate` accepts the bytes as a module.
pub uninterp spec fn wasm_valid(wasm: Seq<u8>) -> bool;

/// `bincode::serialize` on a vector of pairs of 32-bit numbers. In its
/// default configuration it writes integers at their fixed width, the low
/// byte first, and a sequence as its length in 64 bits followed by its
/// items. With no limit on the size and a vector to write to, it has no way
/// to fail.
#[verifier::external_body]
pub(crate) fn serialize_offsets(offsets: &Vec<(u32, u32)>) -> (bytes: Vec<u8>)
    ensures
        bytes@ == offsets_encoding(offsets@),
{
    bincode::serialize(offsets).unwrap()
}

/// `bincode::deserialize` to a vector of pairs of 32-bit numbers. It reads
/// the length and then that many pairs, and fails only where the bytes end
/// before that; bytes after the vector's serialised form are ignored.
#[verifier::external_body]
pub(crate) fn deserialize_offsets(bytes: &[u8]) -> (r: Option<Vec<(u32, u32)>>)
    ensures
        r is Some ==> holds_offsets(bytes@, r->0@),
        r is None ==> forall|offsets: Seq<(u32, u32)>| !#[trigger] holds_offsets(bytes@, offsets),
{
    bincode::deserialize(bytes).ok()
}

/// Each pair takes eight bytes.
pub proof fn lemma_pairs_len(offsets: Seq<(u32, u32)>)
    ensures
        pairs_encoding(offsets).len() == 8 * offsets.len(),
    decreases offsets.len(),
{
    lemma_auto_spec_u32_to_from_le_bytes();
    if offsets.len() > 0 {
        lemma_pairs_len(offsets.drop_last());
    }
}

/// Sequences of pairs of one length with the same bytes are the same.
pub proof fn lemma_pairs_injective(a: Seq<(u32, u32)>, b: Seq<(u32, u32)>)
    requires
        a.len() == b.len(),
        pairs_encoding(a) == pairs_encoding(b),
    ensures
        a == b,
    decreases a.len(),
{
    lemma_auto_spec_u32_to_from_le_bytes();
    if a.len() == 0 {
        assert(a =~= b);
    } else {
        let front_a = pairs_encoding(a.drop_last());
        let front_b = pairs_encoding(b.drop_last());
        lemma_pairs_len(a.drop_last());
        lemma_pairs_len(b.drop_last());
        let n = front_a.len() as int;
        let whole = pairs_encoding(a);
        assert(whole.subrange(0, n) =~= front_a);
        assert(whole.subrange(0, n) =~= front_b);
        assert(whole.subrange(n, n + 4) =~= spec_u32_to_le_bytes(a.last().0));
        assert(whole.subrange(n, n + 4) =~= spec_u32_to_le_bytes(b.last().0));
        assert(whole.subrange(n + 4, n + 8) =~= spec_u32_to_le_bytes(a.last().1));
        assert(whole.subrange(n + 4, n + 8) =~= spec_u32_to_le_bytes(b.last().1));
        assert(spec_u32_from_le_bytes(spec_u32_to_le_bytes(a.last().0)) == a.last().0);
        assert(spec_u32_from_le_bytes(spec_u32_to_le_bytes(a.last().1)) == a.last().1);
        assert(a.last() == b.last());
        lemma_pairs_injective(a.drop_last(), b.drop_last());
        assert(a =~= a.drop_last().push(a.last()));
        assert(b =~= b.drop_last().push(b.last()));
    }
}

/// Bytes that a machine can hold start with the serialised form of one
/// sequence of pairs at most.
pub proof fn lemma_offsets_unique(bytes: Seq<u8>, a: Seq<(u32, u32)>, b: Seq<(u32, u32)>)
    requires
        bytes.len() <= u64::MAX,
        holds_offsets(bytes, a),
        holds_offsets(bytes, b),
    ensures
        a == b,
{
    lemma_auto_spec_u64_to_from_le_bytes();
    lemma_pairs_len(a);
    lemma_pairs_len(b);
    let form_a = offsets_encoding(a);
    let form_b = offsets_encoding(b);
    assert(bytes.subrange(0, 8) =~= form_a.subrange(0, 8));
    assert(bytes.subrange(0, 8) =~= form_b.subrange(0, 8));
    assert(form_a.subrange(0, 8) =~= spec_u64_to_le_bytes(a.len() as u64));
    assert(form_b.subrange(0, 8) =~= spec_u64_to_le_bytes(b.len() as u64));
    assert(spec_u64_from_le_bytes(spec_u64_to_le_bytes(a.len() as u64)) == a.len() as u64);
    assert(spec_u64_from_le_bytes(spec_u64_to_le_bytes(b.len() as u64)) == b.len() as u64);
    assert(a.len() == b.len());
    let n = 8 * a.len() as int;
    assert(form_a.subrange(8, 8 + n) =~= pairs_encoding(a));
    assert(form_b.subrange(8, 8 + n) =~= pairs_encoding(b));
    assert(form_a.subrange(8, 8 + n) =~= bytes.subrange(8, 8 + n));
    assert(form_b.subrange(8, 8 + n) =~= bytes.subrange(8, 8 + n));
    lemma_pairs_injective(a, b);
}

/// The serialised form of a context holds that context and no other.
pub proof fn law_context_round_trip(offsets: Seq<(u32, u32)>)
    requires
        offsets_encoding(offsets).len() <= u64::MAX,
    ensures
        offsets_decoding(offsets_encoding(offsets)) == Some(offsets),
{
    let bytes = offsets_encoding(offsets);
    assert(holds_offsets(bytes, offsets));
    let found = choose|found: Seq<(u32, u32)>| #[trigger] holds_offsets(bytes, found);
    lemma_offsets_unique(bytes, found, offsets);
}

/// `wasmparser`'s `Parser::parse_all` from offset 0, each item turned into
/// a `Payload`, up to the end of the module or to the first item that does
/// not parse. The iterator gives that failure again and again, so reading
/// stops there.
#[verifier::external_body]
pub(crate) fn parse_payloads(wasm: &[u8]) -> (payloads: Vec<Payload>)
    ensures
        payload_views(payloads@) == parsed_payloads(wasm@),
{
    let mut payloads = Vec::new();
    for payload in wasmparser::Parser::new(0).parse_all(wasm) {
        match payload {
            Ok(wasmparser::Payload::CustomSection { name, data, .. }) => {
                payloads.push(Payload::Custom { name: name.to_owned(), data: data.to_vec() })
            },
            Ok(_) => payloads.push(Payload::Other),
            Err(_) => {
                payloads.push(Payload::Malformed);
                break;
            },
        }
    }
    payloads
}

/// `wasmparser::validate`: whether the bytes are a valid module.
#[verifier::external_body]
pub(crate) fn validate(wasm: &[u8]) -> (r: bool)
    ensures
        r == wasm_valid(wasm@),
{
    wasmparser::validate(wasm).is_ok()
}

/// The items of a sequence as mathematical values, in order.
pub open spec fn payload_views(payloads: Seq<Payload>) -> Seq<PayloadView> {
    payloads.map_values(|payload: Payload| payload@)
}

/// The bytes of the first custom section of this name. The search fails
/// where an item that does not parse comes before such a section, and
/// where the items end without one.
pub open spec fn find_custom(payloads: Seq<PayloadView>, name: Seq<char>) -> Result<
    Seq<u8>,
    ContextError,
>
    decreases payloads.len(),
{
    if payloads.len() == 0 {
        Err(ContextError::Missing)
    } else {
        match payloads.first() {
            PayloadView::Custom { name: found, data } if found == name => Ok(data),
            PayloadView::Malformed => Err(ContextError::Malformed),
            _ => find_custom(payloads.drop_first(), name),
        }
    }
}

/// The context that a binary holds: the bytes must parse as a module up to
/// a custom section under the context's name, and the bytes of the first
/// such section must deserialise.
pub open spec fn context_of(wasm: Seq<u8>) -> Result<Seq<(u32, u32)>, ContextError> {
    match find_custom(parsed_payloads(wasm), CONTEXT_SECTION@) {
        Err(e) => Err(e),
        Ok(data) => match offsets_decoding(data) {
            None => Err(ContextError::Undecodable),
            Some(offsets) => Ok(offsets),
        },
    }
}

/// Finds the bytes of the first custom section of this name.
pub fn find_section<'a>(payloads: &'a Vec<Payload>, name: &str) -> (r: Result<
    &'a Vec<u8>,
    ContextError,
>)
    ensures
        match r {
            Ok(data) => find_custom(payload_views(payloads@), name@) == Ok::<
                Seq<u8>,
                ContextError,
            >(data@),
            Err(e) => find_custom(payload_views(payloads@), name@) == Err::<
                Seq<u8>,
                ContextError,
            >(e),
        },
{
    let ghost all = payload_views(payloads@);
    let mut k: usize = 0;
    assert(all.skip(0) =~= all);
    while k < payloads.len()
        invariant
            0 <= k <= payloads.len(),
            all == payload_views(payloads@),
            find_custom(all, name@) == find_custom(all.skip(k as int), name@),
        decreases payloads.len() - k,
    {
        assert(all.skip(k as int).drop_first() =~= all.skip(k + 1));
        assert(all.skip(k as int).first() == payloads@[k as int]@);
        match &payloads[k] {
            Payload::Custom { name: found, data } => {
                if str_eq(found.as_str(), name) {
                    return Ok(data);
                }
            },
            Payload::Malformed => {
                return Err(ContextError::Malformed);
            },
            Payload::Other => {},
        }
        k += 1;
    }
    Err(ContextError::Missing)
}

impl SycContext {
    /// Create a new `SycContext`
    pub fn new() -> (r: Self)
        ensures
            r@ == Seq::<(u32, u32)>::empty(),
    {
        Self { literal_offsets: Vec::new() }
    }

    /// Serialises the context: the bytes are the number of pairs and the
    /// pairs, and `from_bytes` reads the same context back from them.
    pub fn to_bytes(&self) -> (bytes: Vec<u8>)
        ensures
            bytes@ == offsets_encoding(self@),
            offsets_decoding(bytes@) == Some(self@),
    {
        let bytes = serialize_offsets(&self.literal_offsets);
        let length = bytes.len();
        proof {
            law_context_round_trip(self@);
        }
        bytes
    }

    /// Reads a context from bytes that start with its serialised form.
    pub fn from_bytes(bytes: &[u8]) -> (r: Option<Self>)
        ensures
            match r {
                Some(context) => offsets_decoding(bytes@) == Some(context@),
                None => offsets_decoding(bytes@) is None,
            },
    {
        let length = bytes.len();
        match deserialize_offsets(bytes) {
            Some(literal_offsets) => {
                proof {
                    let found = choose|found: Seq<(u32, u32)>| #[trigger]
                        holds_offsets(bytes@, found);
                    lemma_offsets_unique(bytes@, found, literal_offsets@);
                }
                Some(Self { literal_offsets })
            },
            None => None,
        }
    }

    /// Picks the context out of the items of a module: the first custom
    /// section under the context's name, deserialised.
    pub fn from_payloads(payloads: &Vec<Payload>) -> (r: Result<Self, ContextError>)
        ensures
            match r {
                Ok(context) => find_custom(payload_views(payloads@), CONTEXT_SECTION@) is Ok
                    && offsets_decoding(
                    find_custom(payload_views(payloads@), CONTEXT_SECTION@)->Ok_0,
                ) == Some(context@),
                Err(e) => match find_custom(payload_views(payloads@), CONTEXT_SECTION@) {
                    Err(found) => e == found,
                    Ok(data) => e == ContextError::Undecodable && offsets_decoding(data)
                        is None,
                },
            },
    {
        match find_section(payloads, CONTEXT_SECTION) {
            Err(e) => Err(e),
            Ok(data) => match Self::from_bytes(data.as_slice()) {
                None => Err(ContextError::Undecodable),
                Some(context) => Ok(context),
            },
        }
    }

    /// Retrieve a `SycContext` from a sycamore binary.
    pub fn from_sycamore_binary(wasm: &[u8]) -> (r: Result<Self, ContextError>)
        ensures
            match r {
                Ok(context) => context_of(wasm@) == Ok::<Seq<(u32, u32)>, ContextError>(context@),
                Err(e) => context_of(wasm@) == Err::<Seq<(u32, u32)>, ContextError>(e),
            },
    {
        let payloads = parse_payloads(wasm);
        Self::from_payloads(&payloads)
    }
}

} // verus!
