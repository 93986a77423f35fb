//! Message identifiers.
//!
//! A message id is a 64-bit value split in two parts: the lowest three bits
//! are flags (bit 0: kind, bit 1: context, bit 2: class), the upper 61 bits
//! hold a monotonically increasing generation counter. Ids are totally
//! ordered by their 64-bit value, so ids allocated later compare greater
//! than ids allocated earlier; both priority queues use the id as a
//! deterministic tie-breaker.

use vstd::prelude::*;

verus! {

/// Number of id bits used as flags.
pub const BITMASK_LEN: u32 = 3;

/// Largest generation count that still leaves the three flag bits intact:
/// the generator must stay below `1 << 61`.
pub const MAX_GENERATION: u64 = 0x2000_0000_0000_0000;

/// The message kind: a request or a response (id bit 0).
#[derive(Clone, Copy, Debug, PartialEq, Eq, Structural)]
pub enum Kind {
    Request,
    Response,
}

/// The message context: enqueued inbound or outbound (id bit 1).
#[derive(Clone, Copy, Debug, PartialEq, Eq, Structural)]
pub enum Context {
    Inbound,
    Outbound,
}

/// The message class: guaranteed response or best effort (id bit 2).
#[derive(Clone, Copy, Debug, PartialEq, Eq, Structural)]
pub enum Class {
    GuaranteedResponse,
    BestEffort,
}

/// The flag bit encoding a kind.
pub open spec fn kind_bit(kind: Kind) -> u64 {
    match kind {
        Kind::Request => 0,
        Kind::Response => 1,
    }
}

/// The flag bit encoding a context.
pub open spec fn context_bit(context: Context) -> u64 {
    match context {
        Context::Inbound => 0,
        Context::Outbound => 2,
    }
}

/// The flag bit encoding a class.
pub open spec fn class_bit(class: Class) -> u64 {
    match class {
        Class::GuaranteedResponse => 0,
        Class::BestEffort => 4,
    }
}

/// The three flag bits of an id for the given kind, context and class.
pub open spec fn flags_value(kind: Kind, context: Context, class: Class) -> u64 {
    (kind_bit(kind) + context_bit(context) + class_bit(class)) as u64
}

/// The raw id composed from three flag bits and a generation count.
pub open spec fn compose_raw(flags: u64, generation: u64) -> u64 {
    flags | (generation << BITMASK_LEN)
}

/// The flag part of a raw id.
pub open spec fn raw_flags(raw: u64) -> u64 {
    raw & 7
}

/// The generation part of a raw id.
pub open spec fn raw_generation(raw: u64) -> u64 {
    raw >> BITMASK_LEN
}

/// Whether a raw id carries the response kind flag.
pub open spec fn raw_is_response(raw: u64) -> bool {
    raw & 1 == 1
}

/// Whether a raw id carries the outbound context flag.
pub open spec fn raw_is_outbound(raw: u64) -> bool {
    raw & 2 == 2
}

/// Whether a raw id carries the best-effort class flag.
pub open spec fn raw_is_best_effort(raw: u64) -> bool {
    raw & 4 == 4
}

/// Composing flags below 8 with a generation below `1 << 61` is lossless:
/// both parts can be read back from the raw id.
pub proof fn lemma_compose_parts(flags: u64, generation: u64)
    by (bit_vector)
    requires
        flags < 8,
        generation < 0x2000_0000_0000_0000u64,
    ensures
        (flags | (generation << 3u32)) & 7 == flags,
        (flags | (generation << 3u32)) >> 3u32 == generation,
{
}

/// An id with a smaller generation part is smaller outright, whatever the
/// flag bits are.
pub proof fn lemma_generation_order(a: u64, b: u64)
    by (bit_vector)
    requires
        a >> 3u32 < b >> 3u32,
    ensures
        a < b,
{
}

/// How the flag value built from the three attributes decomposes into the
/// three bit tests on a raw id carrying it.
pub proof fn lemma_flags_decompose(b0: u64, b1: u64, b2: u64, raw: u64)
    by (bit_vector)
    requires
        b0 < 2,
        b1 < 2,
        b2 < 2,
        raw & 7 == (b0 + 2 * b1 + 4 * b2) as u64,
    ensures
        (raw & 1 == 1) == (b0 == 1),
        (raw & 2 == 2) == (b1 == 1),
        (raw & 4 == 4) == (b2 == 1),
{
}

/// A unique generated identifier for a message held in a pool, which also
/// encodes the message kind, context and class in its low three bits.
#[derive(Clone, Copy, Debug, PartialEq, Eq, PartialOrd, Ord, Structural)]
pub struct MessageId(pub u64);

impl MessageId {
    /// Composes an id from its three attributes and a generation count.
    pub fn new(kind: Kind, context: Context, class: Class, generator: u64) -> (r: Self)
        requires
            generator < MAX_GENERATION,
        ensures
            r.0 == compose_raw(flags_value(kind, context, class), generator),
            raw_flags(r.0) == flags_value(kind, context, class),
            raw_generation(r.0) == generator,
            raw_is_response(r.0) == (kind is Response),
            raw_is_outbound(r.0) == (context is Outbound),
            raw_is_best_effort(r.0) == (class is BestEffort),
    {
        let k: u64 = match kind {
            Kind::Request => 0,
            Kind::Response => 1,
        };
        let c: u64 = match context {
            Context::Inbound => 0,
            Context::Outbound => 2,
        };
        let l: u64 = match class {
            Class::GuaranteedResponse => 0,
            Class::BestEffort => 4,
        };
        let flags: u64 = k + c + l;
        let raw: u64 = flags | (generator << BITMASK_LEN);
        proof {
            lemma_compose_parts(flags, generator);
            lemma_flags_decompose(k, c / 2, l / 4, raw);
        }
        MessageId(raw)
    }

    /// Whether this id was generated for a response.
    #[verifier::when_used_as_spec(spec_is_response)]
    pub fn is_response(&self) -> (r: bool)
        ensures
            r == raw_is_response(self.0),
    {
        self.0 & 1 == 1
    }

    /// Whether this id was generated for an outbound message.
    #[verifier::when_used_as_spec(spec_is_outbound)]
    pub fn is_outbound(&self) -> (r: bool)
        ensures
            r == raw_is_outbound(self.0),
    {
        self.0 & 2 == 2
    }

    /// Whether this id was generated for a best-effort message.
    #[verifier::when_used_as_spec(spec_is_best_effort)]
    pub fn is_best_effort(&self) -> (r: bool)
        ensures
            r == raw_is_best_effort(self.0),
    {
        self.0 & 4 == 4
    }

    /// Whether this id was generated for a response.
    pub open spec fn spec_is_response(&self) -> bool {
        raw_is_response(self.0)
    }

    /// Whether this id was generated for an outbound message.
    pub open spec fn spec_is_outbound(&self) -> bool {
        raw_is_outbound(self.0)
    }

    /// Whether this id was generated for a best-effort message.
    pub open spec fn spec_is_best_effort(&self) -> bool {
        raw_is_best_effort(self.0)
    }
}

/// A placeholder for a potential late inbound best-effort response.
///
/// Implements neither `Clone` nor `Copy`, so that the reserved id can be
/// filled in at most once.
pub struct ResponsePlaceholder(MessageId);

impl ResponsePlaceholder {
    /// The reserved id inside.
    pub closed spec fn spec_id(&self) -> MessageId {
        self.0
    }

    /// Wraps a freshly reserved id; only the pool reserves ids.
    pub(crate) fn reserve(id: MessageId) -> (r: Self)
        ensures
            r.spec_id() == id,
    {
        ResponsePlaceholder(id)
    }

    /// Returns the message id within.
    pub fn id(&self) -> (r: MessageId)
        ensures
            r == self.spec_id(),
    {
        self.0
    }
}

} // verus!
