//! Configuration of the in-process cache: which resource kinds it stores
//! and how many messages it retains per channel.

use vstd::prelude::*;

verus! {

/// Bit for guild channels.
pub const RESOURCE_CHANNEL: u64 = 0x1;

/// Bit for guild emojis.
pub const RESOURCE_EMOJI: u64 = 0x2;

/// Bit for guild members.
pub const RESOURCE_MEMBER: u64 = 0x4;

/// Bit for presences.
pub const RESOURCE_PRESENCE: u64 = 0x8;

/// Bit for guild roles.
pub const RESOURCE_ROLE: u64 = 0x10;

/// Bit for voice states.
pub const RESOURCE_VOICE_STATE: u64 = 0x20;

/// Bit for messages.
pub const RESOURCE_MESSAGE: u64 = 0x40;

/// All resource bits.
pub const RESOURCE_ALL: u64 = 0x7f;

/// A set of resource kinds, one bit each.
#[derive(Copy, Clone, PartialEq, Eq, Structural, Debug)]
pub struct ResourceType {
    pub bits: u64,
}

impl ResourceType {
    /// Whether every kind in `other` is also in `self`.
    pub open spec fn spec_contains(self, other: ResourceType) -> bool {
        self.bits & other.bits == other.bits
    }

    /// Returns whether every kind in `other` is also in `self`.
    pub fn contains(self, other: ResourceType) -> (r: bool)
        ensures
            r == self.spec_contains(other),
    {
        self.bits & other.bits == other.bits
    }
}

/// Configuration of the cache.
#[derive(Copy, Clone, PartialEq, Eq, Structural, Debug)]
pub struct Config {
    /// Which resource kinds inbound events may store.
    pub resource_types: ResourceType,
    /// How many messages each channel retains; the oldest are evicted first.
    pub message_cache_size: usize,
}

impl Config {
    /// The resource kinds that inbound events may store.
    pub fn resource_types(&self) -> (r: ResourceType)
        ensures
            r == self.resource_types,
    {
        self.resource_types
    }

    /// The per-channel message retention bound.
    pub fn message_cache_size(&self) -> (r: usize)
        ensures
            r == self.message_cache_size,
    {
        self.message_cache_size
    }
}

impl Default for Config {
    /// Stores every resource kind and keeps 100 messages per channel.
    fn default() -> (r: Config)
        ensures
            r.resource_types.bits == RESOURCE_ALL,
            r.message_cache_size == 100,
    {
        Config { resource_types: ResourceType { bits: RESOURCE_ALL }, message_cache_size: 100 }
    }
}

/// Builds a cache configuration step by step.
#[derive(Copy, Clone, Debug)]
pub struct InMemoryCacheBuilder {
    config: Config,
}

impl InMemoryCacheBuilder {
    /// Starts from the default configuration.
    pub fn new() -> (r: Self)
        ensures
            r.spec_config().resource_types.bits == RESOURCE_ALL,
            r.spec_config().message_cache_size == 100,
    {
        InMemoryCacheBuilder { config: Config::default() }
    }

    /// The configuration built so far.
    pub closed spec fn spec_config(&self) -> Config {
        self.config
    }

    /// Restricts the cache to the given resource kinds.
    pub fn resource_types(self, resource_types: ResourceType) -> (r: Self)
        ensures
            r.spec_config() == (Config { resource_types, ..self.spec_config() }),
    {
        InMemoryCacheBuilder { config: Config { resource_types, ..self.config } }
    }

    /// Sets the per-channel message retention bound.
    pub fn message_cache_size(self, size: usize) -> (r: Self)
        ensures
            r.spec_config() == (Config { message_cache_size: size, ..self.spec_config() }),
    {
        InMemoryCacheBuilder { config: Config { message_cache_size: size, ..self.config } }
    }

    /// The finished configuration.
    pub fn build_config(self) -> (r: Config)
        ensures
            r == self.spec_config(),
    {
        self.config
    }
}

} // verus!
