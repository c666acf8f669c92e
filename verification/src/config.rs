use vstd::prelude::*;
use crate::Endian;

verus! {

/// Default four-byte magic identifier.
pub const DEFAULT_MAGIC: [u8; 4] = [0x73, 0x76, 0x73, 0x64];

/// Construction-time parameters for an encoder or decoder: magic bytes and a
/// version byte (written only by [`crate::Encoder::finalize_with_magic_version`])
/// and the byte order for multi-byte scalar fields (never written to the wire).
#[derive(Debug, Clone, PartialEq, Eq)]
pub struct Config {
    /// Four-byte magic identifier, written ahead of the payload on request.
    pub magic: [u8; 4],
    /// Protocol version byte, written ahead of the payload on request.
    pub version: u8,
    /// Byte order for multi-byte scalar fields; not serialized.
    pub endian: Endian,
}

impl Config {
    /// Returns a new builder; unset fields default to the default magic,
    /// version 1 and little-endian.
    pub fn builder() -> (r: ConfigBuilder)
        ensures
            r.magic is None,
            r.version is None,
            r.endian is None,
    {
        ConfigBuilder { magic: None, version: None, endian: None }
    }
}

impl Default for Config {
    /// The default configuration: default magic, version 1, little-endian.
    fn default() -> (r: Self)
        ensures
            r.magic@ == DEFAULT_MAGIC@,
            r.version == 1u8,
            r.endian == Endian::Little,
    {
        Config { magic: DEFAULT_MAGIC, version: 1, endian: Endian::Little }
    }
}

/// Builder for [`Config`].
#[derive(Debug, Clone)]
pub struct ConfigBuilder {
    /// Magic bytes chosen so far, if any.
    pub magic: Option<[u8; 4]>,
    /// Version byte chosen so far, if any.
    pub version: Option<u8>,
    /// Byte order chosen so far, if any.
    pub endian: Option<Endian>,
}

impl Default for ConfigBuilder {
    /// A builder with no field chosen yet.
    fn default() -> (r: Self)
        ensures
            r.magic is None,
            r.version is None,
            r.endian is None,
    {
        ConfigBuilder { magic: None, version: None, endian: None }
    }
}

impl ConfigBuilder {
    /// Sets the magic bytes.
    pub fn magic(self, magic: [u8; 4]) -> (r: Self)
        ensures
            r.magic == Some(magic),
            r.version == self.version,
            r.endian == self.endian,
    {
        ConfigBuilder { magic: Some(magic), ..self }
    }

    /// Sets the protocol version.
    pub fn version(self, version: u8) -> (r: Self)
        ensures
            r.magic == self.magic,
            r.version == Some(version),
            r.endian == self.endian,
    {
        ConfigBuilder { version: Some(version), ..self }
    }

    /// Sets the byte order.
    pub fn endian(self, endian: Endian) -> (r: Self)
        ensures
            r.magic == self.magic,
            r.version == self.version,
            r.endian == Some(endian),
    {
        ConfigBuilder { endian: Some(endian), ..self }
    }

    /// Sets the byte order to big-endian.
    pub fn big(self) -> (r: Self)
        ensures
            r.magic == self.magic,
            r.version == self.version,
            r.endian == Some(Endian::Big),
    {
        self.endian(Endian::Big)
    }

    /// Sets the byte order to little-endian.
    pub fn little(self) -> (r: Self)
        ensures
            r.magic == self.magic,
            r.version == self.version,
            r.endian == Some(Endian::Little),
    {
        self.endian(Endian::Little)
    }

    /// Sets the byte order to the host's native order.
    pub fn native(self) -> (r: Self)
        ensures
            r.magic == self.magic,
            r.version == self.version,
            r.endian == Some(Endian::Native),
    {
        self.endian(Endian::Native)
    }

    /// Builds a [`Config`]; unset fields take the defaults.
    pub fn build(self) -> (r: Config)
        ensures
            r.magic@ == (if self.magic is Some { self.magic->0@ } else { DEFAULT_MAGIC@ }),
            r.version == (if self.version is Some { self.version->0 } else { 1u8 }),
            r.endian == (if self.endian is Some { self.endian->0 } else { Endian::Little }),
    {
        Config {
            magic: match self.magic {
                Some(m) => m,
                None => DEFAULT_MAGIC,
            },
            version: match self.version {
                Some(v) => v,
                None => 1,
            },
            endian: match self.endian {
                Some(e) => e,
                None => Endian::Little,
            },
        }
    }
}

} // verus!
