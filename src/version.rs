use vstd::prelude::*;
use vstd::string::StringSliceAdditionalSpecFns;

use crate::reader::{fixed_bytes, M8Result, Reader, Writer};

verus! {

/// Firmware version of a song document (major.minor.patch).
#[derive(PartialEq, Eq, Structural, Clone, Copy, Debug)]
pub struct Version {
    pub major: u8,
    pub minor: u8,
    pub patch: u8,
}

/// True when `v` is `major.minor` or any later release.
pub open spec fn version_at_least(v: Version, major: u8, minor: u8) -> bool {
    v.major > major || (v.major == major && v.minor >= minor)
}

impl Default for Version {
    /// Firmware 4.0.0.
    fn default() -> (r: Version)
        ensures
            r == (Version { major: 4, minor: 0, patch: 0 }),
    {
        Self { major: 4, minor: 0, patch: 0 }
    }
}

impl Version {
    pub fn new(major: u8, minor: u8) -> (r: Version)
        ensures
            r == (Version { major, minor, patch: 0 }),
    {
        Version { major, minor, patch: 0 }
    }

    pub fn at_least(&self, major: u8, minor: u8) -> (r: bool)
        ensures
            r == version_at_least(*self, major, minor),
    {
        self.major > major || (self.major == major && self.minor >= minor)
    }

    /// True when this version is `other` or later (the patch level is not compared).
    pub fn after(&self, other: &Version) -> (r: bool)
        ensures
            r == version_at_least(*self, other.major, other.minor),
    {
        self.at_least(other.major, other.minor)
    }

    /// Size of the version header in a song file.
    pub const SIZE: usize = 14;

    /// The header bytes: the tag, the version, then two bytes of which the
    /// second is 0x10.
    pub open spec fn header_bytes(&self) -> Seq<u8> {
        fixed_bytes(seq![77u8, 56, 86, 69, 82, 83, 73, 79, 78], 10)
            + seq![((self.minor << 4u8) | self.patch) as u8, self.major, 0u8, 0x10u8]
    }

    pub fn write(&self, w: &mut Writer)
        ensures
            final(w).buffer@ == old(w).buffer@ + self.header_bytes(),
    {
        proof {
            reveal_strlit("M8VERSION");
            assert("M8VERSION".spec_bytes() =~= seq![77u8, 56, 86, 69, 82, 83, 73, 79, 78]) by {
                vstd::string::is_ascii_spec_bytes("M8VERSION");
            }
        }
        w.write_string("M8VERSION", 10);
        w.write((self.minor << 4) | self.patch);
        w.write(self.major);
        w.write(0);
        w.write(0x10);
        assert(final(w).buffer@ =~= old(w).buffer@ + self.header_bytes());
    }

    /// Reads a version header: the tag is skipped, the version comes from
    /// bytes 10 (minor, patch) and 11 (major).
    pub fn from_reader(reader: &mut Reader) -> (r: M8Result<Self>)
        requires
            old(reader).remaining() >= Version::SIZE,
        ensures
            r == Ok::<Version, crate::reader::ParseError>(Version {
                major: old(reader).ahead(11) & 0x0F,
                minor: (old(reader).ahead(10) >> 4u8) & 0x0F,
                patch: old(reader).ahead(10) & 0x0F,
            }),
            final(reader).advanced(old(reader), Version::SIZE as int),
    {
        let _version_string = reader.read_bytes(10);
        let lsb = reader.read();
        let msb = reader.read();
        let major = msb & 0x0F;
        let minor = (lsb >> 4) & 0x0F;
        let patch = lsb & 0x0F;
        reader.read_bytes(2);
        Ok(Self { major, minor, patch })
    }
}

} // verus!
