use vstd::prelude::*;

verus! {

/// A semantic version: major, minor and patch numbers.
///
/// Its model is the triple `(major, minor, patch)`; two versions are equal
/// exactly when their triples are.
#[derive(Debug, Clone, Copy, PartialEq, Eq, Structural)]
pub struct Version {
    major: u16,
    minor: u16,
    patch: u16,
}

/// The number after `n` in a 16-bit component: one more, where the largest
/// value wraps round to zero.
pub open spec fn successor(n: u16) -> u16 {
    ((n as int + 1) % 0x1_0000) as u16
}

/// Two versions are compatible when they share the major number.
pub open spec fn compatible(a: (u16, u16, u16), b: (u16, u16, u16)) -> bool {
    a.0 == b.0
}

impl View for Version {
    type V = (u16, u16, u16);

    closed spec fn view(&self) -> (u16, u16, u16) {
        (self.major, self.minor, self.patch)
    }
}

fn next_component(n: u16) -> (r: u16)
    ensures
        r == successor(n),
{
    if n == u16::MAX {
        0
    } else {
        n + 1
    }
}

impl Version {
    /// Builds the version `major.minor.patch`.
    pub fn new(major: u16, minor: u16, patch: u16) -> (r: Self)
        ensures
            r@ == (major, minor, patch),
    {
        Self { major, minor, patch }
    }

    /// The major number.
    pub fn major(&self) -> (r: u16)
        ensures
            r == self@.0,
    {
        self.major
    }

    /// The minor number.
    pub fn minor(&self) -> (r: u16)
        ensures
            r == self@.1,
    {
        self.minor
    }

    /// The patch number.
    pub fn patch(&self) -> (r: u16)
        ensures
            r == self@.2,
    {
        self.patch
    }

    /// Moves to the next patch; major and minor stay. A patch of 65535
    /// wraps round to 0.
    pub fn increment_patch(&mut self)
        ensures
            final(self)@ == (old(self)@.0, old(self)@.1, successor(old(self)@.2)),
    {
        self.patch = next_component(self.patch);
    }

    /// Moves to the next minor number and resets the patch to 0; the major
    /// number stays. A minor number of 65535 wraps round to 0.
    pub fn increment_minor(&mut self)
        ensures
            final(self)@ == (old(self)@.0, successor(old(self)@.1), 0u16),
    {
        self.minor = next_component(self.minor);
        self.patch = 0;
    }

    /// Moves to the next major number and resets minor and patch to 0.
    /// A major number of 65535 wraps round to 0.
    pub fn increment_major(&mut self)
        ensures
            final(self)@ == (successor(old(self)@.0), 0u16, 0u16),
    {
        self.major = next_component(self.major);
        self.minor = 0;
        self.patch = 0;
    }

    /// Whether `other` is compatible with this version: the two share the
    /// major number, whatever their minor and patch numbers.
    pub fn is_compatible(&self, other: &Version) -> (r: bool)
        ensures
            r == compatible(self@, other@),
    {
        self.major == other.major
    }

    /// Two versions are equal exactly when their models are.
    pub proof fn lemma_eq_iff_view_eq(a: Version, b: Version)
        ensures
            (a == b) <==> (a@ == b@),
    {
    }
}

impl Default for Version {
    /// The version `0.0.0`.
    fn default() -> (r: Self)
        ensures
            r@ == (0u16, 0u16, 0u16),
    {
        Self { major: 0, minor: 0, patch: 0 }
    }
}

impl From<(u16, u16, u16)> for Version {
    /// The version whose major, minor and patch numbers are the tuple's
    /// items, in order.
    fn from(t: (u16, u16, u16)) -> (r: Self)
        ensures
            r@ == t,
    {
        Version::new(t.0, t.1, t.2)
    }
}

impl vstd::std_specs::convert::FromSpecImpl<(u16, u16, u16)> for Version {
    open spec fn obeys_from_spec() -> bool {
        true
    }

    closed spec fn from_spec(t: (u16, u16, u16)) -> Version {
        Version { major: t.0, minor: t.1, patch: t.2 }
    }
}

/// A type that reports the version of what it stands for.
pub trait VersionProvider {
    /// The version of the implementing type.
    fn version() -> Version;
}

} // verus!
