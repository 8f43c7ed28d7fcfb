//! The application's data model: versions, locales, identifiers and
//! request parameters.
use vstd::prelude::*;

verus! {

/// A version number: major, minor and patch.
#[derive(Debug, Clone, Copy, PartialEq, Eq)]
pub struct Version {
    major: u32,
    minor: u32,
    patch: u32,
}

impl Version {
    pub closed spec fn spec_major(&self) -> u32 {
        self.major
    }

    pub closed spec fn spec_minor(&self) -> u32 {
        self.minor
    }

    pub closed spec fn spec_patch(&self) -> u32 {
        self.patch
    }

    /// `major.0.0`
    pub fn from_major(major: u32) -> (r: Version)
        ensures
            r.spec_major() == major,
            r.spec_minor() == 0,
            r.spec_patch() == 0,
    {
        Version { major, minor: 0, patch: 0 }
    }

    /// `0.minor.0`
    pub fn from_minor(minor: u32) -> (r: Version)
        ensures
            r.spec_major() == 0,
            r.spec_minor() == minor,
            r.spec_patch() == 0,
    {
        Version { major: 0, minor, patch: 0 }
    }

    /// `0.0.patch`
    pub fn from_patch(patch: u32) -> (r: Version)
        ensures
            r.spec_major() == 0,
            r.spec_minor() == 0,
            r.spec_patch() == patch,
    {
        Version { major: 0, minor: 0, patch }
    }

    pub fn major(&self) -> (r: u32)
        ensures
            r == self.spec_major(),
    {
        self.major
    }

    pub fn minor(&self) -> (r: u32)
        ensures
            r == self.spec_minor(),
    {
        self.minor
    }

    pub fn patch(&self) -> (r: u32)
        ensures
            r == self.spec_patch(),
    {
        self.patch
    }

    /// Raises the major number by one.
    pub fn increment_major(&mut self)
        requires
            old(self).spec_major() < u32::MAX,
        ensures
            final(self).spec_major() == old(self).spec_major() + 1,
            final(self).spec_minor() == old(self).spec_minor(),
            final(self).spec_patch() == old(self).spec_patch(),
    {
        self.major = self.major + 1;
    }

    /// Raises the minor number by one.
    pub fn increment_minor(&mut self)
        requires
            old(self).spec_minor() < u32::MAX,
        ensures
            final(self).spec_major() == old(self).spec_major(),
            final(self).spec_minor() == old(self).spec_minor() + 1,
            final(self).spec_patch() == old(self).spec_patch(),
    {
        self.minor = self.minor + 1;
    }

    /// Raises the patch number by one.
    pub fn increment_patch(&mut self)
        requires
            old(self).spec_patch() < u32::MAX,
        ensures
            final(self).spec_major() == old(self).spec_major(),
            final(self).spec_minor() == old(self).spec_minor(),
            final(self).spec_patch() == old(self).spec_patch() + 1,
    {
        self.patch = self.patch + 1;
    }
}

/// An address of the form `an://domain:topic`.
#[derive(Debug)]
pub struct Url(pub String);

/// A signature in text form.
#[derive(Debug)]
pub struct Signature(pub String);

#[derive(Debug)]
pub struct Metadata {
    pub name: String,
    pub log_uri: String,
    pub uri: String,
}

/// An access scope that a service may ask for.
#[derive(Debug, Clone, Copy, PartialEq, Eq)]
pub enum Scope {
    ReadProfile,
    WriteEvent,
}

#[derive(Debug, Clone, Copy, PartialEq, Eq, Default)]
pub enum Locale {
    #[default]
    En,
    Fr,
}

/// Locales in order of preference.
#[derive(Debug)]
pub struct Locales(pub Vec<Locale>);

impl Locales {
    /// The locales with `locale` appended.
    pub fn add_locale(self, locale: Locale) -> (r: Locales)
        ensures
            r.0@ == self.0@.push(locale),
    {
        let mut v = self.0;
        v.push(locale);
        Locales(v)
    }
}

/// One parameter of a query string.
#[derive(Debug)]
pub struct QueryParam {
    pub key: String,
    pub val: String,
}

/// A key of the distributed store.
#[derive(Debug)]
pub struct Key {
    pub bytes: Vec<u8>,
}

} // verus!
