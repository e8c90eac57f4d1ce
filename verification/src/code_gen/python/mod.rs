//! Generating Python bindings.
pub mod code;
pub mod container;
pub mod files;
pub mod imports;
pub mod runtime;
pub mod types;

use vstd::prelude::*;

verus! {

/// Settings for bindings generation.
///
/// Serialization, deserialization and runtime type checks can each be
/// switched on or off; less code is generated where an option is off.
///
/// By default only deserialization is on. [`GenerationSettings::enable_all`]
/// switches everything on.
pub struct GenerationSettings {
    pub(crate) ser: bool,
    pub(crate) des: bool,
    pub(crate) runtime_type_checks: bool,
}

impl GenerationSettings {
    /// Settings with every option on.
    pub fn enable_all() -> (r: Self)
        ensures
            r.serializes() && r.deserializes() && r.checks_types(),
    {
        GenerationSettings { ser: true, des: true, runtime_type_checks: true }
    }

    /// Switches the generation of serialization code on or off.
    pub fn serialization(self, enabled: bool) -> (r: Self)
        ensures
            r.serializes() == enabled,
            r.deserializes() == self.deserializes(),
            r.checks_types() == self.checks_types(),
    {
        let mut s = self;
        s.ser = enabled;
        s
    }

    /// Switches the generation of deserialization code on or off.
    pub fn deserialization(self, enabled: bool) -> (r: Self)
        ensures
            r.deserializes() == enabled,
            r.serializes() == self.serializes(),
            r.checks_types() == self.checks_types(),
    {
        let mut s = self;
        s.des = enabled;
        s
    }

    /// Switches the generation of runtime type checks on or off.
    ///
    /// Without them serialization runs faster.
    pub fn runtime_type_checks(self, enabled: bool) -> (r: Self)
        ensures
            r.checks_types() == enabled,
            r.serializes() == self.serializes(),
            r.deserializes() == self.deserializes(),
    {
        let mut s = self;
        s.runtime_type_checks = enabled;
        s
    }

    /// Whether serialization code is generated.
    pub closed spec fn serializes(&self) -> bool {
        self.ser
    }

    /// Whether deserialization code is generated.
    pub closed spec fn deserializes(&self) -> bool {
        self.des
    }

    /// Whether runtime type checks are generated.
    pub closed spec fn checks_types(&self) -> bool {
        self.runtime_type_checks
    }
}

impl Default for GenerationSettings {
    /// Only deserialization on.
    fn default() -> (r: Self)
        ensures
            !r.serializes() && r.deserializes() && !r.checks_types(),
    {
        GenerationSettings { ser: false, des: true, runtime_type_checks: false }
    }
}

} // verus!
