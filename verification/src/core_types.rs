//! Module identity, versions, dependencies and lifecycle states shared by the
//! core registry and lifecycle manager.

use crate::text::{is_blank, str_eq, str_is_blank};
use vstd::prelude::*;

verus! {

/// Identifier of a module: a non-blank text.
#[derive(Clone, Debug, PartialEq, Eq, Hash, PartialOrd, Ord)]
pub struct ModuleId(String);

/// Identifier of a capability a module provides or requires: a non-blank text.
#[derive(Clone, Debug, PartialEq, Eq, Hash, PartialOrd, Ord)]
pub struct CapabilityId(String);

impl View for ModuleId {
    type V = Seq<char>;

    closed spec fn view(&self) -> Seq<char> {
        self.0@
    }
}

impl View for CapabilityId {
    type V = Seq<char>;

    closed spec fn view(&self) -> Seq<char> {
        self.0@
    }
}

impl ModuleId {
    /// Creates a module identifier; blank values are rejected.
    pub fn new(value: &str) -> (r: Result<Self, &'static str>)
        ensures
            is_blank(value@) <==> r is Err,
            r matches Ok(id) ==> id@ == value@,
            r matches Err(e) ==> e@ == "module id cannot be empty"@,
    {
        if str_is_blank(value) {
            return Err("module id cannot be empty");
        }
        Ok(ModuleId(value.to_owned()))
    }

    pub fn as_str(&self) -> (r: &str)
        ensures
            r@ == self@,
    {
        self.0.as_str()
    }

    /// A copy with the same text.
    pub fn duplicate(&self) -> (r: ModuleId)
        ensures
            r == *self,
            r@ == self@,
    {
        ModuleId(self.0.clone())
    }

    /// Whether both identifiers hold the same text.
    pub fn same(&self, other: &ModuleId) -> (r: bool)
        ensures
            r == (self@ == other@),
    {
        str_eq(self.0.as_str(), other.0.as_str())
    }
}

impl CapabilityId {
    /// Creates a capability identifier; blank values are rejected.
    pub fn new(value: &str) -> (r: Result<Self, &'static str>)
        ensures
            is_blank(value@) <==> r is Err,
            r matches Ok(id) ==> id@ == value@,
            r matches Err(e) ==> e@ == "capability id cannot be empty"@,
    {
        if str_is_blank(value) {
            return Err("capability id cannot be empty");
        }
        Ok(CapabilityId(value.to_owned()))
    }

    pub fn as_str(&self) -> (r: &str)
        ensures
            r@ == self@,
    {
        self.0.as_str()
    }

    /// A copy with the same text.
    pub fn duplicate(&self) -> (r: CapabilityId)
        ensures
            r == *self,
            r@ == self@,
    {
        CapabilityId(self.0.clone())
    }

    /// Whether both identifiers hold the same text.
    pub fn same(&self, other: &CapabilityId) -> (r: bool)
        ensures
            r == (self@ == other@),
    {
        str_eq(self.0.as_str(), other.0.as_str())
    }
}

/// Version of the core API: same major, and at most the current minor.
#[derive(Clone, Copy, Debug, PartialEq, Eq, Hash, PartialOrd, Ord, Structural)]
pub struct ApiVersion {
    pub major: u16,
    pub minor: u16,
}

impl ApiVersion {
    pub fn new(major: u16, minor: u16) -> (r: Self)
        ensures
            r == (ApiVersion { major, minor }),
    {
        ApiVersion { major, minor }
    }

    /// A module built for `required` runs on this API: the major versions
    /// agree and the required minor version is not newer.
    pub open spec fn spec_supports(self, required: ApiVersion) -> bool {
        self.major == required.major && required.minor <= self.minor
    }

    pub fn supports(self, required: ApiVersion) -> (r: bool)
        ensures
            r == self.spec_supports(required),
    {
        self.major == required.major && required.minor <= self.minor
    }
}

/// API version implemented by this core.
pub fn core_api_version() -> (r: ApiVersion)
    ensures
        r == (ApiVersion { major: 1, minor: 0 }),
{
    ApiVersion::new(1, 0)
}

/// A dependency on one module, or on whichever module provides a capability.
#[derive(Clone, Debug, PartialEq, Eq)]
pub enum Dependency {
    Module(ModuleId),
    Capability(CapabilityId),
}

/// How a module is run relative to the core process.
#[derive(Clone, Copy, Debug, PartialEq, Eq, Structural)]
pub enum IsolationMode {
    InProcess,
    Subprocess,
}

/// Validated metadata of one module.
#[derive(Clone, Debug, PartialEq, Eq)]
pub struct ModuleDescriptor {
    pub id: ModuleId,
    pub name: String,
    pub version: String,
    pub required_core_api: ApiVersion,
    pub provides: Vec<CapabilityId>,
    pub requires: Vec<Dependency>,
    pub optional: bool,
    pub isolation: IsolationMode,
}

/// Lifecycle state of an installed module.
#[derive(Clone, Copy, Debug, PartialEq, Eq, Structural)]
pub enum ModuleState {
    Registered,
    Initialized,
    Running,
    Stopping,
    Stopped,
    Failed,
}

/// The text of a dependency, and whether it names a module.
pub open spec fn dependency_view(d: Dependency) -> (bool, Seq<char>) {
    match d {
        Dependency::Module(m) => (true, m@),
        Dependency::Capability(c) => (false, c@),
    }
}

/// The texts of a sequence of capabilities.
pub open spec fn capability_views(s: Seq<CapabilityId>) -> Seq<Seq<char>> {
    s.map_values(|c: CapabilityId| c@)
}

/// The views of a sequence of dependencies.
pub open spec fn dependency_views(s: Seq<Dependency>) -> Seq<(bool, Seq<char>)> {
    s.map_values(|d: Dependency| dependency_view(d))
}

/// Two descriptors carry the same metadata.
pub open spec fn same_descriptor(a: ModuleDescriptor, b: ModuleDescriptor) -> bool {
    &&& a.id@ == b.id@
    &&& a.name@ == b.name@
    &&& a.version@ == b.version@
    &&& a.required_core_api == b.required_core_api
    &&& capability_views(a.provides@) == capability_views(b.provides@)
    &&& dependency_views(a.requires@) == dependency_views(b.requires@)
    &&& a.optional == b.optional
    &&& a.isolation == b.isolation
}

fn same_dependency(a: &Dependency, b: &Dependency) -> (r: bool)
    ensures
        r == (dependency_view(*a) == dependency_view(*b)),
{
    match (a, b) {
        (Dependency::Module(x), Dependency::Module(y)) => x.same(y),
        (Dependency::Capability(x), Dependency::Capability(y)) => x.same(y),
        _ => false,
    }
}

/// Whether two descriptors carry the same metadata.
pub fn descriptors_match(a: &ModuleDescriptor, b: &ModuleDescriptor) -> (r: bool)
    ensures
        r == same_descriptor(*a, *b),
{
    if !a.id.same(&b.id) || !str_eq(a.name.as_str(), b.name.as_str()) || !str_eq(
        a.version.as_str(),
        b.version.as_str(),
    ) || a.required_core_api != b.required_core_api || a.optional != b.optional || a.isolation
        != b.isolation {
        return false;
    }
    if a.provides.len() != b.provides.len() {
        proof {
            if capability_views(a.provides@) == capability_views(b.provides@) {
                assert(capability_views(a.provides@).len() == capability_views(b.provides@).len());
            }
        }
        return false;
    }
    let mut i: usize = 0;
    while i < a.provides.len()
        invariant
            a.provides@.len() == b.provides@.len(),
            i <= a.provides@.len(),
            forall|k: int| 0 <= k < i ==> a.provides@[k]@ == b.provides@[k]@,
        decreases a.provides@.len() - i,
    {
        if !a.provides[i].same(&b.provides[i]) {
            proof {
                if capability_views(a.provides@) == capability_views(b.provides@) {
                    assert(capability_views(a.provides@)[i as int] == capability_views(b.provides@)[i as int]);
                }
            }
            return false;
        }
        i = i + 1;
    }
    proof {
        assert(capability_views(a.provides@) =~= capability_views(b.provides@));
    }
    if a.requires.len() != b.requires.len() {
        proof {
            if dependency_views(a.requires@) == dependency_views(b.requires@) {
                assert(dependency_views(a.requires@).len() == dependency_views(b.requires@).len());
            }
        }
        return false;
    }
    let mut i: usize = 0;
    while i < a.requires.len()
        invariant
            a.requires@.len() == b.requires@.len(),
            i <= a.requires@.len(),
            forall|k: int| 0 <= k < i ==> dependency_view(a.requires@[k]) == dependency_view(b.requires@[k]),
        decreases a.requires@.len() - i,
    {
        if !same_dependency(&a.requires[i], &b.requires[i]) {
            proof {
                if dependency_views(a.requires@) == dependency_views(b.requires@) {
                    assert(dependency_views(a.requires@)[i as int] == dependency_views(b.requires@)[i as int]);
                }
            }
            return false;
        }
        i = i + 1;
    }
    proof {
        assert(dependency_views(a.requires@) =~= dependency_views(b.requires@));
    }
    true
}

impl ModuleDescriptor {
    /// A copy carrying the same metadata.
    pub fn duplicate(&self) -> (r: ModuleDescriptor)
        ensures
            same_descriptor(r, *self),
            r.id == self.id,
    {
        let mut provides: Vec<CapabilityId> = Vec::new();
        let mut i: usize = 0;
        while i < self.provides.len()
            invariant
                i <= self.provides@.len(),
                provides@.len() == i,
                forall|k: int| 0 <= k < i ==> (#[trigger] provides@[k])@ == self.provides@[k]@,
            decreases self.provides@.len() - i,
        {
            provides.push(self.provides[i].duplicate());
            i = i + 1;
        }
        let mut dependencies: Vec<Dependency> = Vec::new();
        let mut j: usize = 0;
        while j < self.requires.len()
            invariant
                j <= self.requires@.len(),
                dependencies@.len() == j,
                forall|k: int| 0 <= k < j ==> dependency_view(#[trigger] dependencies@[k]) == dependency_view(
                    self.requires@[k],
                ),
            decreases self.requires@.len() - j,
        {
            let d = match &self.requires[j] {
                Dependency::Module(m) => Dependency::Module(m.duplicate()),
                Dependency::Capability(c) => Dependency::Capability(c.duplicate()),
            };
            dependencies.push(d);
            j = j + 1;
        }
        proof {
            assert(capability_views(provides@) =~= capability_views(self.provides@));
            assert(dependency_views(dependencies@) =~= dependency_views(self.requires@));
        }
        ModuleDescriptor {
            id: self.id.duplicate(),
            name: self.name.clone(),
            version: self.version.clone(),
            required_core_api: self.required_core_api,
            provides,
            requires: dependencies,
            optional: self.optional,
            isolation: self.isolation,
        }
    }
}

} // verus!
