use vstd::prelude::*;

use crate::device_security::{
    authorize_device_spec, DeviceRecord, DeviceRecordView, DeviceRegistry, DeviceSecurityError,
    DeviceTrust,
};
use crate::security::Permission;
use crate::text::{
    bytes_lt, compare_bytes, is_blank, is_blank_spec, lemma_bytes_lt_transitive,
    lemma_utf8_injective, utf8_bytes, ByteOrder,
};

verus! {

/// Stable metadata for a NAVEEN node. Hardware type and transport are
/// descriptive data, not hardcoded enums.
#[derive(Debug, Clone, PartialEq, Eq)]
pub struct NodeDescriptor {
    pub node_id: String,
    pub node_type: String,
    pub software_version: String,
}

#[derive(Debug, Clone, Copy, PartialEq, Eq, Structural)]
pub enum DeviceFabricError {
    InvalidNodeId,
    InvalidNodeType,
    InvalidSoftwareVersion,
    InvalidCapabilityId,
    InvalidDevice(DeviceSecurityError),
}

impl From<DeviceSecurityError> for DeviceFabricError {
    fn from(error: DeviceSecurityError) -> (r: Self) {
        Self::InvalidDevice(error)
    }
}

impl vstd::std_specs::convert::FromSpecImpl<DeviceSecurityError> for DeviceFabricError {
    open spec fn obeys_from_spec() -> bool {
        true
    }

    open spec fn from_spec(error: DeviceSecurityError) -> Self {
        DeviceFabricError::InvalidDevice(error)
    }
}

/// The fabric-level form of a registry result.
pub open spec fn lift_device_result(r: Result<(), DeviceSecurityError>) -> Result<
    (),
    DeviceFabricError,
> {
    match r {
        Ok(()) => Ok(()),
        Err(e) => Err(DeviceFabricError::InvalidDevice(e)),
    }
}

fn lift_device_error(r: Result<(), DeviceSecurityError>) -> (out: Result<(), DeviceFabricError>)
    ensures
        out == lift_device_result(r),
{
    match r {
        Ok(()) => Ok(()),
        Err(e) => Err(DeviceFabricError::from(e)),
    }
}

impl NodeDescriptor {
    pub fn new(node_id: &str, node_type: &str, software_version: &str) -> (r: Result<
        Self,
        DeviceFabricError,
    >)
        ensures
            r == (if is_blank_spec(node_id@) {
                Err::<Self, _>(DeviceFabricError::InvalidNodeId)
            } else if is_blank_spec(node_type@) {
                Err(DeviceFabricError::InvalidNodeType)
            } else if is_blank_spec(software_version@) {
                Err(DeviceFabricError::InvalidSoftwareVersion)
            } else {
                r
            }),
            !is_blank_spec(node_id@) && !is_blank_spec(node_type@) && !is_blank_spec(
                software_version@,
            ) ==> r is Ok,
            r matches Ok(d) ==> d.node_id@ == node_id@ && d.node_type@ == node_type@
                && d.software_version@ == software_version@,
    {
        if is_blank(node_id) {
            return Err(DeviceFabricError::InvalidNodeId);
        }
        if is_blank(node_type) {
            return Err(DeviceFabricError::InvalidNodeType);
        }
        if is_blank(software_version) {
            return Err(DeviceFabricError::InvalidSoftwareVersion);
        }
        Ok(Self {
            node_id: node_id.to_string(),
            node_type: node_type.to_string(),
            software_version: software_version.to_string(),
        })
    }
}

/// Runtime health state, independent of transport and provider.
#[derive(Debug, Clone, Copy, PartialEq, Eq, Structural)]
pub enum NodeHealth {
    Unknown,
    Healthy,
    Degraded,
    Offline,
}

/// Texts in strictly increasing byte order (so each occurs once).
pub open spec fn sorted_texts(s: Seq<Seq<char>>) -> bool {
    forall|i: int, j: int|
        0 <= i < j < s.len() ==> bytes_lt(utf8_bytes(#[trigger] s[i]), utf8_bytes(#[trigger] s[j]))
}

pub open spec fn string_views(v: Seq<String>) -> Seq<Seq<char>> {
    v.map_values(|s: String| s@)
}

/// Host-owned Device Fabric boundary: node metadata, advertised capabilities,
/// and the device registry that enforces trust and grants.
pub struct DeviceFabric {
    descriptor: NodeDescriptor,
    health: NodeHealth,
    capabilities: Vec<String>,
    devices: DeviceRegistry,
}

impl DeviceFabric {
    pub closed spec fn spec_descriptor(&self) -> NodeDescriptor {
        self.descriptor
    }

    pub closed spec fn spec_health(&self) -> NodeHealth {
        self.health
    }

    /// The advertised capability ids.
    pub closed spec fn capability_set(&self) -> Set<Seq<char>> {
        string_views(self.capabilities@).to_set()
    }

    pub closed spec fn devices_view(&self) -> Map<Seq<char>, DeviceRecordView> {
        self.devices.view()
    }

    pub closed spec fn wf(&self) -> bool {
        &&& sorted_texts(string_views(self.capabilities@))
        &&& self.devices.wf()
    }

    pub fn new(descriptor: NodeDescriptor) -> (f: Self)
        ensures
            f.wf(),
            f.spec_descriptor() == descriptor,
            f.spec_health() == NodeHealth::Unknown,
            f.capability_set() == Set::<Seq<char>>::empty(),
            f.devices_view() == Map::<Seq<char>, DeviceRecordView>::empty(),
    {
        let f = Self {
            descriptor,
            health: NodeHealth::Unknown,
            capabilities: Vec::new(),
            devices: DeviceRegistry::new(),
        };
        assert(string_views(f.capabilities@).to_set() =~= Set::empty());
        f
    }

    pub fn descriptor(&self) -> (d: &NodeDescriptor)
        ensures
            *d == self.spec_descriptor(),
    {
        &self.descriptor
    }

    pub fn health(&self) -> (h: NodeHealth)
        ensures
            h == self.spec_health(),
    {
        self.health
    }

    pub fn set_health(&mut self, health: NodeHealth)
        requires
            old(self).wf(),
        ensures
            final(self).wf(),
            final(self).spec_health() == health,
            final(self).spec_descriptor() == old(self).spec_descriptor(),
            final(self).capability_set() == old(self).capability_set(),
            final(self).devices_view() == old(self).devices_view(),
    {
        self.health = health;
    }

    pub fn advertise_capability(&mut self, capability_id: &str) -> (r: Result<
        (),
        DeviceFabricError,
    >)
        requires
            old(self).wf(),
        ensures
            final(self).wf(),
            is_blank_spec(capability_id@) ==> r == Err::<(), _>(
                DeviceFabricError::InvalidCapabilityId,
            ),
            !is_blank_spec(capability_id@) ==> r is Ok,
            r is Ok ==> final(self).capability_set() == old(self).capability_set().insert(
                capability_id@,
            ),
            r is Err ==> final(self).capability_set() == old(self).capability_set(),
            final(self).spec_health() == old(self).spec_health(),
            final(self).spec_descriptor() == old(self).spec_descriptor(),
            final(self).devices_view() == old(self).devices_view(),
    {
        if is_blank(capability_id) {
            return Err(DeviceFabricError::InvalidCapabilityId);
        }
        let ghost old_caps = string_views(self.capabilities@);
        let ghost x = capability_id@;
        let key = capability_id.as_bytes();
        let (found, i) = self.find_slot(key);
        if found {
            proof {
                lemma_utf8_injective(old_caps[i as int], x);
                assert(old_caps.to_set().contains(x));
                assert(old_caps.to_set().insert(x) =~= old_caps.to_set());
            }
            return Ok(());
        }
        let ghost pos = i as int;
        self.capabilities.insert(i, capability_id.to_string());
        proof {
            let new_caps = string_views(self.capabilities@);
            assert(new_caps =~= old_caps.insert(pos, x));
            assert forall|a: int, b: int| 0 <= a < b < new_caps.len() implies bytes_lt(
                utf8_bytes(#[trigger] new_caps[a]),
                utf8_bytes(#[trigger] new_caps[b]),
            ) by {
                if b == pos {
                    assert(new_caps[a] == old_caps[a]);
                } else if a == pos {
                    // old_caps[pos] is greater than x and every later entry exceeds it
                    assert(new_caps[b] == old_caps[b - 1]);
                    assert(bytes_lt(key@, utf8_bytes(old_caps[pos])));
                    if b - 1 > pos {
                        lemma_bytes_lt_transitive(
                            key@,
                            utf8_bytes(old_caps[pos]),
                            utf8_bytes(old_caps[b - 1]),
                        );
                    }
                } else if a < pos && b < pos {
                    assert(new_caps[a] == old_caps[a]);
                    assert(new_caps[b] == old_caps[b]);
                } else if a < pos {
                    assert(new_caps[a] == old_caps[a]);
                    assert(new_caps[b] == old_caps[b - 1]);
                } else {
                    assert(new_caps[a] == old_caps[a - 1]);
                    assert(new_caps[b] == old_caps[b - 1]);
                }
            }
            assert(new_caps.to_set() =~= old_caps.to_set().insert(x)) by {
                assert forall|y: Seq<char>| new_caps.to_set().contains(y) implies old_caps.to_set().insert(x).contains(y) by {
                    let k = choose|k: int| 0 <= k < new_caps.len() && new_caps[k] == y;
                    if k < pos {
                        assert(old_caps[k] == y);
                    } else if k > pos {
                        assert(old_caps[k - 1] == y);
                    }
                }
                assert forall|y: Seq<char>| old_caps.to_set().insert(x).contains(y) implies new_caps.to_set().contains(y) by {
                    if y == x {
                        assert(new_caps[pos] == y);
                    } else {
                        let k = choose|k: int| 0 <= k < old_caps.len() && old_caps[k] == y;
                        if k < pos {
                            assert(new_caps[k] == y);
                        } else {
                            assert(new_caps[k + 1] == y);
                        }
                    }
                }
            }
        }
        Ok(())
    }

    /// Where `key` stands among the sorted capability ids: either found at the
    /// returned index, or to be inserted there.
    fn find_slot(&self, key: &[u8]) -> (r: (bool, usize))
        requires
            self.wf(),
        ensures
            r.1 <= self.capabilities@.len(),
            r.0 ==> r.1 < self.capabilities@.len() && utf8_bytes(
                string_views(self.capabilities@)[r.1 as int],
            ) == key@,
            !r.0 ==> forall|j: int|
                0 <= j < r.1 ==> bytes_lt(
                    utf8_bytes(#[trigger] string_views(self.capabilities@)[j]),
                    key@,
                ),
            !r.0 && r.1 < self.capabilities@.len() ==> bytes_lt(
                key@,
                utf8_bytes(string_views(self.capabilities@)[r.1 as int]),
            ),
    {
        let ghost caps = string_views(self.capabilities@);
        let n = self.capabilities.len();
        let mut i: usize = 0;
        while i < n
            invariant
                n == self.capabilities@.len(),
                i <= n,
                caps == string_views(self.capabilities@),
                forall|j: int| 0 <= j < i ==> bytes_lt(utf8_bytes(#[trigger] caps[j]), key@),
            decreases n - i,
        {
            let c = compare_bytes(self.capabilities[i].as_str().as_bytes(), key);
            assert(caps[i as int] == self.capabilities@[i as int]@);
            match c {
                ByteOrder::Less => {},
                ByteOrder::Equal => {
                    return (true, i);
                },
                ByteOrder::Greater => {
                    return (false, i);
                },
            }
            i += 1;
        }
        (false, n)
    }

    /// The advertised capabilities in byte order, each once.
    pub fn capabilities(&self) -> (r: Vec<String>)
        requires
            self.wf(),
        ensures
            sorted_texts(string_views(r@)),
            string_views(r@).to_set() == self.capability_set(),
    {
        let r = self.capabilities.clone();
        assert(string_views(r@) =~= string_views(self.capabilities@));
        r
    }

    pub fn enroll_device(&mut self, device_id: &str, trust: DeviceTrust, permissions: &[Permission]) -> (r:
        Result<(), DeviceFabricError>)
        requires
            old(self).wf(),
        ensures
            final(self).wf(),
            r == (if is_blank_spec(device_id@) {
                Err::<(), _>(DeviceFabricError::InvalidDevice(DeviceSecurityError::InvalidDeviceId))
            } else if old(self).devices_view().contains_key(device_id@) {
                Err(DeviceFabricError::InvalidDevice(DeviceSecurityError::DeviceAlreadyRegistered))
            } else {
                Ok(())
            }),
            r is Ok ==> final(self).devices_view() == old(self).devices_view().insert(
                device_id@,
                DeviceRecordView { trust, allowed: permissions@.to_set() },
            ),
            r is Err ==> final(self).devices_view() == old(self).devices_view(),
            final(self).capability_set() == old(self).capability_set(),
            final(self).spec_health() == old(self).spec_health(),
            final(self).spec_descriptor() == old(self).spec_descriptor(),
    {
        let device = match DeviceRecord::new(device_id, trust, permissions) {
            Ok(d) => d,
            Err(e) => return Err(DeviceFabricError::from(e)),
        };
        let r = self.devices.register(device);
        proof {
            if r is Ok {
                assert(device.view() == DeviceRecordView { trust, allowed: permissions@.to_set() });
            }
        }
        lift_device_error(r)
    }

    pub fn set_device_trust(&mut self, device_id: &str, trust: DeviceTrust) -> (r: Result<
        (),
        DeviceFabricError,
    >)
        requires
            old(self).wf(),
        ensures
            final(self).wf(),
            !old(self).devices_view().contains_key(device_id@) ==> r == Err::<(), _>(
                DeviceFabricError::InvalidDevice(DeviceSecurityError::DeviceNotRegistered),
            ),
            old(self).devices_view().contains_key(device_id@) ==> r is Ok,
            r is Ok ==> final(self).devices_view() == old(self).devices_view().insert(
                device_id@,
                DeviceRecordView { trust, allowed: old(self).devices_view()[device_id@].allowed },
            ),
            r is Err ==> final(self).devices_view() == old(self).devices_view(),
            final(self).capability_set() == old(self).capability_set(),
            final(self).spec_health() == old(self).spec_health(),
            final(self).spec_descriptor() == old(self).spec_descriptor(),
    {
        let r = self.devices.set_trust(device_id, trust);
        lift_device_error(r)
    }

    pub fn authorize_device(&self, device_id: &str, required_permissions: &[Permission]) -> (r:
        Result<(), DeviceFabricError>)
        requires
            self.wf(),
        ensures
            r == lift_device_result(
                authorize_device_spec(self.devices_view(), device_id@, required_permissions@),
            ),
    {
        lift_device_error(self.devices.authorize(device_id, required_permissions))
    }

    pub fn device_registry(&self) -> (r: &DeviceRegistry)
        ensures
            r.view() == self.devices_view(),
            self.wf() ==> r.wf(),
    {
        &self.devices
    }
}

} // verus!
