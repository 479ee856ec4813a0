use vstd::prelude::*;

use crate::security::Permission;
use crate::text::{is_blank, is_blank_spec, str_eq};

verus! {

#[derive(Debug, Clone, Copy, PartialEq, Eq, Structural)]
pub enum DeviceTrust {
    Pending,
    Trusted,
    Quarantined,
    Revoked,
}

#[derive(Debug, Clone, Copy, PartialEq, Eq, Structural)]
pub enum DeviceSecurityError {
    InvalidDeviceId,
    DeviceAlreadyRegistered,
    DeviceNotRegistered,
    DeviceNotTrusted,
    PermissionNotGranted,
}

/// Position of a permission in the canonical order in which a record keeps
/// its grants.
pub open spec fn permission_rank(p: Permission) -> int {
    match p {
        Permission::SystemTelemetryRead => 0,
        Permission::AudioCapture => 1,
        Permission::FilesystemRead => 2,
        Permission::FilesystemWrite => 3,
        Permission::ProcessExecute => 4,
        Permission::NetworkAccess => 5,
    }
}

/// Grants kept once each, in canonical order.
pub open spec fn canonical_grants(s: Seq<Permission>) -> bool {
    forall|i: int, j: int|
        0 <= i < j < s.len() ==> permission_rank(#[trigger] s[i]) < permission_rank(#[trigger] s[j])
}

/// What the registry knows of a device, apart from its id.
pub struct DeviceRecordView {
    pub trust: DeviceTrust,
    pub allowed: Set<Permission>,
}

#[derive(Debug, Clone, PartialEq, Eq)]
pub struct DeviceRecord {
    pub device_id: String,
    pub trust: DeviceTrust,
    allowed_permissions: Vec<Permission>,
}

fn contains_permission(list: &[Permission], p: Permission) -> (r: bool)
    ensures
        r == list@.contains(p),
{
    let mut i: usize = 0;
    while i < list.len()
        invariant
            i <= list@.len(),
            forall|j: int| 0 <= j < i ==> list@[j] != p,
        decreases list@.len() - i,
    {
        if list[i] == p {
            return true;
        }
        i += 1;
    }
    false
}

proof fn lemma_push_contains<T>(s: Seq<T>, x: T)
    ensures
        forall|q: T| #[trigger] s.push(x).contains(q) <==> (s.contains(q) || q == x),
{
    assert forall|q: T| #[trigger] s.push(x).contains(q) <==> (s.contains(q) || q == x) by {
        if s.push(x).contains(q) {
            let i = choose|i: int| 0 <= i < s.push(x).len() && s.push(x)[i] == q;
            if i < s.len() {
                assert(s[i] == q);
            }
        }
        if s.contains(q) {
            let i = choose|i: int| 0 <= i < s.len() && s[i] == q;
            assert(s.push(x)[i] == q);
        }
        if q == x {
            assert(s.push(x)[s.len() as int] == q);
        }
    }
}

/// The grants of `list`, once each, in canonical order.
fn canonicalize(list: &[Permission]) -> (r: Vec<Permission>)
    ensures
        r@.to_set() == list@.to_set(),
        canonical_grants(r@),
{
    let order = [
        Permission::SystemTelemetryRead,
        Permission::AudioCapture,
        Permission::FilesystemRead,
        Permission::FilesystemWrite,
        Permission::ProcessExecute,
        Permission::NetworkAccess,
    ];
    let mut out: Vec<Permission> = Vec::new();
    let mut k: usize = 0;
    while k < 6
        invariant
            k <= 6,
            order@.len() == 6,
            forall|j: int| 0 <= j < 6 ==> permission_rank(#[trigger] order@[j]) == j,
            canonical_grants(out@),
            forall|j: int| 0 <= j < out@.len() ==> permission_rank(#[trigger] out@[j]) < k,
            forall|p: Permission|
                permission_rank(p) < k ==> (#[trigger] out@.contains(p) <==> list@.contains(p)),
            forall|p: Permission| #[trigger] out@.contains(p) ==> list@.contains(p),
        decreases 6 - k,
    {
        let p = order[k];
        let ghost before = out@;
        if contains_permission(list, p) {
            out.push(p);
            proof {
                lemma_push_contains(before, p);
            }
        }
        proof {
            assert forall|q: Permission| permission_rank(q) < k + 1 implies (#[trigger] out@.contains(q)
                <==> list@.contains(q)) by {
                if permission_rank(q) == k as int {
                    assert(q == p);
                }
            }
        }
        k += 1;
    }
    proof {
        assert forall|p: Permission| #[trigger] out@.to_set().contains(p) == list@.to_set().contains(p) by {
            assert(permission_rank(p) < 6);
        }
        assert(out@.to_set() =~= list@.to_set());
    }
    out
}

impl DeviceRecord {
    pub closed spec fn spec_id(&self) -> Seq<char> {
        self.device_id@
    }

    pub closed spec fn view(&self) -> DeviceRecordView {
        DeviceRecordView { trust: self.trust, allowed: self.allowed_permissions@.to_set() }
    }

    pub closed spec fn wf(&self) -> bool {
        canonical_grants(self.allowed_permissions@)
    }

    /// The record's id, as `spec_id` names it.
    pub fn device_id(&self) -> (r: &str)
        ensures
            r@ == self.spec_id(),
    {
        self.device_id.as_str()
    }

    /// The record's trust, as its view holds it.
    pub fn trust(&self) -> (r: DeviceTrust)
        ensures
            r == self.view().trust,
    {
        self.trust
    }

    pub fn new(device_id: &str, trust: DeviceTrust, allowed_permissions: &[Permission]) -> (r:
        Result<Self, DeviceSecurityError>)
        ensures
            is_blank_spec(device_id@) ==> r == Err::<Self, _>(DeviceSecurityError::InvalidDeviceId),
            !is_blank_spec(device_id@) ==> r is Ok,
            r matches Ok(d) ==> {
                &&& d.spec_id() == device_id@
                &&& d.view().trust == trust
                &&& d.view().allowed == allowed_permissions@.to_set()
                &&& d.wf()
            },
    {
        if is_blank(device_id) {
            return Err(DeviceSecurityError::InvalidDeviceId);
        }
        Ok(Self {
            device_id: device_id.to_string(),
            trust,
            allowed_permissions: canonicalize(allowed_permissions),
        })
    }

    /// True when every required permission was granted to this record.
    fn allows_all(&self, permissions: &[Permission]) -> (r: bool)
        ensures
            r == (forall|i: int|
                0 <= i < permissions@.len() ==> self.view().allowed.contains(
                    #[trigger] permissions@[i],
                )),
    {
        let mut i: usize = 0;
        while i < permissions.len()
            invariant
                i <= permissions@.len(),
                forall|j: int|
                    0 <= j < i ==> self.allowed_permissions@.contains(#[trigger] permissions@[j]),
            decreases permissions@.len() - i,
        {
            if !contains_permission(self.allowed_permissions.as_slice(), permissions[i]) {
                return false;
            }
            i += 1;
        }
        true
    }
}

/// Map of device ids to records, later records of the same id hiding earlier
/// ones (the registry never holds two).
pub open spec fn records_map(s: Seq<DeviceRecord>) -> Map<Seq<char>, DeviceRecordView>
    decreases s.len(),
{
    if s.len() == 0 {
        Map::empty()
    } else {
        records_map(s.drop_last()).insert(s.last().spec_id(), s.last().view())
    }
}

pub open spec fn unique_ids(s: Seq<DeviceRecord>) -> bool {
    forall|i: int, j: int|
        0 <= i < s.len() && 0 <= j < s.len() && i != j ==> #[trigger] s[i].spec_id()
            != #[trigger] s[j].spec_id()
}

proof fn lemma_records_map_dom(s: Seq<DeviceRecord>, k: Seq<char>)
    ensures
        records_map(s).contains_key(k) <==> exists|i: int|
            0 <= i < s.len() && (#[trigger] s[i]).spec_id() == k,
    decreases s.len(),
{
    if s.len() > 0 {
        lemma_records_map_dom(s.drop_last(), k);
        if records_map(s).contains_key(k) {
            if s.last().spec_id() != k {
                let i = choose|i: int|
                    0 <= i < s.drop_last().len() && (#[trigger] s.drop_last()[i]).spec_id() == k;
                assert(s[i] == s.drop_last()[i]);
            }
        }
        if exists|i: int| 0 <= i < s.len() && (#[trigger] s[i]).spec_id() == k {
            let i = choose|i: int| 0 <= i < s.len() && (#[trigger] s[i]).spec_id() == k;
            if i < s.len() - 1 {
                assert(s.drop_last()[i] == s[i]);
            }
        }
    }
}

proof fn lemma_records_map_at(s: Seq<DeviceRecord>, i: int)
    requires
        unique_ids(s),
        0 <= i < s.len(),
    ensures
        records_map(s).contains_key(s[i].spec_id()),
        records_map(s)[s[i].spec_id()] == s[i].view(),
    decreases s.len(),
{
    if i < s.len() - 1 {
        assert(s.drop_last()[i] == s[i]);
        assert(unique_ids(s.drop_last())) by {
            assert forall|a: int, b: int|
                0 <= a < s.drop_last().len() && 0 <= b < s.drop_last().len() && a != b implies #[trigger] s.drop_last()[a].spec_id()
                != #[trigger] s.drop_last()[b].spec_id() by {
                assert(s.drop_last()[a] == s[a]);
                assert(s.drop_last()[b] == s[b]);
            }
        }
        lemma_records_map_at(s.drop_last(), i);
        assert(s.last().spec_id() != s[i].spec_id());
    }
}

proof fn lemma_records_map_update(s: Seq<DeviceRecord>, i: int, r: DeviceRecord)
    requires
        unique_ids(s),
        0 <= i < s.len(),
        r.spec_id() == s[i].spec_id(),
    ensures
        records_map(s.update(i, r)) == records_map(s).insert(r.spec_id(), r.view()),
    decreases s.len(),
{
    let t = s.update(i, r);
    if i == s.len() - 1 {
        assert(t.drop_last() =~= s.drop_last());
        lemma_records_map_dom(s.drop_last(), r.spec_id());
        assert(!records_map(s.drop_last()).contains_key(r.spec_id())) by {
            if records_map(s.drop_last()).contains_key(r.spec_id()) {
                let j = choose|j: int|
                    0 <= j < s.drop_last().len() && (#[trigger] s.drop_last()[j]).spec_id()
                        == r.spec_id();
                assert(s[j] == s.drop_last()[j]);
            }
        }
        assert(records_map(t) =~= records_map(s).insert(r.spec_id(), r.view()));
    } else {
        assert(t.drop_last() =~= s.drop_last().update(i, r));
        assert(unique_ids(s.drop_last())) by {
            assert forall|a: int, b: int|
                0 <= a < s.drop_last().len() && 0 <= b < s.drop_last().len() && a != b implies #[trigger] s.drop_last()[a].spec_id()
                != #[trigger] s.drop_last()[b].spec_id() by {
                assert(s.drop_last()[a] == s[a]);
                assert(s.drop_last()[b] == s[b]);
            }
        }
        assert(s.drop_last()[i] == s[i]);
        lemma_records_map_update(s.drop_last(), i, r);
        assert(t.last() == s.last());
        assert(s.last().spec_id() != r.spec_id());
        assert(records_map(t) =~= records_map(s).insert(r.spec_id(), r.view()));
    }
}

/// The registry's answer to an authorization question over its map view.
pub open spec fn authorize_device_spec(
    devices: Map<Seq<char>, DeviceRecordView>,
    device_id: Seq<char>,
    required: Seq<Permission>,
) -> Result<(), DeviceSecurityError> {
    if !devices.contains_key(device_id) {
        Err(DeviceSecurityError::DeviceNotRegistered)
    } else if devices[device_id].trust != DeviceTrust::Trusted {
        Err(DeviceSecurityError::DeviceNotTrusted)
    } else if exists|i: int|
        0 <= i < required.len() && !devices[device_id].allowed.contains(#[trigger] required[i]) {
        Err(DeviceSecurityError::PermissionNotGranted)
    } else {
        Ok(())
    }
}

/// Host-owned registry of per-device trust and least-privilege grants.
/// Registration does not imply trust: a device must be promoted to `Trusted`,
/// and then holds only the permissions listed in its record.
pub struct DeviceRegistry {
    devices: Vec<DeviceRecord>,
}

impl DeviceRegistry {
    pub closed spec fn view(&self) -> Map<Seq<char>, DeviceRecordView> {
        records_map(self.devices@)
    }

    pub closed spec fn wf(&self) -> bool {
        unique_ids(self.devices@)
    }

    pub fn new() -> (r: Self)
        ensures
            r.wf(),
            r.view() == Map::<Seq<char>, DeviceRecordView>::empty(),
    {
        Self { devices: Vec::new() }
    }

    /// Index of the record for `device_id`.
    fn position(&self, device_id: &str) -> (r: Option<usize>)
        requires
            self.wf(),
        ensures
            r is None <==> !self.view().contains_key(device_id@),
            r matches Some(i) ==> i < self.devices@.len() && self.devices@[i as int].spec_id()
                == device_id@,
    {
        proof {
            lemma_records_map_dom(self.devices@, device_id@);
        }
        let mut i: usize = 0;
        while i < self.devices.len()
            invariant
                i <= self.devices@.len(),
                forall|j: int| 0 <= j < i ==> (#[trigger] self.devices@[j]).spec_id() != device_id@,
            decreases self.devices@.len() - i,
        {
            if str_eq(self.devices[i].device_id.as_str(), device_id) {
                proof {
                    lemma_records_map_dom(self.devices@, device_id@);
                }
                return Some(i);
            }
            i += 1;
        }
        None
    }

    pub fn register(&mut self, device: DeviceRecord) -> (r: Result<(), DeviceSecurityError>)
        requires
            old(self).wf(),
        ensures
            final(self).wf(),
            old(self).view().contains_key(device.spec_id()) <==> r == Err::<(), _>(
                DeviceSecurityError::DeviceAlreadyRegistered,
            ),
            !old(self).view().contains_key(device.spec_id()) ==> r is Ok,
            r is Ok ==> final(self).view() == old(self).view().insert(
                device.spec_id(),
                device.view(),
            ),
            r is Err ==> final(self).view() == old(self).view(),
    {
        if self.position(device.device_id.as_str()).is_some() {
            return Err(DeviceSecurityError::DeviceAlreadyRegistered);
        }
        proof {
            lemma_records_map_dom(self.devices@, device.device_id@);
        }
        self.devices.push(device);
        proof {
            assert(self.devices@.drop_last() =~= old(self).devices@);
        }
        Ok(())
    }

    pub fn set_trust(&mut self, device_id: &str, trust: DeviceTrust) -> (r: Result<
        (),
        DeviceSecurityError,
    >)
        requires
            old(self).wf(),
        ensures
            final(self).wf(),
            !old(self).view().contains_key(device_id@) <==> r == Err::<(), _>(
                DeviceSecurityError::DeviceNotRegistered,
            ),
            old(self).view().contains_key(device_id@) ==> r is Ok,
            r is Ok ==> final(self).view() == old(self).view().insert(
                device_id@,
                DeviceRecordView { trust, allowed: old(self).view()[device_id@].allowed },
            ),
            r is Err ==> final(self).view() == old(self).view(),
    {
        match self.position(device_id) {
            None => Err(DeviceSecurityError::DeviceNotRegistered),
            Some(i) => {
                let ghost s = self.devices@;
                let record = DeviceRecord {
                    device_id: self.devices[i].device_id.clone(),
                    trust,
                    allowed_permissions: self.devices[i].allowed_permissions.clone(),
                };
                proof {
                    lemma_records_map_at(s, i as int);
                    lemma_records_map_update(s, i as int, record);
                }
                self.devices.set(i, record);
                proof {
                    assert forall|a: int, b: int|
                        0 <= a < self.devices@.len() && 0 <= b < self.devices@.len() && a != b implies #[trigger] self.devices@[a].spec_id()
                        != #[trigger] self.devices@[b].spec_id() by {
                        assert(s[a].spec_id() != s[b].spec_id());
                    }
                    assert(record.view().allowed == s[i as int].view().allowed);
                }
                Ok(())
            },
        }
    }

    pub fn authorize(&self, device_id: &str, required_permissions: &[Permission]) -> (r: Result<
        (),
        DeviceSecurityError,
    >)
        requires
            self.wf(),
        ensures
            r == authorize_device_spec(self.view(), device_id@, required_permissions@),
    {
        match self.position(device_id) {
            None => Err(DeviceSecurityError::DeviceNotRegistered),
            Some(i) => {
                proof {
                    lemma_records_map_at(self.devices@, i as int);
                }
                let device = &self.devices[i];
                if device.trust != DeviceTrust::Trusted {
                    return Err(DeviceSecurityError::DeviceNotTrusted);
                }
                if !device.allows_all(required_permissions) {
                    return Err(DeviceSecurityError::PermissionNotGranted);
                }
                Ok(())
            },
        }
    }

    pub fn get(&self, device_id: &str) -> (r: Option<&DeviceRecord>)
        requires
            self.wf(),
        ensures
            r is None <==> !self.view().contains_key(device_id@),
            r matches Some(d) ==> d.spec_id() == device_id@ && d.view() == self.view()[device_id@],
    {
        match self.position(device_id) {
            None => None,
            Some(i) => {
                proof {
                    lemma_records_map_at(self.devices@, i as int);
                }
                Some(&self.devices[i])
            },
        }
    }
}


/// A device is authorized only when it is registered, trusted, and granted
/// every permission asked for.
pub proof fn lemma_authorized_device_trusted_and_granted(
    devices: Map<Seq<char>, DeviceRecordView>,
    device_id: Seq<char>,
    required: Seq<Permission>,
)
    requires
        authorize_device_spec(devices, device_id, required) is Ok,
    ensures
        devices.contains_key(device_id),
        devices[device_id].trust == DeviceTrust::Trusted,
        forall|i: int| 0 <= i < required.len() ==> devices[device_id].allowed.contains(
            #[trigger] required[i],
        ),
{
}

/// Registration does not imply trust: a registered device that is not
/// trusted is denied every request.
pub proof fn lemma_untrusted_device_denied(
    devices: Map<Seq<char>, DeviceRecordView>,
    device_id: Seq<char>,
    required: Seq<Permission>,
)
    requires
        devices.contains_key(device_id),
        devices[device_id].trust != DeviceTrust::Trusted,
    ensures
        authorize_device_spec(devices, device_id, required) == Err::<(), DeviceSecurityError>(
            DeviceSecurityError::DeviceNotTrusted,
        ),
{
}

} // verus!
