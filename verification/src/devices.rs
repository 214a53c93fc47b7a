//! The device registry: the one owner of audio-device control state. Capture
//! loops reference devices; state changes go through the registry.

use vstd::prelude::*;

verus! {

/// Which direction an audio device records.
#[derive(Clone, Copy, PartialEq, Eq, Structural, Debug)]
pub enum DeviceKind {
    Input,
    Output,
}

/// A device's liveness/control state.
#[derive(Clone, Copy, PartialEq, Eq, Structural, Debug)]
pub enum DeviceState {
    Running,
    Paused,
    Stopped,
}

/// One registered audio device.
pub struct Device {
    pub name: String,
    pub kind: DeviceKind,
    pub state: DeviceState,
}

pub struct DeviceV {
    pub name: Seq<char>,
    pub kind: DeviceKind,
    pub state: DeviceState,
}

impl DeepView for Device {
    type V = DeviceV;

    open spec fn deep_view(&self) -> DeviceV {
        DeviceV { name: self.name@, kind: self.kind, state: self.state }
    }
}

/// Why a registry operation was refused.
#[derive(Clone, Copy, PartialEq, Eq, Structural, Debug)]
pub enum RegistryError {
    /// A device with this name is already registered.
    DuplicateName,
    /// No device carries the requested name or index.
    UnknownDevice,
}

/// The registry of audio devices. Names are unique, so a name resolves to at
/// most one device.
pub struct DeviceRegistry {
    devices: Vec<Device>,
}

impl View for DeviceRegistry {
    type V = Seq<DeviceV>;

    closed spec fn view(&self) -> Seq<DeviceV> {
        self.devices.deep_view()
    }
}

pub open spec fn registry_wf(devices: Seq<DeviceV>) -> bool {
    forall|i: int, j: int|
        0 <= i < j < devices.len() ==> (#[trigger] devices[i]).name != (
        #[trigger] devices[j]).name
}

impl DeviceRegistry {
    pub open spec fn wf(&self) -> bool {
        registry_wf(self@)
    }

    /// An empty registry.
    pub fn new() -> (r: DeviceRegistry)
        ensures
            r.wf(),
            r@ =~= Seq::<DeviceV>::empty(),
    {
        DeviceRegistry { devices: Vec::new() }
    }

    /// How many devices are registered.
    pub fn len(&self) -> (r: usize)
        ensures
            r == self@.len(),
    {
        self.devices.len()
    }

    /// One registered device.
    pub fn at(&self, i: usize) -> (r: &Device)
        requires
            i < self@.len(),
        ensures
            r.deep_view() == self@[i as int],
    {
        &self.devices[i]
    }

    /// Registers a device, initially stopped. Refused exactly when the name
    /// is already taken.
    pub fn register(&mut self, name: String, kind: DeviceKind) -> (r: Result<usize, RegistryError>)
        requires
            old(self).wf(),
        ensures
            final(self).wf(),
            match r {
                Ok(id) => {
                    &&& !(exists|j: int|
                        0 <= j < old(self)@.len() && (#[trigger] old(self)@[j]).name == name@)
                    &&& id == old(self)@.len()
                    &&& final(self)@ =~= old(self)@.push(
                        DeviceV { name: name@, kind, state: DeviceState::Stopped },
                    )
                },
                Err(e) => {
                    &&& e == RegistryError::DuplicateName
                    &&& exists|j: int|
                        0 <= j < old(self)@.len() && (#[trigger] old(self)@[j]).name == name@
                    &&& final(self)@ == old(self)@
                },
            },
    {
        let ghost pre = self@;
        let mut i: usize = 0;
        while i < self.devices.len()
            invariant
                0 <= i <= self.devices.len(),
                self@ == pre,
                pre == old(self)@,
                registry_wf(pre),
                pre.len() == self.devices@.len(),
                forall|j: int| 0 <= j < i ==> (#[trigger] pre[j]).name != name@,
            decreases self.devices.len() - i,
        {
            if self.devices[i].name.eq(&name) {
                assert(pre[i as int].name == name@);
                return Err(RegistryError::DuplicateName);
            }
            i += 1;
        }
        let id = self.devices.len();
        let ghost prev = self.devices@;
        self.devices.push(Device { name, kind, state: DeviceState::Stopped });
        proof {
            crate::archive::lemma_deep_view_push(prev, self.devices@[prev.len() as int]);
            assert(self@ =~= pre.push(self.devices@[prev.len() as int].deep_view()));
        }
        Ok(id)
    }

    /// The index of the device carrying `name`, if any. Names are unique, so
    /// the index is the one device the name resolves to.
    pub fn resolve(&self, name: &String) -> (r: Option<usize>)
        ensures
            match r {
                Some(k) => k < self@.len() && self@[k as int].name == name@,
                None => forall|i: int|
                    0 <= i < self@.len() ==> (#[trigger] self@[i]).name != name@,
            },
    {
        let mut i: usize = 0;
        while i < self.devices.len()
            invariant
                0 <= i <= self.devices.len(),
                self@.len() == self.devices@.len(),
                forall|k: int| 0 <= k < i ==> (#[trigger] self@[k]).name != name@,
            decreases self.devices.len() - i,
        {
            if self.devices[i].name.eq(name) {
                return Some(i);
            }
            i += 1;
        }
        None
    }

    /// Requests a device's control-state change. Only the registry mutates a
    /// device's state; every other field stays as it was.
    pub fn set_state(&mut self, id: usize, state: DeviceState) -> (r: Result<(), RegistryError>)
        requires
            old(self).wf(),
        ensures
            final(self).wf(),
            match r {
                Ok(()) => {
                    &&& id < old(self)@.len()
                    &&& final(self)@ =~= old(self)@.update(
                        id as int,
                        DeviceV { state, ..old(self)@[id as int] },
                    )
                },
                Err(e) => {
                    &&& e == RegistryError::UnknownDevice
                    &&& id >= old(self)@.len()
                    &&& final(self)@ == old(self)@
                },
            },
    {
        let ghost pre = self@;
        if id >= self.devices.len() {
            return Err(RegistryError::UnknownDevice);
        }
        let ghost prev = self.devices@;
        let mut d = self.devices.remove(id);
        d.state = state;
        self.devices.insert(id, d);
        proof {
            assert(self.devices@ =~= prev.update(id as int, self.devices@[id as int]));
            crate::archive::lemma_deep_view_update(prev, id as int, self.devices@[id as int]);
            assert(self@ =~= pre.update(id as int, DeviceV { state, ..pre[id as int] }));
        }
        Ok(())
    }
}

/// One display monitor, as the enumeration hands it over in plain values.
pub struct MonitorData {
    pub id: u32,
    pub name: String,
    pub width: u32,
    pub height: u32,
    pub is_primary: bool,
}

pub struct MonitorDataV {
    pub id: u32,
    pub name: Seq<char>,
    pub width: u32,
    pub height: u32,
    pub is_primary: bool,
}

impl DeepView for MonitorData {
    type V = MonitorDataV;

    open spec fn deep_view(&self) -> MonitorDataV {
        MonitorDataV {
            id: self.id,
            name: self.name@,
            width: self.width,
            height: self.height,
            is_primary: self.is_primary,
        }
    }
}

/// One monitor as reported to consumers.
#[derive(Debug)]
pub struct MonitorInfo {
    pub id: u32,
    pub name: String,
    pub width: u32,
    pub height: u32,
    pub is_default: bool,
}

pub struct MonitorInfoV {
    pub id: u32,
    pub name: Seq<char>,
    pub width: u32,
    pub height: u32,
    pub is_default: bool,
}

impl DeepView for MonitorInfo {
    type V = MonitorInfoV;

    open spec fn deep_view(&self) -> MonitorInfoV {
        MonitorInfoV {
            id: self.id,
            name: self.name@,
            width: self.width,
            height: self.height,
            is_default: self.is_default,
        }
    }
}

} // verus!
