use vstd::prelude::*;
use crate::error::StorageError;

verus! {

/// A named block device, as the device factory made it.
pub struct BlockDevice {
    /// The device's name, which is also its address.
    pub name: String,
    /// Size of one logical block in bytes.
    pub block_size: u64,
    /// Size of the device in bytes.
    pub size: u64,
    /// Whether the device can deallocate regions.
    pub unmap_supported: bool,
    /// Whether the device refuses writes.
    pub read_only: bool,
}

/// A consumer's binding to one registered device, made by `DeviceRegistry::open`.
pub struct DeviceHandle {
    device: String,
    read: bool,
    write: bool,
}

impl DeviceHandle {
    /// Name of the device that the handle is bound to.
    pub closed spec fn device_name(&self) -> Seq<char> {
        self.device@
    }

    /// Whether the handle may read.
    pub closed spec fn can_read(&self) -> bool {
        self.read
    }

    /// Whether the handle may write.
    pub closed spec fn can_write(&self) -> bool {
        self.write
    }

    /// Name of the device that the handle is bound to.
    pub fn device(&self) -> (r: &String)
        ensures
            r@ == self.device_name(),
    {
        &self.device
    }

    /// Whether the handle may write.
    pub fn writable(&self) -> (r: bool)
        ensures
            r == self.can_write(),
    {
        self.write
    }
}

/// No two devices of `s` share a name.
pub open spec fn unique_devices(s: Seq<BlockDevice>) -> bool {
    forall|i: int, j: int|
        0 <= i < s.len() && 0 <= j < s.len() && #[trigger] s[i].name@ == #[trigger] s[j].name@
            ==> i == j
}

/// Whether `s` holds a device called `name`.
pub open spec fn has_device(s: Seq<BlockDevice>, name: Seq<char>) -> bool {
    exists|i: int| 0 <= i < s.len() && #[trigger] s[i].name@ == name
}

/// Where the device called `name` stands in `s`.
pub open spec fn device_index(s: Seq<BlockDevice>, name: Seq<char>) -> int {
    choose|i: int| 0 <= i < s.len() && #[trigger] s[i].name@ == name
}

/// The table of the process's block devices, keyed by name, with the number of
/// handles open on each.
pub struct DeviceRegistry {
    devices: Vec<BlockDevice>,
    handles: Vec<u64>,
}

impl DeviceRegistry {
    /// The registered devices.
    pub closed spec fn view(&self) -> Seq<BlockDevice> {
        self.devices@
    }

    /// The number of open handles on each registered device, by position.
    pub closed spec fn open_handles(&self) -> Seq<u64> {
        self.handles@
    }

    pub closed spec fn wf(&self) -> bool {
        &&& self.devices@.len() == self.handles@.len()
        &&& unique_devices(self.devices@)
    }

    /// An empty registry.
    pub fn new() -> (r: DeviceRegistry)
        ensures
            r.wf(),
            r@ == Seq::<BlockDevice>::empty(),
    {
        DeviceRegistry { devices: Vec::new(), handles: Vec::new() }
    }

    /// Where the device called `name` stands, if it is registered.
    fn find(&self, name: &String) -> (r: Option<usize>)
        requires
            self.wf(),
        ensures
            r is None <==> !has_device(self@, name@),
            r matches Some(i) ==> i < self@.len() && i == device_index(self@, name@),
    {
        let mut i: usize = 0;
        while i < self.devices.len()
            invariant
                self.wf(),
                i <= self.devices@.len(),
                forall|j: int| 0 <= j < i ==> self.devices@[j].name@ != name@,
            decreases self.devices@.len() - i,
        {
            if self.devices[i].name == *name {
                assert(self@[i as int].name@ == name@);
                let ghost k = device_index(self@, name@);
                assert(self@[k].name@ == self@[i as int].name@);
                return Some(i);
            }
            i += 1;
        }
        None
    }

    /// Adds a device that the factory made. A name can be registered once.
    pub fn register(&mut self, device: BlockDevice) -> (r: Result<(), StorageError>)
        requires
            old(self).wf(),
        ensures
            final(self).wf(),
            has_device(old(self)@, device.name@) ==> r == Err::<(), StorageError>(
                StorageError::AlreadyExists,
            ) && final(self)@ == old(self)@ && final(self).open_handles() == old(
                self,
            ).open_handles(),
            !has_device(old(self)@, device.name@) ==> r is Ok && final(self)@ == old(self)@.push(
                device,
            ) && final(self).open_handles() == old(self).open_handles().push(0),
    {
        match self.find(&device.name) {
            Some(_) => Err(StorageError::AlreadyExists),
            None => {
                let ghost name = device.name@;
                self.devices.push(device);
                self.handles.push(0);
                assert forall|i: int, j: int|
                    0 <= i < self.devices@.len() && 0 <= j < self.devices@.len()
                        && #[trigger] self.devices@[i].name@ == #[trigger] self.devices@[j].name@
                        implies i == j by {
                    let n = self.devices@.len() - 1;
                    if i == n && j != n {
                        assert(old(self)@[j].name@ == name);
                    } else if j == n && i != n {
                        assert(old(self)@[i].name@ == name);
                    }
                }
                Ok(())
            },
        }
    }

    /// The device called `name`, if one is registered.
    pub fn lookup(&self, name: &String) -> (r: Option<&BlockDevice>)
        requires
            self.wf(),
        ensures
            r is None <==> !has_device(self@, name@),
            r matches Some(d) ==> *d == self@[device_index(self@, name@)] && d.name@ == name@,
    {
        match self.find(name) {
            Some(i) => Some(&self.devices[i]),
            None => None,
        }
    }

    /// All registered devices.
    pub fn devices(&self) -> (r: &Vec<BlockDevice>)
        ensures
            r@ == self@,
    {
        &self.devices
    }

    /// Number of registered devices.
    pub fn count(&self) -> (r: usize)
        ensures
            r == self@.len(),
    {
        self.devices.len()
    }

    /// Number of handles open on the device called `name`; `None` where no such
    /// device is registered.
    pub fn handle_count(&self, name: &String) -> (r: Option<u64>)
        requires
            self.wf(),
        ensures
            r is None <==> !has_device(self@, name@),
            r matches Some(n) ==> n == self.open_handles()[device_index(self@, name@)],
    {
        match self.find(name) {
            Some(i) => Some(self.handles[i]),
            None => None,
        }
    }

    /// Opens a handle on the device called `name`. Fails with `NotFound` where no
    /// such device is registered, and with `PermissionDenied` where `write` is asked
    /// of a read-only device.
    pub fn open(&mut self, name: &String, read: bool, write: bool) -> (r: Result<
        DeviceHandle,
        StorageError,
    >)
        requires
            old(self).wf(),
            has_device(old(self)@, name@) ==> old(self).open_handles()[device_index(
                old(self)@,
                name@,
            )] < u64::MAX,
        ensures
            final(self).wf(),
            final(self)@ == old(self)@,
            !has_device(old(self)@, name@) ==> r == Err::<DeviceHandle, StorageError>(
                StorageError::NotFound,
            ) && final(self).open_handles() == old(self).open_handles(),
            has_device(old(self)@, name@) && write && old(self)@[device_index(
                old(self)@,
                name@,
            )].read_only ==> r == Err::<DeviceHandle, StorageError>(StorageError::PermissionDenied)
                && final(self).open_handles() == old(self).open_handles(),
            has_device(old(self)@, name@) && !(write && old(self)@[device_index(
                old(self)@,
                name@,
            )].read_only) ==> (r matches Ok(h) && h.device_name() == name@ && h.can_read()
                == read && h.can_write() == write && final(self).open_handles() == old(
                self,
            ).open_handles().update(
                device_index(old(self)@, name@),
                (old(self).open_handles()[device_index(old(self)@, name@)] + 1) as u64,
            )),
    {
        match self.find(name) {
            None => Err(StorageError::NotFound),
            Some(i) => {
                if write && self.devices[i].read_only {
                    Err(StorageError::PermissionDenied)
                } else {
                    let n = self.handles[i];
                    self.handles.set(i, n + 1);
                    Ok(DeviceHandle { device: name.clone(), read, write })
                }
            },
        }
    }

    /// Closes a handle. Every handle is closed once, while its device is registered.
    pub fn close(&mut self, handle: DeviceHandle)
        requires
            old(self).wf(),
            has_device(old(self)@, handle.device_name()),
            old(self).open_handles()[device_index(old(self)@, handle.device_name())] > 0,
        ensures
            final(self).wf(),
            final(self)@ == old(self)@,
            final(self).open_handles() == old(self).open_handles().update(
                device_index(old(self)@, handle.device_name()),
                (old(self).open_handles()[device_index(old(self)@, handle.device_name())]
                    - 1) as u64,
            ),
    {
        match self.find(&handle.device) {
            None => {},
            Some(i) => {
                let n = self.handles[i];
                self.handles.set(i, n - 1);
            },
        }
    }

    /// Removes the device called `name`, which has no open handle, and hands it
    /// back; `NotFound` where no such device is registered.
    pub fn destroy(&mut self, name: &String) -> (r: Result<BlockDevice, StorageError>)
        requires
            old(self).wf(),
            has_device(old(self)@, name@) ==> old(self).open_handles()[device_index(
                old(self)@,
                name@,
            )] == 0,
        ensures
            final(self).wf(),
            !has_device(old(self)@, name@) ==> r == Err::<BlockDevice, StorageError>(
                StorageError::NotFound,
            ) && final(self)@ == old(self)@ && final(self).open_handles() == old(
                self,
            ).open_handles(),
            has_device(old(self)@, name@) ==> (r matches Ok(d) && d == old(self)@[device_index(
                old(self)@,
                name@,
            )] && final(self)@ == old(self)@.remove(device_index(old(self)@, name@))
                && final(self).open_handles() == old(self).open_handles().remove(
                device_index(old(self)@, name@),
            ) && !has_device(final(self)@, name@)),
    {
        match self.find(name) {
            None => Err(StorageError::NotFound),
            Some(i) => {
                let ghost before = self.devices@;
                let d = self.devices.remove(i);
                self.handles.remove(i);
                assert forall|a: int, b: int|
                    0 <= a < self.devices@.len() && 0 <= b < self.devices@.len()
                        && #[trigger] self.devices@[a].name@ == #[trigger] self.devices@[b].name@
                        implies a == b by {
                    let a0 = if a < i {
                        a
                    } else {
                        a + 1
                    };
                    let b0 = if b < i {
                        b
                    } else {
                        b + 1
                    };
                    assert(before[a0].name@ == before[b0].name@);
                }
                assert forall|j: int| 0 <= j < self.devices@.len() implies #[trigger] self.devices@[
                    j
                ].name@ != name@ by {
                    let j0 = if j < i {
                        j
                    } else {
                        j + 1
                    };
                    assert(before[j0] == self.devices@[j]);
                    assert(before[i as int].name@ == name@);
                }
                Ok(d)
            },
        }
    }
}

} // verus!
