use vstd::prelude::*;
use crate::error::StorageError;
use crate::registry::{BlockDevice, DeviceRegistry, device_index, has_device};

verus! {

/// A thin-provisioned volume inside a pool.
pub struct Volume {
    pub name: String,
    pub uuid: String,
    /// Logical size in bytes.
    pub size: u64,
    /// Whether physical space is committed only as data is written.
    pub thin: bool,
    /// The connection address, while the volume is exported.
    pub share: Option<String>,
}

/// `v` with its export state replaced by `share`.
pub open spec fn with_share(v: Volume, share: Option<String>) -> Volume {
    Volume { name: v.name, uuid: v.uuid, size: v.size, thin: v.thin, share }
}

/// No two volumes of `s` share a name.
pub open spec fn unique_volumes(s: Seq<Volume>) -> bool {
    forall|i: int, j: int|
        0 <= i < s.len() && 0 <= j < s.len() && #[trigger] s[i].name@ == #[trigger] s[j].name@
            ==> i == j
}

/// Whether `s` holds a volume called `name`.
pub open spec fn has_volume(s: Seq<Volume>, name: Seq<char>) -> bool {
    exists|i: int| 0 <= i < s.len() && #[trigger] s[i].name@ == name
}

/// Where the volume called `name` stands in `s`.
pub open spec fn volume_index(s: Seq<Volume>, name: Seq<char>) -> int {
    choose|i: int| 0 <= i < s.len() && #[trigger] s[i].name@ == name
}

/// The bytes provisioned to the volumes of `s`: the sum of their sizes.
pub open spec fn provisioned(s: Seq<Volume>) -> int
    decreases s.len(),
{
    if s.len() == 0 {
        0
    } else {
        provisioned(s.drop_last()) + s.last().size
    }
}

proof fn lemma_provisioned_update(s: Seq<Volume>, i: int, v: Volume)
    requires
        0 <= i < s.len(),
    ensures
        provisioned(s.update(i, v)) == provisioned(s) - s[i].size + v.size,
    decreases s.len(),
{
    if i == s.len() - 1 {
        assert(s.update(i, v).drop_last() =~= s.drop_last());
    } else {
        lemma_provisioned_update(s.drop_last(), i, v);
        assert(s.update(i, v).drop_last() =~= s.drop_last().update(i, v));
    }
}

proof fn lemma_provisioned_nonneg(s: Seq<Volume>)
    ensures
        provisioned(s) >= 0,
    decreases s.len(),
{
    if s.len() > 0 {
        lemma_provisioned_nonneg(s.drop_last());
    }
}

proof fn lemma_provisioned_remove(s: Seq<Volume>, i: int)
    requires
        0 <= i < s.len(),
    ensures
        provisioned(s.remove(i)) == provisioned(s) - s[i].size,
    decreases s.len(),
{
    if i == s.len() - 1 {
        assert(s.remove(i) =~= s.drop_last());
    } else {
        lemma_provisioned_remove(s.drop_last(), i);
        assert(s.remove(i).drop_last() =~= s.drop_last().remove(i));
    }
}

/// A logical volume store: a pool of volumes on one base device.
pub struct Pool {
    pub name: String,
    pub uuid: String,
    /// Name of the base device.
    pub base: String,
    /// Bytes that the pool may provision in all.
    pub capacity: u64,
    /// Bytes provisioned to the pool's volumes.
    pub used: u64,
    pub volumes: Vec<Volume>,
}

/// `a` and `b` are the same pool: same name, UUID, base device and capacity.
pub open spec fn same_identity(a: Pool, b: Pool) -> bool {
    a.name == b.name && a.uuid == b.uuid && a.base == b.base && a.capacity == b.capacity
}

/// What `create_lvol` does to a pool and returns.
pub open spec fn create_lvol_outcome(
    old: Pool,
    new: Pool,
    name: String,
    size: u64,
    thin: bool,
    uuid: String,
    r: Result<(), StorageError>,
) -> bool {
    if has_volume(old.volumes@, name@) {
        r == Err::<(), StorageError>(StorageError::AlreadyExists) && new == old
    } else if old.used + size > old.capacity {
        r == Err::<(), StorageError>(StorageError::CapacityExceeded) && new == old
    } else {
        &&& r is Ok
        &&& same_identity(new, old)
        &&& new.volumes@ == old.volumes@.push(
            (Volume { name, uuid, size, thin, share: None }),
        )
        &&& new.used == old.used + size
    }
}

/// What `share` does to a pool and returns.
pub open spec fn share_outcome(
    old: Pool,
    new: Pool,
    vol: Seq<char>,
    uri: String,
    r: Result<String, StorageError>,
) -> bool {
    if !has_volume(old.volumes@, vol) {
        r == Err::<String, StorageError>(StorageError::NotFound) && new == old
    } else {
        let i = volume_index(old.volumes@, vol);
        let v = old.volumes@[i];
        match v.share {
            Some(u) => r == Ok::<String, StorageError>(u) && new == old,
            None => {
                &&& r == Ok::<String, StorageError>(uri)
                &&& same_identity(new, old)
                &&& new.used == old.used
                &&& new.volumes@ == old.volumes@.update(i, with_share(v, Some(uri)))
            },
        }
    }
}

/// What `unshare` does to a pool and returns.
pub open spec fn unshare_outcome(old: Pool, new: Pool, vol: Seq<char>, r: Result<(), StorageError>) -> bool {
    if !has_volume(old.volumes@, vol) {
        r == Err::<(), StorageError>(StorageError::NotFound) && new == old
    } else {
        let i = volume_index(old.volumes@, vol);
        let v = old.volumes@[i];
        &&& r == Ok::<(), StorageError>(())
        &&& v.share is None ==> new == old
        &&& v.share is Some ==> same_identity(new, old) && new.used == old.used
            && new.volumes@ == old.volumes@.update(i, with_share(v, None))
    }
}

/// What `destroy_lvol` does to a pool and returns.
pub open spec fn destroy_lvol_outcome(old: Pool, new: Pool, vol: Seq<char>, r: Result<(), StorageError>) -> bool {
    if !has_volume(old.volumes@, vol) {
        r == Err::<(), StorageError>(StorageError::NotFound) && new == old
    } else {
        let i = volume_index(old.volumes@, vol);
        if old.volumes@[i].share is Some {
            r == Err::<(), StorageError>(StorageError::InUse) && new == old
        } else {
            &&& r is Ok
            &&& same_identity(new, old)
            &&& new.volumes@ == old.volumes@.remove(i)
            &&& new.used == old.used - old.volumes@[i].size
        }
    }
}

impl Pool {
    /// The volume names are unique, and `used` is what the volumes provision,
    /// within the capacity.
    pub open spec fn wf(&self) -> bool {
        &&& unique_volumes(self.volumes@)
        &&& self.used == provisioned(self.volumes@)
        &&& self.used <= self.capacity
    }

    /// Where the volume called `name` stands, if the pool holds it.
    fn find_volume(&self, name: &String) -> (r: Option<usize>)
        requires
            self.wf(),
        ensures
            r is None <==> !has_volume(self.volumes@, name@),
            r matches Some(i) ==> i < self.volumes@.len() && i == volume_index(
                self.volumes@,
                name@,
            ),
    {
        let mut i: usize = 0;
        while i < self.volumes.len()
            invariant
                self.wf(),
                i <= self.volumes@.len(),
                forall|j: int| 0 <= j < i ==> self.volumes@[j].name@ != name@,
            decreases self.volumes@.len() - i,
        {
            if self.volumes[i].name == *name {
                let ghost k = volume_index(self.volumes@, name@);
                assert(self.volumes@[k].name@ == self.volumes@[i as int].name@);
                return Some(i);
            }
            i += 1;
        }
        None
    }

    /// Replaces the export state of the volume at `i`.
    fn set_share(&mut self, i: usize, share: Option<String>)
        requires
            old(self).wf(),
            i < old(self).volumes@.len(),
        ensures
            final(self).wf(),
            same_identity(*final(self), *old(self)),
            final(self).used == old(self).used,
            final(self).volumes@ == old(self).volumes@.update(
                i as int,
                with_share(old(self).volumes@[i as int], share),
            ),
    {
        let v = Volume {
            name: self.volumes[i].name.clone(),
            uuid: self.volumes[i].uuid.clone(),
            size: self.volumes[i].size,
            thin: self.volumes[i].thin,
            share,
        };
        let ghost before = self.volumes@;
        self.volumes.set(i, v);
        proof {
            lemma_provisioned_update(before, i as int, v);
            assert(self.volumes@ =~= before.update(i as int, with_share(before[i as int], share)));
        }
    }

    /// Creates a volume of `size` bytes. Fails with `AlreadyExists` where the pool
    /// holds a volume of that name, and with `CapacityExceeded` where the pool
    /// cannot provision `size` more bytes.
    pub fn create_lvol(&mut self, name: String, size: u64, thin: bool, uuid: String) -> (r: Result<
        (),
        StorageError,
    >)
        requires
            old(self).wf(),
        ensures
            final(self).wf(),
            create_lvol_outcome(*old(self), *final(self), name, size, thin, uuid, r),
    {
        if self.find_volume(&name).is_some() {
            return Err(StorageError::AlreadyExists);
        }
        if size > self.capacity - self.used {
            return Err(StorageError::CapacityExceeded);
        }
        let ghost before = self.volumes@;
        let ghost n = name@;
        let v = Volume { name, uuid, size, thin, share: None };
        self.volumes.push(v);
        self.used = self.used + size;
        proof {
            assert(self.volumes@.drop_last() =~= before);
            assert forall|a: int, b: int|
                0 <= a < self.volumes@.len() && 0 <= b < self.volumes@.len()
                    && #[trigger] self.volumes@[a].name@ == #[trigger] self.volumes@[b].name@
                    implies a == b by {
                let last = self.volumes@.len() - 1;
                if a == last && b != last {
                    assert(before[b].name@ == n);
                } else if b == last && a != last {
                    assert(before[a].name@ == n);
                }
            }
        }
        Ok(())
    }

    /// Exports the volume called `vol`. Where it is exported already, its address
    /// is returned and nothing changes; else it is exported at `uri`, the address
    /// that the export layer published.
    pub fn share(&mut self, vol: &String, uri: String) -> (r: Result<String, StorageError>)
        requires
            old(self).wf(),
        ensures
            final(self).wf(),
            share_outcome(*old(self), *final(self), vol@, uri, r),
    {
        match self.find_volume(vol) {
            None => Err(StorageError::NotFound),
            Some(i) => {
                match &self.volumes[i].share {
                    Some(u) => Ok(u.clone()),
                    None => {
                        let published = uri.clone();
                        self.set_share(i, Some(uri));
                        Ok(published)
                    },
                }
            },
        }
    }

    /// Withdraws the export of the volume called `vol`; nothing changes where it
    /// is not exported.
    pub fn unshare(&mut self, vol: &String) -> (r: Result<(), StorageError>)
        requires
            old(self).wf(),
        ensures
            final(self).wf(),
            unshare_outcome(*old(self), *final(self), vol@, r),
    {
        match self.find_volume(vol) {
            None => Err(StorageError::NotFound),
            Some(i) => {
                if self.volumes[i].share.is_some() {
                    self.set_share(i, None);
                }
                Ok(())
            },
        }
    }

    /// Removes the volume called `vol` and releases what it provisioned. An
    /// exported volume is not removed: it fails with `InUse`.
    pub fn destroy_lvol(&mut self, vol: &String) -> (r: Result<(), StorageError>)
        requires
            old(self).wf(),
        ensures
            final(self).wf(),
            destroy_lvol_outcome(*old(self), *final(self), vol@, r),
    {
        match self.find_volume(vol) {
            None => Err(StorageError::NotFound),
            Some(i) => {
                if self.volumes[i].share.is_some() {
                    return Err(StorageError::InUse);
                }
                let ghost before = self.volumes@;
                let size = self.volumes[i].size;
                proof {
                    lemma_provisioned_remove(before, i as int);
                    lemma_provisioned_nonneg(before.remove(i as int));
                }
                self.volumes.remove(i);
                self.used = self.used - size;
                proof {
                    assert forall|a: int, b: int|
                        0 <= a < self.volumes@.len() && 0 <= b < self.volumes@.len()
                            && #[trigger] self.volumes@[a].name@
                            == #[trigger] self.volumes@[b].name@ implies a == b by {
                        let a0 = if a < i {
                            a
                        } else {
                            a + 1
                        };
                        let b0 = if b < i {
                            b
                        } else {
                            b + 1
                        };
                        assert(before[a0].name@ == before[b0].name@);
                    }
                }
                Ok(())
            },
        }
    }

    /// The volume called `vol`, if the pool holds one.
    pub fn lookup_volume(&self, vol: &String) -> (r: Option<&Volume>)
        requires
            self.wf(),
        ensures
            r is None <==> !has_volume(self.volumes@, vol@),
            r matches Some(v) ==> *v == self.volumes@[volume_index(self.volumes@, vol@)],
    {
        match self.find_volume(vol) {
            Some(i) => Some(&self.volumes[i]),
            None => None,
        }
    }
}

/// No two pools of `s` share a name.
pub open spec fn unique_pools(s: Seq<Pool>) -> bool {
    forall|i: int, j: int|
        0 <= i < s.len() && 0 <= j < s.len() && #[trigger] s[i].name@ == #[trigger] s[j].name@
            ==> i == j
}

/// Whether `s` holds a pool called `name`.
pub open spec fn has_pool(s: Seq<Pool>, name: Seq<char>) -> bool {
    exists|i: int| 0 <= i < s.len() && #[trigger] s[i].name@ == name
}

/// Where the pool called `name` stands in `s`.
pub open spec fn pool_index(s: Seq<Pool>, name: Seq<char>) -> int {
    choose|i: int| 0 <= i < s.len() && #[trigger] s[i].name@ == name
}

/// What `destroy` does to the pools and the devices, and returns.
pub open spec fn destroy_outcome(
    old_pools: Seq<Pool>,
    new_pools: Seq<Pool>,
    old_devices: Seq<BlockDevice>,
    new_devices: Seq<BlockDevice>,
    name: Seq<char>,
    r: Result<(), StorageError>,
) -> bool {
    if !has_pool(old_pools, name) {
        r == Err::<(), StorageError>(StorageError::NotFound) && new_pools == old_pools
            && new_devices == old_devices
    } else {
        let i = pool_index(old_pools, name);
        let base = old_pools[i].base@;
        if old_pools[i].volumes@.len() > 0 {
            r == Err::<(), StorageError>(StorageError::NotEmpty) && new_pools == old_pools
                && new_devices == old_devices
        } else {
            &&& r is Ok
            &&& new_pools == old_pools.remove(i)
            &&& has_device(old_devices, base) ==> new_devices == old_devices.remove(
                device_index(old_devices, base),
            )
            &&& !has_device(old_devices, base) ==> new_devices == old_devices
        }
    }
}

/// The process's active pools, keyed by name.
pub struct PoolRegistry {
    pools: Vec<Pool>,
}

impl PoolRegistry {
    /// The active pools.
    pub closed spec fn view(&self) -> Seq<Pool> {
        self.pools@
    }

    pub closed spec fn wf(&self) -> bool {
        &&& unique_pools(self.pools@)
        &&& forall|i: int| 0 <= i < self.pools@.len() ==> (#[trigger] self.pools@[i]).wf()
    }

    /// No pool is active.
    pub fn new() -> (r: PoolRegistry)
        ensures
            r.wf(),
            r@ == Seq::<Pool>::empty(),
    {
        PoolRegistry { pools: Vec::new() }
    }

    fn find(&self, name: &String) -> (r: Option<usize>)
        requires
            self.wf(),
        ensures
            r is None <==> !has_pool(self@, name@),
            r matches Some(i) ==> i < self@.len() && i == pool_index(self@, name@),
    {
        let mut i: usize = 0;
        while i < self.pools.len()
            invariant
                self.wf(),
                i <= self.pools@.len(),
                forall|j: int| 0 <= j < i ==> self.pools@[j].name@ != name@,
            decreases self.pools@.len() - i,
        {
            if self.pools[i].name == *name {
                let ghost k = pool_index(self@, name@);
                assert(self@[k].name@ == self@[i as int].name@);
                return Some(i);
            }
            i += 1;
        }
        None
    }

    /// Takes the pool at `i` out of the table.
    fn detach(&mut self, i: usize) -> (p: Pool)
        requires
            old(self).wf(),
            i < old(self)@.len(),
        ensures
            final(self).wf(),
            p == old(self)@[i as int],
            p.wf(),
            final(self)@ == old(self)@.remove(i as int),
            !has_pool(final(self)@, p.name@),
    {
        let ghost before = self.pools@;
        let p = self.pools.remove(i);
        proof {
            assert(before[i as int].wf());
            assert forall|a: int, b: int|
                0 <= a < self.pools@.len() && 0 <= b < self.pools@.len()
                    && #[trigger] self.pools@[a].name@ == #[trigger] self.pools@[b].name@
                    implies a == b by {
                let a0 = if a < i {
                    a
                } else {
                    a + 1
                };
                let b0 = if b < i {
                    b
                } else {
                    b + 1
                };
                assert(before[a0].name@ == before[b0].name@);
            }
            assert forall|j: int| 0 <= j < self.pools@.len() implies (#[trigger] self.pools@[j]).wf() by {
                let j0 = if j < i {
                    j
                } else {
                    j + 1
                };
                assert(before[j0] == self.pools@[j]);
            }
            assert forall|j: int| 0 <= j < self.pools@.len() implies #[trigger] self.pools@[j].name@
                != p.name@ by {
                let j0 = if j < i {
                    j
                } else {
                    j + 1
                };
                assert(before[j0] == self.pools@[j]);
            }
        }
        p
    }

    /// Puts a pool back into the table at `i`.
    fn attach(&mut self, i: usize, p: Pool)
        requires
            old(self).wf(),
            i <= old(self)@.len(),
            p.wf(),
            !has_pool(old(self)@, p.name@),
        ensures
            final(self).wf(),
            final(self)@ == old(self)@.insert(i as int, p),
    {
        let ghost before = self.pools@;
        let ghost n = p.name@;
        self.pools.insert(i, p);
        proof {
            assert forall|a: int, b: int|
                0 <= a < self.pools@.len() && 0 <= b < self.pools@.len()
                    && #[trigger] self.pools@[a].name@ == #[trigger] self.pools@[b].name@
                    implies a == b by {
                if a != i && b != i {
                    let a0 = if a < i {
                        a
                    } else {
                        a - 1
                    };
                    let b0 = if b < i {
                        b
                    } else {
                        b - 1
                    };
                    assert(before[a0].name@ == before[b0].name@);
                } else if a == i && b != i {
                    let b0 = if b < i {
                        b
                    } else {
                        b - 1
                    };
                    assert(before[b0].name@ == n);
                } else if b == i && a != i {
                    let a0 = if a < i {
                        a
                    } else {
                        a - 1
                    };
                    assert(before[a0].name@ == n);
                }
            }
            assert forall|j: int| 0 <= j < self.pools@.len() implies (#[trigger] self.pools@[j]).wf() by {
                if j < i {
                    assert(before[j] == self.pools@[j]);
                } else if j > i {
                    assert(before[j - 1] == self.pools@[j]);
                }
            }
        }
    }

    /// Activates the pool `name` on the first of `disks`. Where the base device
    /// holds pool metadata, `found` is the UUID recorded there and the pool is
    /// imported with it; else it is created with `uuid`. Fails with
    /// `AlreadyExists` where a pool of that name is active, and with `NotFound`
    /// where there is no disk or the first is not a registered device.
    pub fn create_or_import(
        &mut self,
        devices: &DeviceRegistry,
        name: String,
        disks: &Vec<String>,
        uuid: String,
        found: Option<String>,
    ) -> (r: Result<(), StorageError>)
        requires
            old(self).wf(),
            devices.wf(),
        ensures
            final(self).wf(),
            has_pool(old(self)@, name@) ==> r == Err::<(), StorageError>(
                StorageError::AlreadyExists,
            ) && final(self)@ == old(self)@,
            !has_pool(old(self)@, name@) && (disks@.len() == 0 || !has_device(
                devices@,
                disks@[0]@,
            )) ==> r == Err::<(), StorageError>(StorageError::NotFound) && final(self)@ == old(
                self,
            )@,
            !has_pool(old(self)@, name@) && disks@.len() > 0 && has_device(devices@, disks@[0]@)
                ==> {
                &&& r is Ok
                &&& final(self)@.len() == old(self)@.len() + 1
                &&& final(self)@.drop_last() == old(self)@
                &&& final(self)@.last().name == name
                &&& final(self)@.last().uuid == match found {
                    Some(u) => u,
                    None => uuid,
                }
                &&& final(self)@.last().base == disks@[0]
                &&& final(self)@.last().capacity == devices@[device_index(
                    devices@,
                    disks@[0]@,
                )].size
                &&& final(self)@.last().used == 0
                &&& final(self)@.last().volumes@.len() == 0
            },
    {
        if self.find(&name).is_some() {
            return Err(StorageError::AlreadyExists);
        }
        if disks.len() == 0 {
            return Err(StorageError::NotFound);
        }
        let capacity = match devices.lookup(&disks[0]) {
            None => {
                return Err(StorageError::NotFound);
            },
            Some(d) => d.size,
        };
        let pool_uuid = match found {
            Some(u) => u,
            None => uuid,
        };
        let p = Pool {
            name,
            uuid: pool_uuid,
            base: disks[0].clone(),
            capacity,
            used: 0,
            volumes: Vec::new(),
        };
        proof {
            assert(p.volumes@ =~= Seq::<Volume>::empty());
        }
        let n = self.pools.len();
        self.attach(n, p);
        proof {
            assert(self.pools@.drop_last() =~= old(self)@);
        }
        Ok(())
    }

    /// The pool called `name`, if one is active.
    pub fn lookup(&self, name: &String) -> (r: Option<&Pool>)
        requires
            self.wf(),
        ensures
            r is None <==> !has_pool(self@, name@),
            r matches Some(p) ==> *p == self@[pool_index(self@, name@)] && p.wf(),
    {
        match self.find(name) {
            Some(i) => Some(&self.pools[i]),
            None => None,
        }
    }

    /// All active pools.
    pub fn pools(&self) -> (r: &Vec<Pool>)
        ensures
            r@ == self@,
    {
        &self.pools
    }

    /// Number of active pools.
    pub fn count(&self) -> (r: usize)
        ensures
            r == self@.len(),
    {
        self.pools.len()
    }

    /// Creates a volume in the pool called `pool`: `NotFound` where no such pool
    /// is active, else as `Pool::create_lvol`.
    pub fn create_lvol(
        &mut self,
        pool: &String,
        name: String,
        size: u64,
        thin: bool,
        uuid: String,
    ) -> (r: Result<(), StorageError>)
        requires
            old(self).wf(),
        ensures
            final(self).wf(),
            !has_pool(old(self)@, pool@) ==> r == Err::<(), StorageError>(StorageError::NotFound)
                && final(self)@ == old(self)@,
            has_pool(old(self)@, pool@) ==> final(self)@ == old(self)@.update(
                pool_index(old(self)@, pool@),
                final(self)@[pool_index(old(self)@, pool@)],
            ) && create_lvol_outcome(
                old(self)@[pool_index(old(self)@, pool@)],
                final(self)@[pool_index(old(self)@, pool@)],
                name,
                size,
                thin,
                uuid,
                r,
            ),
    {
        match self.find(pool) {
            None => Err(StorageError::NotFound),
            Some(i) => {
                let mut p = self.detach(i);
                let r = p.create_lvol(name, size, thin, uuid);
                self.attach(i, p);
                proof {
                    assert(self@ =~= old(self)@.update(i as int, self@[i as int]));
                }
                r
            },
        }
    }

    /// Exports a volume of the pool called `pool`: `NotFound` where no such pool
    /// is active, else as `Pool::share`.
    pub fn share(&mut self, pool: &String, vol: &String, uri: String) -> (r: Result<
        String,
        StorageError,
    >)
        requires
            old(self).wf(),
        ensures
            final(self).wf(),
            !has_pool(old(self)@, pool@) ==> r == Err::<String, StorageError>(
                StorageError::NotFound,
            ) && final(self)@ == old(self)@,
            has_pool(old(self)@, pool@) ==> final(self)@ == old(self)@.update(
                pool_index(old(self)@, pool@),
                final(self)@[pool_index(old(self)@, pool@)],
            ) && share_outcome(
                old(self)@[pool_index(old(self)@, pool@)],
                final(self)@[pool_index(old(self)@, pool@)],
                vol@,
                uri,
                r,
            ),
    {
        match self.find(pool) {
            None => Err(StorageError::NotFound),
            Some(i) => {
                let mut p = self.detach(i);
                let r = p.share(vol, uri);
                self.attach(i, p);
                proof {
                    assert(self@ =~= old(self)@.update(i as int, self@[i as int]));
                }
                r
            },
        }
    }

    /// Withdraws the export of a volume of the pool called `pool`: `NotFound`
    /// where no such pool is active, else as `Pool::unshare`.
    pub fn unshare(&mut self, pool: &String, vol: &String) -> (r: Result<(), StorageError>)
        requires
            old(self).wf(),
        ensures
            final(self).wf(),
            !has_pool(old(self)@, pool@) ==> r == Err::<(), StorageError>(StorageError::NotFound)
                && final(self)@ == old(self)@,
            has_pool(old(self)@, pool@) ==> final(self)@ == old(self)@.update(
                pool_index(old(self)@, pool@),
                final(self)@[pool_index(old(self)@, pool@)],
            ) && unshare_outcome(
                old(self)@[pool_index(old(self)@, pool@)],
                final(self)@[pool_index(old(self)@, pool@)],
                vol@,
                r,
            ),
    {
        match self.find(pool) {
            None => Err(StorageError::NotFound),
            Some(i) => {
                let mut p = self.detach(i);
                let r = p.unshare(vol);
                self.attach(i, p);
                proof {
                    assert(self@ =~= old(self)@.update(i as int, self@[i as int]));
                }
                r
            },
        }
    }

    /// Removes a volume of the pool called `pool`: `NotFound` where no such pool
    /// is active, else as `Pool::destroy_lvol`.
    pub fn destroy_lvol(&mut self, pool: &String, vol: &String) -> (r: Result<(), StorageError>)
        requires
            old(self).wf(),
        ensures
            final(self).wf(),
            !has_pool(old(self)@, pool@) ==> r == Err::<(), StorageError>(StorageError::NotFound)
                && final(self)@ == old(self)@,
            has_pool(old(self)@, pool@) ==> final(self)@ == old(self)@.update(
                pool_index(old(self)@, pool@),
                final(self)@[pool_index(old(self)@, pool@)],
            ) && destroy_lvol_outcome(
                old(self)@[pool_index(old(self)@, pool@)],
                final(self)@[pool_index(old(self)@, pool@)],
                vol@,
                r,
            ),
    {
        match self.find(pool) {
            None => Err(StorageError::NotFound),
            Some(i) => {
                let mut p = self.detach(i);
                let r = p.destroy_lvol(vol);
                self.attach(i, p);
                proof {
                    assert(self@ =~= old(self)@.update(i as int, self@[i as int]));
                }
                r
            },
        }
    }

    /// Deactivates the pool called `name`, which holds no volume, and removes its
    /// base device from `devices`. Fails with `NotFound` where no such pool is
    /// active and with `NotEmpty` where it still holds volumes.
    pub fn destroy(&mut self, devices: &mut DeviceRegistry, name: &String) -> (r: Result<
        (),
        StorageError,
    >)
        requires
            old(self).wf(),
            old(devices).wf(),
            has_pool(old(self)@, name@) && has_device(
                old(devices)@,
                old(self)@[pool_index(old(self)@, name@)].base@,
            ) ==> old(devices).open_handles()[device_index(
                old(devices)@,
                old(self)@[pool_index(old(self)@, name@)].base@,
            )] == 0,
        ensures
            final(self).wf(),
            final(devices).wf(),
            destroy_outcome(old(self)@, final(self)@, old(devices)@, final(devices)@, name@, r),
    {
        match self.find(name) {
            None => Err(StorageError::NotFound),
            Some(i) => {
                if self.pools[i].volumes.len() > 0 {
                    return Err(StorageError::NotEmpty);
                }
                let p = self.detach(i);
                let _ = devices.destroy(&p.base);
                Ok(())
            },
        }
    }
}

/// Sharing a volume twice exports it once: the second call returns the address
/// of the first and changes nothing.
pub proof fn lemma_share_idempotent(
    p0: Pool,
    p1: Pool,
    p2: Pool,
    vol: Seq<char>,
    uri1: String,
    uri2: String,
    r1: Result<String, StorageError>,
    r2: Result<String, StorageError>,
)
    requires
        p0.wf(),
        share_outcome(p0, p1, vol, uri1, r1),
        share_outcome(p1, p2, vol, uri2, r2),
    ensures
        r2 == r1,
        p2 == p1,
{
    if has_volume(p0.volumes@, vol) {
        let i = volume_index(p0.volumes@, vol);
        if p0.volumes@[i].share is None {
            let v = with_share(p0.volumes@[i], Some(uri1));
            assert(p1.volumes@[i] == v);
            assert(p1.volumes@[i].name@ == vol);
            assert(has_volume(p1.volumes@, vol));
            let k = volume_index(p1.volumes@, vol);
            if k != i {
                assert(p1.volumes@[k] == p0.volumes@[k]);
            }
            assert(p0.volumes@[k].name@ == p0.volumes@[i].name@);
            assert(k == i);
        }
    }
}

/// Unsharing a volume twice is the same as unsharing it once.
pub proof fn lemma_unshare_idempotent(
    p0: Pool,
    p1: Pool,
    p2: Pool,
    vol: Seq<char>,
    r1: Result<(), StorageError>,
    r2: Result<(), StorageError>,
)
    requires
        p0.wf(),
        unshare_outcome(p0, p1, vol, r1),
        unshare_outcome(p1, p2, vol, r2),
    ensures
        r2 == r1,
        p2 == p1,
{
    if has_volume(p0.volumes@, vol) {
        let i = volume_index(p0.volumes@, vol);
        if p0.volumes@[i].share is Some {
            assert(p1.volumes@[i] == with_share(p0.volumes@[i], None));
            assert(p1.volumes@[i].name@ == vol);
            assert(has_volume(p1.volumes@, vol));
            let k = volume_index(p1.volumes@, vol);
            if k != i {
                assert(p1.volumes@[k] == p0.volumes@[k]);
            }
            assert(p0.volumes@[k].name@ == p0.volumes@[i].name@);
            assert(k == i);
        }
    }
}

/// Destroying the only pool, once it holds no volume, on the only device leaves
/// no pool and no device.
pub proof fn lemma_last_pool_destroyed(
    pools: Seq<Pool>,
    pools_after: Seq<Pool>,
    devices: Seq<BlockDevice>,
    devices_after: Seq<BlockDevice>,
    name: Seq<char>,
    r: Result<(), StorageError>,
)
    requires
        pools.len() == 1,
        pools[0].name@ == name,
        pools[0].volumes@.len() == 0,
        devices.len() == 1,
        devices[0].name@ == pools[0].base@,
        destroy_outcome(pools, pools_after, devices, devices_after, name, r),
    ensures
        r is Ok,
        pools_after.len() == 0,
        devices_after.len() == 0,
{
    assert(has_pool(pools, name));
    assert(has_device(devices, pools[0].base@));
}

} // verus!
