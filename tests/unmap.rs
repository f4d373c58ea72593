use mayastor::completion::{submission_result, CompletionToken, TokenState};
use mayastor::error::StorageError;
use mayastor::pool::PoolRegistry;
use mayastor::registry::{BlockDevice, DeviceRegistry};
use mayastor::store::SparseStore;

const DISKNAME1: &str = "/tmp/disk1.img";
const FS_BLOCKSIZE: u64 = 4096;

fn device(name: &str, size: u64) -> BlockDevice {
    BlockDevice {
        name: name.to_string(),
        block_size: 512,
        size,
        unmap_supported: true,
        read_only: false,
    }
}

#[test]
fn unmap_bdev_test() {
    let fs_blocksize = FS_BLOCKSIZE;
    assert!(16 * fs_blocksize <= 64 * 1024);
    let mut store = SparseStore::new(fs_blocksize, (64 * 1024 / fs_blocksize) as usize);
    assert_eq!(store.allocated_blocks(), 0, "expected 0 blocks");

    // Create the device, open and close a handle, do no I/O.
    let mut devices = DeviceRegistry::new();
    devices.register(device(DISKNAME1, 64 * 1024)).unwrap();
    let handle = devices.open(&DISKNAME1.to_string(), true, true).unwrap();
    devices.close(handle);
    devices.destroy(&DISKNAME1.to_string()).unwrap();
    assert_eq!(store.allocated_blocks(), 0, "expected 0 blocks");

    let blocksize = fs_blocksize;
    store.write_at(4 * blocksize, 10 * blocksize);
    assert_eq!(store.allocated_blocks() * 512, 10 * fs_blocksize);

    store.unmap(6 * blocksize, 4 * blocksize);
    assert_eq!(store.allocated_blocks() * 512, 6 * fs_blocksize);

    store.unmap((6 + 4) * blocksize, 4 * blocksize);
    assert_eq!(store.allocated_blocks() * 512, 2 * fs_blocksize);

    if fs_blocksize > 1024 {
        store.unmap(4 * blocksize, 1024);
        assert_eq!(store.allocated_blocks() * 512, 2 * fs_blocksize);
    }

    store.unmap(4 * blocksize, 2 * blocksize);
    assert_eq!(store.allocated_blocks(), 0, "expected 0 blocks");
}

#[test]
fn unmap_lvol_test() {
    const NUM_VOLS: usize = 4;
    const FILE_SIZE: u64 = 64 * 1024;
    const VOL_SIZE: u64 = FILE_SIZE / (NUM_VOLS as u64);

    let mut store = SparseStore::new(FS_BLOCKSIZE, (FILE_SIZE / FS_BLOCKSIZE) as usize);
    let mut devices = DeviceRegistry::new();
    devices.register(device(DISKNAME1, FILE_SIZE)).unwrap();

    let mut pools = PoolRegistry::new();
    pools
        .create_or_import(
            &devices,
            "tpool".to_string(),
            &vec![DISKNAME1.to_string()],
            "7c1c3a9e".to_string(),
            None,
        )
        .unwrap();

    assert_eq!(pools.count(), 1);
    let tpool = "tpool".to_string();
    let pool = pools.lookup(&tpool).unwrap();
    assert_eq!(pool.name, "tpool");
    assert_eq!(pool.used, 0);
    assert_eq!(pool.base, DISKNAME1);

    for i in 0..NUM_VOLS {
        pools
            .create_lvol(&tpool, format!("vol-{}", i), VOL_SIZE, true, format!("uuid-{}", i))
            .unwrap();
    }
    assert_eq!(pools.lookup(&tpool).unwrap().volumes.len(), NUM_VOLS);

    let mut uris = Vec::new();
    for i in 0..NUM_VOLS {
        let uri = pools
            .share(&tpool, &format!("vol-{}", i), format!("nvmf://127.0.0.1:8420/vol-{}", i))
            .unwrap();
        uris.push(uri);
    }
    assert_eq!(uris.len(), NUM_VOLS);

    // Random data written through every export lands on the base device.
    for i in 0..NUM_VOLS as u64 {
        store.write_at(i * VOL_SIZE, VOL_SIZE);
    }
    assert!(store.allocated_blocks() > 0, "number of allocated blocks should be non-zero");

    for i in 0..NUM_VOLS {
        let name = format!("vol-{}", i);
        pools.unshare(&tpool, &name).unwrap();
        pools.destroy_lvol(&tpool, &name).unwrap();
    }
    assert_eq!(pools.lookup(&tpool).unwrap().volumes.len(), 0);

    pools.destroy(&mut devices, &tpool).unwrap();
    assert_eq!(pools.count(), 0);
    assert_eq!(devices.count(), 0);
}

#[test]
fn fresh_store_has_nothing_allocated() {
    let store = SparseStore::new(4096, 16);
    assert_eq!(store.allocated_blocks(), 0);
    assert_eq!(store.size(), 65536);
    assert_eq!(store.unit(), 4096);
}

#[test]
fn write_of_whole_units_allocates_them() {
    let mut store = SparseStore::new(4096, 16);
    store.write_at(0, 3 * 4096);
    assert_eq!(store.allocated_blocks(), 3 * 8);
}

#[test]
fn partial_write_allocates_every_touched_unit() {
    let mut store = SparseStore::new(4096, 16);
    store.write_at(4000, 200);
    assert_eq!(store.allocated_blocks(), 2 * 8);
    store.write_at(0, 0);
    assert_eq!(store.allocated_blocks(), 2 * 8);
}

#[test]
fn short_unmap_keeps_allocation() {
    let mut store = SparseStore::new(4096, 16);
    store.write_at(0, 65536);
    store.unmap(100, 4095);
    assert_eq!(store.allocated_blocks(), 16 * 8);
    store.unmap(4095, 4097);
    assert_eq!(store.allocated_blocks(), 15 * 8);
}

#[test]
fn unmap_of_whole_units_frees_them() {
    let mut store = SparseStore::new(4096, 16);
    store.write_at(0, 65536);
    store.unmap(8192, 4 * 4096);
    assert_eq!(store.allocated_blocks(), 12 * 8);
    store.unmap(0, 65536);
    assert_eq!(store.allocated_blocks(), 0);
}

#[test]
fn submission_status() {
    assert_eq!(submission_result(-22), Err(StorageError::IoSubmission { code: -22 }));
    assert_eq!(submission_result(0), Ok(()));
}

#[test]
fn token_resolves_once() {
    let mut ok = CompletionToken::new();
    assert_eq!(ok.state(), TokenState::Pending);
    ok.resolve(true);
    assert_eq!(ok.state(), TokenState::Resolved { success: true });
    assert_eq!(ok.collect(), Ok(()));
    assert_eq!(ok.state(), TokenState::Collected);

    let mut failed = CompletionToken::new();
    failed.resolve(false);
    assert_eq!(failed.collect(), Err(StorageError::IoCompletion));
}

#[test]
fn registry_errors() {
    let mut devices = DeviceRegistry::new();
    let name = "/dev/ro".to_string();
    let mut ro = device("/dev/ro", 4096);
    ro.read_only = true;
    devices.register(ro).unwrap();
    assert_eq!(devices.register(device("/dev/ro", 8192)), Err(StorageError::AlreadyExists));
    assert_eq!(devices.open(&"/dev/none".to_string(), true, false).err(), Some(StorageError::NotFound));
    assert_eq!(devices.open(&name, true, true).err(), Some(StorageError::PermissionDenied));
    let h = devices.open(&name, true, false).unwrap();
    assert_eq!(h.device(), "/dev/ro");
    assert!(!h.writable());
    assert_eq!(devices.handle_count(&name), Some(1));
    devices.close(h);
    assert_eq!(devices.handle_count(&name), Some(0));
    assert_eq!(devices.lookup(&name).unwrap().size, 4096);
    assert_eq!(devices.destroy(&"/dev/none".to_string()).err(), Some(StorageError::NotFound));
    assert_eq!(devices.destroy(&name).unwrap().size, 4096);
    assert_eq!(devices.count(), 0);
}

fn one_pool() -> (DeviceRegistry, PoolRegistry) {
    let mut devices = DeviceRegistry::new();
    devices.register(device("/dev/a", 1000)).unwrap();
    let mut pools = PoolRegistry::new();
    pools
        .create_or_import(&devices, "p".to_string(), &vec!["/dev/a".to_string()], "fresh".to_string(), None)
        .unwrap();
    (devices, pools)
}

#[test]
fn pool_create_or_import() {
    let (devices, mut pools) = one_pool();
    assert_eq!(pools.lookup(&"p".to_string()).unwrap().uuid, "fresh");
    assert_eq!(pools.lookup(&"p".to_string()).unwrap().capacity, 1000);
    assert_eq!(
        pools.create_or_import(&devices, "p".to_string(), &vec!["/dev/a".to_string()], "x".to_string(), None),
        Err(StorageError::AlreadyExists)
    );
    assert_eq!(
        pools.create_or_import(&devices, "q".to_string(), &vec![], "x".to_string(), None),
        Err(StorageError::NotFound)
    );
    assert_eq!(
        pools.create_or_import(&devices, "q".to_string(), &vec!["/dev/b".to_string()], "x".to_string(), None),
        Err(StorageError::NotFound)
    );
    pools
        .create_or_import(
            &devices,
            "q".to_string(),
            &vec!["/dev/a".to_string()],
            "x".to_string(),
            Some("on-disk".to_string()),
        )
        .unwrap();
    assert_eq!(pools.lookup(&"q".to_string()).unwrap().uuid, "on-disk");
    assert_eq!(pools.count(), 2);
}

#[test]
fn volume_capacity_and_names() {
    let (_devices, mut pools) = one_pool();
    let p = "p".to_string();
    pools.create_lvol(&p, "a".to_string(), 600, true, "u1".to_string()).unwrap();
    assert_eq!(pools.create_lvol(&p, "a".to_string(), 1, true, "u2".to_string()), Err(StorageError::AlreadyExists));
    assert_eq!(pools.create_lvol(&p, "b".to_string(), 401, true, "u3".to_string()), Err(StorageError::CapacityExceeded));
    pools.create_lvol(&p, "b".to_string(), 400, false, "u4".to_string()).unwrap();
    assert_eq!(pools.lookup(&p).unwrap().used, 1000);
    assert_eq!(pools.create_lvol(&"zz".to_string(), "c".to_string(), 1, true, "u".to_string()), Err(StorageError::NotFound));
    pools.destroy_lvol(&p, &"a".to_string()).unwrap();
    assert_eq!(pools.lookup(&p).unwrap().used, 400);
    assert_eq!(pools.destroy_lvol(&p, &"a".to_string()), Err(StorageError::NotFound));
}

#[test]
fn share_and_unshare_are_idempotent() {
    let (_devices, mut pools) = one_pool();
    let p = "p".to_string();
    let v = "v".to_string();
    pools.create_lvol(&p, "v".to_string(), 10, true, "u".to_string()).unwrap();
    assert_eq!(pools.unshare(&p, &v), Ok(()));
    assert_eq!(pools.share(&p, &v, "nvmf://first".to_string()), Ok("nvmf://first".to_string()));
    assert_eq!(pools.share(&p, &v, "nvmf://second".to_string()), Ok("nvmf://first".to_string()));
    assert_eq!(pools.destroy_lvol(&p, &v), Err(StorageError::InUse));
    assert_eq!(pools.unshare(&p, &v), Ok(()));
    assert_eq!(pools.unshare(&p, &v), Ok(()));
    assert!(pools.lookup(&p).unwrap().lookup_volume(&v).unwrap().share.is_none());
    assert_eq!(pools.share(&p, &"w".to_string(), "x".to_string()), Err(StorageError::NotFound));
}

#[test]
fn pool_with_volumes_is_not_destroyed() {
    let (mut devices, mut pools) = one_pool();
    let p = "p".to_string();
    pools.create_lvol(&p, "v".to_string(), 10, true, "u".to_string()).unwrap();
    assert_eq!(pools.destroy(&mut devices, &p), Err(StorageError::NotEmpty));
    assert_eq!(pools.count(), 1);
    assert_eq!(devices.count(), 1);
    pools.destroy_lvol(&p, &"v".to_string()).unwrap();
    assert_eq!(pools.destroy(&mut devices, &p), Ok(()));
    assert_eq!(pools.destroy(&mut devices, &p), Err(StorageError::NotFound));
    assert_eq!(pools.count(), 0);
    assert_eq!(devices.count(), 0);
}
