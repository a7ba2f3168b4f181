use droidvm::guest_mem::GuestMemory;
use droidvm::guest_mem::MemoryRegion;
use droidvm::guest_mem::MemoryRegionPurpose;
use droidvm::pool::pool_handle_at;
use droidvm::pool::HostBuffer;
use droidvm::pool::MappedPool;
use droidvm::pool::MediaPoolAllocator;
use droidvm::pool::PoolBufferAllocator;
use droidvm::pool::PoolError;
use droidvm::pool::PoolHandle;
use droidvm::pool::PoolRequest;
use droidvm::pool::PoolResponse;
use droidvm::pool::PoolServer;
use droidvm::pool::RemotePool;
use droidvm::pool::RemotePoolAllocator;
use droidvm::pool::RemoteStep;
use droidvm::pool::ServerAction;
use droidvm::pool::ServerState;
use droidvm::pool::POOL_SERVER_MAX_CONSECUTIVE_ERRORS;

const POOL_SIZE: u64 = 16 << 20;
const PAGE: u64 = 4096;

fn handle(size: u64) -> PoolHandle {
    PoolHandle { shm: 7, fd_offset: 0, gpa: 0x1_0000_0000, size }
}

fn pool() -> MediaPoolAllocator {
    MediaPoolAllocator::new(MappedPool::new(handle(POOL_SIZE), PAGE)).ok().unwrap()
}

/// What an offset space answers that gives the first place that fits.
fn first_fit(pool: &MediaPoolAllocator, len: u64) -> Option<u64> {
    let size = pool.request_size(len).ok()?;
    (0..POOL_SIZE / PAGE).map(|n| n * PAGE).find(|&offset| pool.is_unheld(offset, size))
}

fn reserve(pool: &mut MediaPoolAllocator, lease: &PoolBufferAllocator, len: u64) -> Result<u64, i32> {
    let answer = first_fit(pool, len);
    pool.reserve(len, lease.holder(), answer)
}

fn allocate(
    pool: &mut MediaPoolAllocator,
    lease: &PoolBufferAllocator,
    len: u64,
) -> Result<HostBuffer, i32> {
    let answer = first_fit(pool, len);
    pool.allocate(len, lease.holder(), answer, true)
}

#[test]
fn reserve_and_unreserve_round_trip_with_an_owner_check() {
    let mut pool = pool();
    let page = PAGE;
    let camera = pool.lease("camera".to_string());
    let encoder = pool.lease("encoder".to_string());

    let offset = reserve(&mut pool, &camera, 5 * page).unwrap();
    assert_eq!(offset % page, 0);
    assert_eq!(pool.used_bytes(), 5 * page);

    assert_eq!(reserve(&mut pool, &camera, 0), Err(libc::EINVAL));
    assert_eq!(reserve(&mut pool, &camera, u64::MAX), Err(libc::EINVAL));
    assert_eq!(reserve(&mut pool, &camera, POOL_SIZE + page), Err(libc::EINVAL));
    assert_eq!(pool.used_bytes(), 5 * page);

    assert_eq!(pool.unreserve(offset, encoder.holder()), Err(libc::EINVAL));
    assert_eq!(pool.unreserve(offset + 100 * page, camera.holder()), Err(libc::EINVAL));
    assert_eq!(pool.used_bytes(), 5 * page, "a refused release frees nothing");

    pool.unreserve(offset, camera.holder()).unwrap();
    assert_eq!(pool.used_bytes(), 0);
    assert_eq!(pool.unreserve(offset, camera.holder()), Err(libc::EINVAL));
}

#[test]
fn dropping_a_lease_gives_its_buffers_back_to_the_pool() {
    let mut pool = pool();
    let page = PAGE;
    let len = 4 * page;

    let lease = pool.lease("lb0".to_string());
    let buffers: Vec<HostBuffer> =
        (0..3).map(|_| allocate(&mut pool, &lease, len).unwrap()).collect();
    assert_eq!(pool.live_count(), 3);
    assert_eq!(pool.used_bytes(), 3 * len);
    let mut offsets: Vec<u64> = buffers.iter().map(|b| b.pool_offset.unwrap()).collect();
    offsets.sort_unstable();
    offsets.dedup();
    assert_eq!(offsets.len(), 3);
    assert!(offsets.iter().all(|o| o % page == 0 && *o < POOL_SIZE));

    let owner = lease.holder();
    drop(buffers);
    assert_eq!(pool.used_bytes(), 3 * len, "a dropped buffer keeps its reservation");
    assert_eq!(pool.release_owner(owner), 3);
    assert_eq!(pool.live_count(), 0);
    assert_eq!(pool.used_bytes(), 0);
    assert_eq!(pool.release_owner(owner), 0);

    let next = pool.lease("lb0".to_string());
    let whole = allocate(&mut pool, &next, POOL_SIZE).unwrap();
    assert_eq!(whole.pool_offset, Some(0));
    pool.release(whole, next.holder());
    assert_eq!(pool.used_bytes(), 0);
}

#[test]
fn a_sweep_only_takes_the_buffers_of_its_own_lease() {
    let mut pool = pool();
    let len = 4 * PAGE;

    let first = pool.lease("lb0".to_string());
    let second = pool.lease("simple_device".to_string());
    assert_ne!(first.holder(), second.holder());
    assert_eq!(second.name().as_str(), "simple_device");
    let kept = allocate(&mut pool, &second, len).unwrap();
    let dropped = allocate(&mut pool, &first, len).unwrap();
    assert_ne!(kept.pool_offset, dropped.pool_offset);
    assert_eq!(pool.used_bytes(), 2 * len);

    pool.release_owner(first.holder());
    assert_eq!(pool.live_count(), 1, "the other device keeps its buffer");
    assert_eq!(pool.used_bytes(), len);

    pool.release(kept, second.holder());
    assert_eq!(pool.used_bytes(), 0);
}

#[test]
fn the_pool_is_found_again_by_its_guest_base() {
    let ram_base = 0x8000_0000u64;
    let ram_size = 4 * PAGE;
    let pool_gpa = 0x1_0000_0000u64;
    let region = |guest_addr: u64, size: u64, shm_offset: u64| MemoryRegion {
        guest_addr,
        size,
        shm: 7,
        shm_offset,
        purpose: MemoryRegionPurpose::GuestMemoryRegion,
    };
    let mem = GuestMemory {
        regions: vec![region(ram_base, ram_size, 0), region(pool_gpa, POOL_SIZE, ram_size)],
        protected: false,
    };

    let handle = pool_handle_at(&mem, pool_gpa).unwrap();
    assert_eq!((handle.gpa, handle.size), (pool_gpa, POOL_SIZE));
    assert_eq!(handle.fd_offset, ram_size, "the pool sits behind guest RAM in the memfd");

    let mut pool = MediaPoolAllocator::new(MappedPool::new(handle, PAGE)).ok().unwrap();
    assert_eq!(pool.guest_range(), (pool_gpa, POOL_SIZE));
    let lease = pool.lease("lb0".to_string());
    let buffer = allocate(&mut pool, &lease, PAGE).unwrap();
    let offset = buffer.pool_offset.unwrap();
    // What is written through the buffer is the guest's bytes at its offset, and not those of
    // the RAM in front of it.
    let mut object = vec![0u8; (ram_size + POOL_SIZE) as usize];
    let at = buffer.fd_offset as usize;
    object[at..at + 16].copy_from_slice(&[0xa5; 16]);
    let in_pool = mem.find_region(pool_gpa + offset).unwrap();
    let seen = (in_pool.shm_offset + offset) as usize;
    assert_eq!(&object[seen..seen + 16], &[0xa5; 16]);
    let in_ram = mem.find_region(ram_base + offset).unwrap();
    let seen = (in_ram.shm_offset + offset) as usize;
    assert_eq!(&object[seen..seen + 16], &[0; 16]);
    pool.release(buffer, lease.holder());

    let e = pool_handle_at(&mem, pool_gpa + PAGE)
        .err()
        .expect("a base inside a region is not that region's base");
    assert!(e.text().contains("no memory region starts at"), "{:?}", e);
    assert!(pool_handle_at(&mem, 0).is_err());
}

#[test]
fn an_exhausted_pool_answers_enomem_and_stays_usable() {
    let mut pool = pool();
    let lease = pool.lease("lb0".to_string());
    let whole = allocate(&mut pool, &lease, POOL_SIZE).unwrap();
    assert_eq!(allocate(&mut pool, &lease, PAGE).err(), Some(libc::ENOMEM));
    assert_eq!(pool.live_count(), 1);
    pool.release(whole, lease.holder());
    assert_eq!(pool.used_bytes(), 0);
    let again = allocate(&mut pool, &lease, POOL_SIZE).unwrap();
    assert_eq!(again.pool_offset, Some(0));
    pool.release(again, lease.holder());
}

#[test]
fn a_pool_that_is_not_whole_pages_is_refused() {
    let e = MediaPoolAllocator::new(MappedPool::new(handle(PAGE + 1), PAGE)).err().unwrap();
    assert_eq!(e, PoolError::NotWholePages);
    assert_eq!(e.text(), "the media_host pool's size is not a whole number of pages");
    assert!(MediaPoolAllocator::new(MappedPool::new(handle(0), PAGE)).is_err());
}

/// A helper and its server, and what is between them.
struct Helper {
    server: PoolServer,
    client: RemotePoolAllocator,
}

impl Helper {
    fn new(pool: &mut MediaPoolAllocator, card: &str, mapped: u64) -> Helper {
        let lease = pool.lease(card.to_string());
        let remote = RemotePool::new(MappedPool::new(handle(mapped), PAGE));
        Helper {
            server: PoolServer::new(lease),
            client: RemotePoolAllocator::new(remote, card.to_string()),
        }
    }

    /// What the server answers; nothing where it answers nothing.
    fn serve(&mut self, pool: &mut MediaPoolAllocator, request: PoolRequest) -> Option<PoolResponse> {
        if self.server.current() != ServerState::Serving {
            return None;
        }
        let answer = match request {
            PoolRequest::Reserve { len } => first_fit(pool, len),
            PoolRequest::Release { .. } => None,
        };
        match self.server.on_request(pool, request, answer) {
            ServerAction::Answer(response) => Some(response),
            _ => None,
        }
    }

    fn allocate(&mut self, pool: &mut MediaPoolAllocator, len: u64) -> Result<HostBuffer, i32> {
        let request = self.client.allocate(len)?;
        let answer = self.serve(pool, request);
        match self.client.on_allocated(len, answer, true) {
            RemoteStep::Built(buffer) => Ok(buffer),
            RemoteStep::GiveBack { offset, errno } => {
                if let Some(request) = self.client.give_back(offset) {
                    let answer = self.serve(pool, request);
                    self.client.on_given_back(answer);
                }
                Err(errno)
            }
            RemoteStep::Failed(errno) => Err(errno),
        }
    }

    fn release(&mut self, pool: &mut MediaPoolAllocator, buffer: HostBuffer) {
        if let Some(request) = self.client.release(buffer) {
            let answer = self.serve(pool, request);
            self.client.on_given_back(answer);
        }
    }
}

#[test]
fn the_vmm_serves_the_pool_to_remote_allocators() {
    let page = PAGE;
    let mut pool = pool();
    let mut camera = Helper::new(&mut pool, "camera", POOL_SIZE);
    let mut encoder = Helper::new(&mut pool, "encoder", POOL_SIZE);

    let raw = camera.allocate(&mut pool, 5 * page).unwrap();
    let coded = encoder.allocate(&mut pool, 2 * page).unwrap();
    let (raw_offset, coded_offset) = (raw.pool_offset.unwrap(), coded.pool_offset.unwrap());
    assert_ne!(raw_offset, coded_offset);
    assert!(raw_offset % page == 0 && coded_offset % page == 0);
    assert_eq!(pool.used_bytes(), 7 * page);
    assert_eq!(raw.fd_offset, raw_offset);

    assert_eq!(camera.allocate(&mut pool, POOL_SIZE).err(), Some(libc::ENOMEM));
    assert_eq!(camera.allocate(&mut pool, 0).err(), Some(libc::EINVAL));
    camera.release(&mut pool, raw);
    encoder.release(&mut pool, coded);
    assert_eq!(pool.used_bytes(), 0);
    let whole = encoder.allocate(&mut pool, POOL_SIZE).unwrap();
    assert_eq!(whole.pool_offset, Some(0));

    let foreign = MappedPool::new(handle(POOL_SIZE), PAGE).buffer_at(0, page, true).unwrap();
    camera.release(&mut pool, foreign);
    assert_eq!(pool.used_bytes(), POOL_SIZE, "a foreign release frees nothing");

    encoder.server.on_closed(&mut pool);
    assert_eq!(pool.used_bytes(), 0, "the sweep reclaimed the dead helper's bytes");
    assert_eq!(pool.live_count(), 0);
    assert_eq!(encoder.server.current(), ServerState::Closed);

    let after = camera.allocate(&mut pool, POOL_SIZE).unwrap();
    assert_eq!(after.pool_offset, Some(0));
    camera.release(&mut pool, after);
    camera.server.on_closed(&mut pool);
    assert_eq!(pool.used_bytes(), 0);
}

#[test]
fn a_dead_vmm_is_eio_within_the_timeout() {
    let page = PAGE;
    let remote = RemotePool::new(MappedPool::new(handle(POOL_SIZE), PAGE));
    let mut client = RemotePoolAllocator::new(remote, "decoder".to_string());
    // No answer comes in time.
    client.allocate(page).unwrap();
    assert_eq!(client.on_allocated(page, None, true), RemoteStep::Failed(libc::EIO));
    // Out of step is for good: the next request fails at once, without waiting again.
    assert_eq!(client.allocate(page).err(), Some(libc::EIO));

    // Releasing into the void is survived.
    let orphan = MappedPool::new(handle(POOL_SIZE), PAGE).buffer_at(0, page, true).unwrap();
    assert_eq!(client.release(orphan), None);
    assert_eq!(droidvm::pool::POOL_RPC_TIMEOUT_MS, 5000);
}

#[test]
fn an_answer_to_something_else_ends_the_connection() {
    let remote = RemotePool::new(MappedPool::new(handle(POOL_SIZE), PAGE));
    let mut client = RemotePoolAllocator::new(remote, "decoder".to_string());
    client.allocate(PAGE).unwrap();
    let step = client.on_allocated(PAGE, Some(PoolResponse::Released), true);
    assert_eq!(step, RemoteStep::Failed(libc::EIO));
    assert_eq!(client.allocate(PAGE).err(), Some(libc::EIO));
}

#[test]
fn a_buffer_that_cannot_be_built_returns_its_reservation() {
    let page = PAGE;
    let mut pool = pool();
    let mut client = Helper::new(&mut pool, "decoder", 2 * page);

    let first = client.allocate(&mut pool, page).unwrap();
    let second = client.allocate(&mut pool, page).unwrap();
    assert_eq!(pool.used_bytes(), 2 * page);

    assert_eq!(client.allocate(&mut pool, page).err(), Some(libc::EIO));
    assert_eq!(
        pool.used_bytes(),
        2 * page,
        "the reservation behind the failed buffer build was given back"
    );

    client.release(&mut pool, first);
    client.release(&mut pool, second);
    assert_eq!(pool.used_bytes(), 0);
    client.server.on_closed(&mut pool);
}

#[test]
fn a_non_eof_tube_error_keeps_the_lease_alive() {
    let page = PAGE;
    let mut pool = pool();
    let mut camera = Helper::new(&mut pool, "camera", POOL_SIZE);

    let held = camera.allocate(&mut pool, 5 * page).unwrap();
    assert_eq!(held.len, 5 * page);
    assert_eq!(pool.used_bytes(), 5 * page);

    camera.server.on_unreadable();
    let second = camera.allocate(&mut pool, page).unwrap();
    assert_eq!(pool.used_bytes(), 6 * page);
    camera.release(&mut pool, second);
    assert_eq!(
        pool.used_bytes(),
        5 * page,
        "an injected non-EOF error did not move the pool's books"
    );

    for _ in 0..POOL_SERVER_MAX_CONSECUTIVE_ERRORS {
        camera.server.on_unreadable();
    }
    assert_eq!(camera.server.current(), ServerState::Parked);
    assert_eq!(camera.allocate(&mut pool, page).err(), Some(libc::EIO));
    assert_eq!(
        pool.used_bytes(),
        5 * page,
        "the parked server still holds the lease for its live helper"
    );

    camera.server.on_closed(&mut pool);
    assert_eq!(pool.used_bytes(), 0);
    assert_eq!(pool.live_count(), 0);
}

#[test]
fn a_helper_that_does_not_read_keeps_its_lease() {
    let mut pool = pool();
    let mut camera = Helper::new(&mut pool, "camera", POOL_SIZE);
    camera.allocate(&mut pool, PAGE).unwrap();
    camera.server.on_unanswered();
    assert_eq!(camera.server.current(), ServerState::Parked);
    assert_eq!(pool.used_bytes(), PAGE);
}
