use droidvm::errno;
use droidvm::guest_buf::host_accessible_windows;
use droidvm::guest_buf::DmabufStep;
use droidvm::guest_buf::GuestBufferImport;
use droidvm::guest_buf::GuestMemoryChunk;
use droidvm::guest_buf::HostAccessPolicy;
use droidvm::guest_buf::ImportError;
use droidvm::guest_mem::AddressRange;
use droidvm::guest_mem::GuestMemory;
use droidvm::guest_mem::MemoryRegion;
use droidvm::guest_mem::MemoryRegionPurpose;

/// Guest RAM starts here and not at 0, so that an address mistaken for an offset is caught.
const RAM_BASE: u64 = 0x8000_0000;
/// Where the RAM is in the object that backs it.
const SHM_OFFSET: u64 = 0x3000;
const PAGE: usize = 4096;
const VMM: HostAccessPolicy = HostAccessPolicy::GuestMemory;

/// Guest memory, and the bytes of the object that backs it.
struct Host {
    mem: GuestMemory,
    object: Vec<u8>,
}

impl Host {
    fn new(pages: u64) -> Host {
        let size = pages * PAGE as u64;
        let region = MemoryRegion {
            guest_addr: RAM_BASE,
            size,
            shm: 3,
            shm_offset: SHM_OFFSET,
            purpose: MemoryRegionPurpose::GuestMemoryRegion,
        };
        Host {
            mem: GuestMemory { regions: vec![region], protected: false },
            object: vec![0u8; (SHM_OFFSET + size) as usize],
        }
    }

    fn at(&self, addr: u64) -> usize {
        (addr - RAM_BASE + SHM_OFFSET) as usize
    }

    fn write(&mut self, bytes: &[u8], addr: u64) {
        let at = self.at(addr);
        self.object[at..at + bytes.len()].copy_from_slice(bytes);
    }

    fn read(&self, addr: u64) -> u8 {
        self.object[self.at(addr)]
    }

    /// The bytes that an import shows, the way its parts say.
    fn view(&self, import: &GuestBufferImport) -> Vec<u8> {
        match import.mapping() {
            GuestMemoryChunk::Mapping(m) => {
                let (size, start) = m.layout();
                let mut arena = vec![0u8; size as usize];
                for part in m.mapped_parts() {
                    assert_eq!(part.shm, 3);
                    let (to, from, n) =
                        (part.pos as usize, part.shm_offset as usize, part.len as usize);
                    arena[to..to + n].copy_from_slice(&self.object[from..from + n]);
                }
                arena[start as usize..start as usize + m.len()].to_vec()
            }
            GuestMemoryChunk::Shadow(s) => s.as_slice().to_vec(),
        }
    }

    /// Writes a byte where an import shows it.
    fn poke(&mut self, import: &GuestBufferImport, at: usize, byte: u8) {
        match import.mapping() {
            GuestMemoryChunk::Mapping(m) => {
                let pos = m.layout().1 + at as u64;
                let part = m
                    .mapped_parts()
                    .iter()
                    .find(|p| p.pos <= pos && pos < p.pos + p.len)
                    .unwrap();
                self.object[(part.shm_offset + (pos - part.pos)) as usize] = byte;
            }
            GuestMemoryChunk::Shadow(_) => panic!("a copy is not written through"),
        }
    }

    fn import(
        &self,
        sgs: Vec<(u64, usize)>,
        policy: &HostAccessPolicy,
    ) -> Result<GuestBufferImport, ImportError> {
        let mut import = GuestBufferImport::new(&self.mem, sgs, policy, PAGE as u64)?;
        if let GuestMemoryChunk::Shadow(s) = import.mapping_mut() {
            for part in s.parts() {
                let from = self.at(part.addr);
                s.load(part.pos, &self.object[from..from + part.len]);
            }
        }
        Ok(import)
    }

    /// What happens when an import goes away.
    fn drop_import(&mut self, import: GuestBufferImport) {
        if let GuestMemoryChunk::Shadow(s) = import.mapping() {
            for part in s.write_back() {
                let bytes = s.as_slice()[part.pos..part.pos + part.len].to_vec();
                self.write(&bytes, part.addr);
            }
        }
    }
}

fn pattern(len: usize, seed: usize) -> Vec<u8> {
    (0..len).map(|i| ((i + seed) * 13 % 251) as u8).collect()
}

fn windows(start: u64, size: u64) -> HostAccessPolicy {
    HostAccessPolicy::Windows(vec![AddressRange::from_start_and_size(start, size).unwrap()])
}

#[test]
fn arena_maps_sparse_pages_linearly_and_writes_through() {
    let page = PAGE;
    let mut host = Host::new(8);
    let a = RAM_BASE + page as u64;
    let b = RAM_BASE + 5 * page as u64;
    host.write(&pattern(2 * page, 1), a);
    host.write(&pattern(page, 2), b);

    let import = host.import(vec![(a, 2 * page), (b, page)], &VMM).ok().unwrap();
    assert!(!import.is_shadowed());
    assert_eq!(import.len(), 3 * page);

    let view = host.view(&import);
    assert_eq!(&view[..2 * page], &pattern(2 * page, 1)[..]);
    assert_eq!(&view[2 * page..], &pattern(page, 2)[..]);

    host.poke(&import, 2 * page + 7, 0xee);
    assert_eq!(host.read(b + 7), 0xee);
    assert_eq!(host.read(b - page as u64 + 7), 0);
}

#[test]
fn unaligned_first_entry_keeps_its_offset() {
    let page = PAGE;
    let mut host = Host::new(4);
    let start = RAM_BASE + page as u64 + 0x100;
    host.write(&pattern(0x800, 3), start);

    let import = host.import(vec![(start, 0x800)], &VMM).ok().unwrap();
    assert!(!import.is_shadowed());
    assert_eq!(host.view(&import), pattern(0x800, 3));
}

#[test]
fn shadow_below_threshold_writes_back_on_drop() {
    let page = PAGE;
    let mut host = Host::new(4);
    let start = RAM_BASE + 2 * page as u64 + 0x40;
    host.write(&pattern(0x100, 4), start);

    let mut import = host.import(vec![(start, 0x100)], &VMM).ok().unwrap();
    assert!(import.is_shadowed());
    assert_eq!(host.view(&import), pattern(0x100, 4));
    match import.mapping_mut() {
        GuestMemoryChunk::Shadow(s) => s.as_mut_slice()[0x80] = 0x77,
        GuestMemoryChunk::Mapping(_) => panic!("not a copy"),
    }
    assert_ne!(host.read(start + 0x80), 0x77);
    host.drop_import(import);
    assert_eq!(host.read(start + 0x80), 0x77);
}

#[test]
fn a_copy_that_was_only_read_is_not_written_back() {
    let mut host = Host::new(4);
    host.write(&pattern(0x100, 4), RAM_BASE);
    let import = host.import(vec![(RAM_BASE, 0x100)], &VMM).ok().unwrap();
    host.write(&[0x55], RAM_BASE + 1);
    host.drop_import(import);
    assert_eq!(host.read(RAM_BASE + 1), 0x55);
}

#[test]
fn bad_lists_are_einval() {
    let page = PAGE;
    let host = Host::new(4);
    let a = RAM_BASE + page as u64;

    let e = host.import(vec![], &VMM).err().expect("import should have failed");
    assert_eq!(e.errno(), libc::EINVAL);

    let e = host
        .import(vec![(a, page), (a + page as u64 + 8, page)], &VMM)
        .err()
        .expect("import should have failed");
    assert_eq!(e.errno(), libc::EINVAL);

    let e = host
        .import(vec![(RAM_BASE + 64 * page as u64, page)], &VMM)
        .err()
        .expect("import should have failed");
    assert_eq!(e.errno(), libc::EINVAL);
}

#[test]
fn lent_memory_is_efault() {
    let page = PAGE;
    let mut host = Host::new(4);
    let a = RAM_BASE + page as u64;
    assert!(host.import(vec![(a, page)], &VMM).is_ok());
    assert!(host.import(vec![(a, 0x100)], &VMM).is_ok());

    host.mem.protected = true;
    let e = host.import(vec![(a, page)], &VMM).err().expect("import should have failed");
    assert_eq!(e.errno(), libc::EFAULT, "{:?}", e);
    let e = host.import(vec![(a, 0x100)], &VMM).err().expect("import should have failed");
    assert_eq!(e.errno(), libc::EFAULT, "{:?}", e);
}

#[test]
fn udmabuf_and_arena_see_the_same_bytes() {
    let page = PAGE;
    let mut host = Host::new(8);
    let a = RAM_BASE + page as u64;
    let b = RAM_BASE + 6 * page as u64;
    host.write(&pattern(page, 5), a);
    host.write(&pattern(page, 6), b);

    let mut import = host.import(vec![(a, page), (b, page)], &VMM).ok().unwrap();
    assert_eq!(import.dmabuf(), DmabufStep::HoldPages);
    import.on_held(true).unwrap();
    import.on_built(true).unwrap();
    assert_eq!(import.dmabuf(), DmabufStep::Ready);

    // A dma-buf over the same ranges is the guest's pages, one after the other.
    let via_dmabuf: Vec<u8> = import
        .sgs()
        .iter()
        .flat_map(|&(addr, len)| (0..len as u64).map(move |i| addr + i))
        .map(|addr| host.read(addr))
        .collect();
    assert_eq!(via_dmabuf, host.view(&import));
    assert_eq!(&via_dmabuf[..page], &pattern(page, 5)[..]);
    assert_eq!(&via_dmabuf[page..], &pattern(page, 6)[..]);
    assert!(import.on_drop());
    assert!(!import.on_drop());
}

#[test]
fn a_dma_buf_that_cannot_be_had_is_told() {
    let host = Host::new(2);
    let mut import = host.import(vec![(RAM_BASE, PAGE)], &VMM).ok().unwrap();
    assert_eq!(import.on_held(false).unwrap_err().errno(), errno::ENOMEM);
    assert_eq!(import.on_built(false).unwrap_err().errno(), errno::EIO);
    assert_eq!(import.dmabuf(), DmabufStep::HoldPages);
    assert!(!import.on_drop());
}

#[test]
fn windows_policy_refuses_what_is_outside_them() {
    let page = PAGE;
    let mut host = Host::new(8);
    let allowed_start = RAM_BASE + 2 * page as u64;
    let policy = windows(allowed_start, 4 * page as u64);
    let inside = allowed_start + page as u64;
    host.write(&pattern(page, 7), inside);

    let import = host.import(vec![(inside, page)], &policy).ok().unwrap();
    assert_eq!(host.view(&import), pattern(page, 7));
    assert!(host.import(vec![(inside, 0x100)], &policy).ok().unwrap().is_shadowed());

    let outside = RAM_BASE;
    for len in [page, 0x100] {
        let e = host
            .import(vec![(outside, len)], &policy)
            .err()
            .expect("import outside the windows should have failed");
        assert_eq!(e.errno(), libc::EFAULT, "{:?}", e);
    }

    let last = allowed_start + 3 * page as u64;
    let e = host
        .import(vec![(last, 2 * page)], &policy)
        .err()
        .expect("import straddling the window end should have failed");
    assert_eq!(e.errno(), libc::EFAULT, "{:?}", e);
    assert!(host.import(vec![(last, page)], &policy).is_ok());
    let e = host
        .import(vec![(inside, page), (outside, page)], &policy)
        .err()
        .expect("a list with an entry outside the windows should have failed");
    assert_eq!(e.errno(), libc::EFAULT, "{:?}", e);

    let nowhere = RAM_BASE + 64 * page as u64;
    let e = host
        .import(vec![(nowhere, page)], &policy)
        .err()
        .expect("import of non-memory should have failed");
    assert_eq!(e.errno(), libc::EFAULT, "{:?}", e);
    let generous = windows(RAM_BASE, 128 * page as u64);
    for policy in [&generous, &VMM] {
        let e = host
            .import(vec![(nowhere, page)], policy)
            .err()
            .expect("import of non-memory should have failed");
        assert_eq!(e.errno(), libc::EINVAL, "{:?}", e);
    }
}

#[test]
fn accessible_windows_follow_the_protected_vm_rule() {
    let page = PAGE as u64;
    let region = |guest_addr: u64, size: u64, purpose: MemoryRegionPurpose| MemoryRegion {
        guest_addr,
        size,
        shm: 3,
        shm_offset: guest_addr - RAM_BASE,
        purpose,
    };
    let mem = GuestMemory {
        regions: vec![
            region(RAM_BASE, 4 * page, MemoryRegionPurpose::GuestMemoryRegion),
            region(RAM_BASE + 4 * page, 2 * page, MemoryRegionPurpose::StaticSwiotlbRegion),
            region(RAM_BASE + 8 * page, 2 * page, MemoryRegionPurpose::MediaPool),
        ],
        protected: false,
    };
    let ranges = |lent: bool| -> Vec<(u64, u64)> {
        host_accessible_windows(&mem, lent).into_iter().map(|w| (w.start, w.end)).collect()
    };
    let all_regions: Vec<(u64, u64)> =
        mem.regions.iter().map(|r| (r.guest_addr, r.guest_addr + r.size - 1)).collect();
    assert_eq!(ranges(false), all_regions);
    assert_eq!(
        ranges(true),
        vec![
            (RAM_BASE + 4 * page, RAM_BASE + 6 * page - 1),
            (RAM_BASE + 8 * page, RAM_BASE + 10 * page - 1),
        ]
    );
}

#[test]
fn a_range_that_ends_past_the_address_space_is_refused() {
    let host = Host::new(1);
    let policy = windows(0, u64::MAX);
    let e = host.import(vec![(u64::MAX - 10, 0x800)], &policy).err().unwrap();
    assert_eq!(e, ImportError::Overflow);
    assert_eq!(e.errno(), errno::EINVAL);
}
