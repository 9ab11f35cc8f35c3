use mem_allocs::{
    allocate_memory, AlignedRequest, AllocError, CAllocator, RawCAllocator, Region, Relocation,
    Reply,
};

const ORIGIN: usize = 0x1000;
const OUT_OF_MEMORY: i32 = 12;
const INVALID: i32 = 22;

/// A stand-in for the platform's heap: a flat memory that starts at `ORIGIN`,
/// handed out front to back. It answers as the platform's primitives do.
struct Platform {
    memory: Vec<u8>,
    next: usize,
    live: Vec<usize>,
}

impl Platform {
    fn new(bytes: usize) -> Self {
        Platform { memory: vec![0xAA; bytes], next: 0, live: Vec::new() }
    }

    fn place(&mut self, alignment: usize, size: usize) -> Option<usize> {
        let start = (ORIGIN + self.next).checked_next_multiple_of(alignment)? - ORIGIN;
        let end = start.checked_add(size)?;
        if end > self.memory.len() {
            return None;
        }
        // Keep blocks apart, so that empty ones have addresses of their own.
        self.next = end + 1;
        self.live.push(ORIGIN + start);
        Some(ORIGIN + start)
    }

    fn aligned(&mut self, request: AlignedRequest) -> Reply {
        let word = std::mem::size_of::<usize>();
        if !request.alignment.is_power_of_two() || request.alignment % word != 0 {
            return Reply { status: INVALID, block: 0 };
        }
        match self.place(request.alignment, request.size) {
            Some(block) => Reply { status: 0, block },
            None => Reply { status: OUT_OF_MEMORY, block: 0 },
        }
    }

    fn plain(&mut self, size: usize) -> usize {
        self.place(2 * std::mem::size_of::<usize>(), size).unwrap_or(0)
    }

    fn release(&mut self, block: usize) {
        let at = self.live.iter().position(|live| *live == block);
        let at = at.expect("released a block that is not live");
        self.live.remove(at);
    }

    fn zero(&mut self, fill: Region) {
        let at = fill.base - ORIGIN;
        self.memory[at..at + fill.len].fill(0);
    }

    fn relocate(&mut self, relocation: Relocation) {
        let from = relocation.from - ORIGIN;
        let to = relocation.to - ORIGIN;
        self.memory.copy_within(from..from + relocation.len, to);
        self.release(relocation.from);
    }

    fn write_usize(&mut self, region: Region, index: usize, value: usize) {
        let width = std::mem::size_of::<usize>();
        assert!((index + 1) * width <= region.len);
        let at = region.base - ORIGIN + index * width;
        self.memory[at..at + width].copy_from_slice(&value.to_ne_bytes());
    }

    fn read_usize(&self, region: Region, index: usize) -> usize {
        let width = std::mem::size_of::<usize>();
        assert!((index + 1) * width <= region.len);
        let at = region.base - ORIGIN + index * width;
        let mut raw = [0u8; std::mem::size_of::<usize>()];
        raw.copy_from_slice(&self.memory[at..at + width]);
        usize::from_ne_bytes(raw)
    }

    fn write_i32(&mut self, region: Region, index: usize, value: i32) {
        assert!((index + 1) * 4 <= region.len);
        let at = region.base - ORIGIN + index * 4;
        self.memory[at..at + 4].copy_from_slice(&value.to_ne_bytes());
    }

    fn read_i32(&self, region: Region, index: usize) -> i32 {
        assert!((index + 1) * 4 <= region.len);
        let at = region.base - ORIGIN + index * 4;
        let mut raw = [0u8; 4];
        raw.copy_from_slice(&self.memory[at..at + 4]);
        i32::from_ne_bytes(raw)
    }
}

#[test]
fn test_generic_vector_with_c_allocator() {
    let allocator = CAllocator;
    let mut platform = Platform::new(4096);

    // A vector of 100 machine words takes its storage in one request.
    let width = std::mem::size_of::<usize>();
    let request = allocator.request(100 * width, std::mem::align_of::<usize>());
    let reply = platform.aligned(request);
    let storage = allocator.allocate(request.size, reply).expect("storage for 100 words");
    let mut len = 0;

    for index in 0..100 {
        platform.write_usize(storage, len, index);
        len += 1;
    }

    assert_eq!(len, 100);
    for expected_index in 0..100 {
        let actual_value = platform.read_usize(storage, expected_index);
        assert_eq!(actual_value, expected_index);
    }

    platform.release(storage.base);
}

#[test]
fn test_generic_vector_with_raw_c_allocator() {
    let allocator = RawCAllocator;
    let mut platform = Platform::new(4096);

    let width = std::mem::size_of::<usize>();
    let block = platform.plain(100 * width);
    let storage = allocator.allocate(100 * width, block).expect("storage for 100 words");
    let mut len = 0;

    for index in 0..100 {
        platform.write_usize(storage, len, index);
        len += 1;
    }

    assert_eq!(len, 100);
    for expected_index in 0..100 {
        let actual_value = platform.read_usize(storage, expected_index);
        assert_eq!(actual_value, expected_index);
    }

    platform.release(storage.base);
}

#[test]
fn c_allocator() {
    let allocator = CAllocator;
    let mut platform = Platform::new(4096);

    let size = 100 * std::mem::size_of::<i32>();
    let request = allocator.request(size, std::mem::align_of::<i32>());
    let reply = platform.aligned(request);
    let allocation = allocator.allocate(size, reply).unwrap();

    assert!(size / std::mem::size_of::<i32>() == 100);
    assert!(allocation.len / std::mem::size_of::<i32>() == 100);

    for index in 0..100 {
        platform.write_i32(allocation, index, i32::try_from(index).unwrap());
    }
    for index in 0..100 {
        assert_eq!(platform.read_i32(allocation, index), i32::try_from(index).unwrap());
    }

    platform.release(allocation.base);

    let request = allocator.request(0, 1);
    let reply = platform.aligned(request);
    let empty = allocator.allocate(0, reply).unwrap();
    assert_eq!(empty.len, 0);

    platform.release(empty.base);
    assert!(platform.live.is_empty());
}

#[test]
fn raw_c_allocator() {
    let allocator = RawCAllocator;
    let mut platform = Platform::new(4096);

    let size = 100 * std::mem::size_of::<i32>();
    let block = platform.plain(size);
    let allocation = allocator.allocate(size, block).unwrap();

    assert!(size / std::mem::size_of::<i32>() == 100);
    assert!(allocation.len / std::mem::size_of::<i32>() == 100);

    for index in 0..100 {
        platform.write_i32(allocation, index, i32::try_from(index).unwrap());
    }
    for index in 0..100 {
        assert_eq!(platform.read_i32(allocation, index), i32::try_from(index).unwrap());
    }

    platform.release(allocation.base);

    let block = platform.plain(0);
    let empty = allocator.allocate(0, block).unwrap();
    assert_eq!(empty.len, 0);

    platform.release(empty.base);
    assert!(platform.live.is_empty());
}

#[test]
fn request_asks_for_at_least_a_word_of_alignment() {
    let allocator = CAllocator;
    let word = std::mem::size_of::<usize>();
    assert_eq!(allocator.request(3, 1), AlignedRequest { alignment: word, size: 3 });
    assert_eq!(allocator.request(3, 2), AlignedRequest { alignment: word, size: 3 });
    assert_eq!(allocator.request(0, word), AlignedRequest { alignment: word, size: 0 });
    assert_eq!(allocator.request(800, 16), AlignedRequest { alignment: 16, size: 800 });
    assert_eq!(allocator.request(1, 4096), AlignedRequest { alignment: 4096, size: 1 });
    assert_eq!(
        allocator.request(usize::MAX, 8),
        AlignedRequest { alignment: if word > 8 { word } else { 8 }, size: usize::MAX }
    );
}

#[test]
fn requested_alignment_suits_the_primitive_and_the_caller() {
    let allocator = CAllocator;
    let word = std::mem::size_of::<usize>();
    let mut align = 1;
    while align <= 1 << 20 {
        let request = allocator.request(24, align);
        assert!(request.alignment.is_power_of_two());
        assert_eq!(request.alignment % word, 0);
        assert_eq!(request.alignment % align, 0);
        assert!(request.alignment >= align);
        align *= 2;
    }
}

#[test]
fn allocate_memory_reads_the_reply() {
    assert_eq!(allocate_memory(Reply { status: 0, block: 0x2000 }), Ok(0x2000));
    assert_eq!(allocate_memory(Reply { status: 0, block: 1 }), Ok(1));
    assert_eq!(allocate_memory(Reply { status: 0, block: usize::MAX }), Ok(usize::MAX));
    assert_eq!(
        allocate_memory(Reply { status: OUT_OF_MEMORY, block: 0 }),
        Err(AllocError::OutOfMemory)
    );
    assert_eq!(allocate_memory(Reply { status: INVALID, block: 0 }), Err(AllocError::OutOfMemory));
    assert_eq!(allocate_memory(Reply { status: -1, block: 0 }), Err(AllocError::OutOfMemory));
    // A status of failure stands, whatever the address holds.
    assert_eq!(
        allocate_memory(Reply { status: OUT_OF_MEMORY, block: 0x2000 }),
        Err(AllocError::OutOfMemory)
    );
    // Success with the null address is a refusal too.
    assert_eq!(allocate_memory(Reply { status: 0, block: 0 }), Err(AllocError::OutOfMemory));
}

#[test]
fn allocate_returns_exactly_the_requested_size() {
    let allocator = CAllocator;
    assert_eq!(
        allocator.allocate(800, Reply { status: 0, block: 0x2000 }),
        Ok(Region { base: 0x2000, len: 800 })
    );
    assert_eq!(
        allocator.allocate(0, Reply { status: 0, block: 0x2000 }),
        Ok(Region { base: 0x2000, len: 0 })
    );
    assert_eq!(
        allocator.allocate(800, Reply { status: OUT_OF_MEMORY, block: 0 }),
        Err(AllocError::OutOfMemory)
    );
    assert_eq!(
        allocator.allocate(800, Reply { status: 0, block: 0 }),
        Err(AllocError::OutOfMemory)
    );
}

#[test]
fn raw_allocate_refuses_the_null_block() {
    let allocator = RawCAllocator;
    assert_eq!(allocator.allocate(64, 0x3000), Ok(Region { base: 0x3000, len: 64 }));
    assert_eq!(allocator.allocate(0, 0x3000), Ok(Region { base: 0x3000, len: 0 }));
    assert_eq!(allocator.allocate(64, 0), Err(AllocError::OutOfMemory));
    assert_eq!(allocator.allocate(0, 0), Err(AllocError::OutOfMemory));
}

#[test]
fn alloc_raw_is_null_on_refusal() {
    let allocator = CAllocator;
    assert_eq!(allocator.alloc_raw(Reply { status: 0, block: 0x2000 }), 0x2000);
    assert_eq!(allocator.alloc_raw(Reply { status: OUT_OF_MEMORY, block: 0 }), 0);
    assert_eq!(allocator.alloc_raw(Reply { status: OUT_OF_MEMORY, block: 0x2000 }), 0);
    assert_eq!(allocator.alloc_raw(Reply { status: 0, block: 0 }), 0);
}

#[test]
fn alloc_zeroed_fills_the_whole_block() {
    assert_eq!(CAllocator.alloc_zeroed(48, 0x2000), Some(Region { base: 0x2000, len: 48 }));
    assert_eq!(CAllocator.alloc_zeroed(0, 0x2000), Some(Region { base: 0x2000, len: 0 }));
    assert_eq!(CAllocator.alloc_zeroed(48, 0), None);
    assert_eq!(RawCAllocator.alloc_zeroed(48, 0x2000), Some(Region { base: 0x2000, len: 48 }));
    assert_eq!(RawCAllocator.alloc_zeroed(48, 0), None);

    let mut platform = Platform::new(256);
    let request = CAllocator.request(48, 8);
    let block = CAllocator.alloc_raw(platform.aligned(request));
    let fill = CAllocator.alloc_zeroed(request.size, block).unwrap();
    platform.zero(fill);
    let at = block - ORIGIN;
    assert!(platform.memory[at..at + 48].iter().all(|byte| *byte == 0));
    assert_eq!(platform.memory[at + 48], 0xAA);
}

#[test]
fn realloc_moves_what_both_blocks_hold() {
    let old = Region { base: 0x2000, len: 400 };
    assert_eq!(
        CAllocator.realloc(old, 800, 0x3000),
        Some(Relocation { from: 0x2000, to: 0x3000, len: 400 })
    );
    assert_eq!(
        CAllocator.realloc(old, 100, 0x3000),
        Some(Relocation { from: 0x2000, to: 0x3000, len: 100 })
    );
    assert_eq!(
        CAllocator.realloc(old, 400, 0x3000),
        Some(Relocation { from: 0x2000, to: 0x3000, len: 400 })
    );
    assert_eq!(
        CAllocator.realloc(old, 0, 0x3000),
        Some(Relocation { from: 0x2000, to: 0x3000, len: 0 })
    );
    assert_eq!(
        RawCAllocator.realloc(old, 800, 0x3000),
        Some(Relocation { from: 0x2000, to: 0x3000, len: 400 })
    );
    assert_eq!(
        RawCAllocator.realloc(old, 100, 0x3000),
        Some(Relocation { from: 0x2000, to: 0x3000, len: 100 })
    );
}

#[test]
fn realloc_leaves_the_old_block_when_refused() {
    let old = Region { base: 0x2000, len: 400 };
    assert_eq!(CAllocator.realloc(old, 800, 0), None);
    assert_eq!(RawCAllocator.realloc(old, 800, 0), None);

    // The platform has room for the first block only.
    let mut platform = Platform::new(512);
    let request = CAllocator.request(400, 4);
    let first = CAllocator.allocate(400, platform.aligned(request)).unwrap();
    for index in 0..100 {
        platform.write_i32(first, index, i32::try_from(index).unwrap());
    }
    let request = CAllocator.request(800, 4);
    let block = CAllocator.alloc_raw(platform.aligned(request));
    assert_eq!(block, 0);
    assert_eq!(CAllocator.realloc(first, 800, block), None);
    assert_eq!(platform.live, vec![first.base]);
    for index in 0..100 {
        assert_eq!(platform.read_i32(first, index), i32::try_from(index).unwrap());
    }
}

#[test]
fn heap_round_trip() {
    let mut platform = Platform::new(8192);
    let count = 100;

    let request = CAllocator.request(count * 4, 4);
    let first = CAllocator.allocate(request.size, platform.aligned(request)).unwrap();
    for index in 0..count {
        platform.write_i32(first, index, i32::try_from(index).unwrap());
    }
    for index in 0..count {
        assert_eq!(platform.read_i32(first, index), i32::try_from(index).unwrap());
    }

    // Grow to twice the size: the first 100 elements come along.
    let request = CAllocator.request(2 * count * 4, 4);
    let block = CAllocator.alloc_raw(platform.aligned(request));
    let relocation = CAllocator.realloc(first, request.size, block).unwrap();
    assert_eq!(relocation.len, count * 4);
    platform.relocate(relocation);
    let grown = Region { base: relocation.to, len: request.size };
    for index in 0..count {
        assert_eq!(platform.read_i32(grown, index), i32::try_from(index).unwrap());
    }
    assert_eq!(platform.live, vec![grown.base]);

    // Shrink to a quarter: the first 25 elements come along.
    let request = CAllocator.request(count, 4);
    let block = CAllocator.alloc_raw(platform.aligned(request));
    let relocation = CAllocator.realloc(grown, request.size, block).unwrap();
    assert_eq!(relocation.len, count);
    platform.relocate(relocation);
    let shrunk = Region { base: relocation.to, len: request.size };
    for index in 0..count / 4 {
        assert_eq!(platform.read_i32(shrunk, index), i32::try_from(index).unwrap());
    }
    assert_eq!(platform.live, vec![shrunk.base]);
}

#[test]
fn raw_heap_round_trip() {
    let mut platform = Platform::new(8192);
    let count = 64;

    let first = RawCAllocator.allocate(count * 4, platform.plain(count * 4)).unwrap();
    for index in 0..count {
        platform.write_i32(first, index, i32::try_from(index).unwrap());
    }

    let block = platform.plain(3 * count * 4);
    let relocation = RawCAllocator.realloc(first, 3 * count * 4, block).unwrap();
    assert_eq!(relocation, Relocation { from: first.base, to: block, len: count * 4 });
    platform.relocate(relocation);
    let grown = RawCAllocator.allocate(3 * count * 4, block).unwrap();
    for index in 0..count {
        assert_eq!(platform.read_i32(grown, index), i32::try_from(index).unwrap());
    }
    assert_eq!(platform.live, vec![grown.base]);
}

#[test]
fn heap_blocks_are_aligned_for_the_caller() {
    let mut platform = Platform::new(1 << 16);
    let mut align = 1;
    while align <= 1024 {
        let request = CAllocator.request(5, align);
        let region = CAllocator.allocate(5, platform.aligned(request)).unwrap();
        assert_eq!(region.base % align, 0);
        assert_eq!(region.len, 5);
        align *= 2;
    }
}

#[test]
fn heap_overflow_guard() {
    let mut platform = Platform::new(4096);
    let request = CAllocator.request(usize::MAX, 8);
    assert_eq!(request.size, usize::MAX);
    let reply = platform.aligned(request);
    assert_eq!(CAllocator.allocate(usize::MAX, reply), Err(AllocError::OutOfMemory));
    assert_eq!(CAllocator.alloc_raw(reply), 0);

    let block = platform.plain(usize::MAX);
    assert_eq!(RawCAllocator.allocate(usize::MAX, block), Err(AllocError::OutOfMemory));
    assert!(platform.live.is_empty());
}
