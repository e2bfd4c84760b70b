# page_manager

Pages of a memory-mapped database file, allocated and freed in transactions that
are committed or rolled back. The library under `src/` is verified with Verus.

A file starts with the metapage: the magic number, the primary bit and two
transaction slots. The primary slot belongs to the last commit; the secondary
slot to the transaction under way. Each slot names its root page, its allocator
state at the end of the file, and whether that state is dirty.

- `bytes`: overwriting ranges, big-endian numbers.
- `layout`: how many pages a file holds.
- `page_allocator`: which pages are allocated, as a bitmap.
- `metapage`: the slots.
- `opening`: formatting a new file, and which files can be opened.
- `pages`: references to a page.
- `state`: what the memory holds, and how each operation changes it.
- `memory`: the transactional memory itself.
- `laws`: what holds of each operation, and of opening and closing a file.
- `history`: what holds over any number of calls.
- `mapping`: the memory map and the page size of the machine, which are trusted.

The library never flushes. Opening and committing say when the memory map must be
flushed and take the outcome; `app/` does the flushing.
