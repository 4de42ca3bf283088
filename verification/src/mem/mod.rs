//! Memory: physical frames, the kernel heap, page tables.

pub mod destroy_laws;
pub mod fork_laws;
pub mod frame_laws;
pub mod frames;
pub mod heap;
pub mod paging;
pub mod phys;
pub mod space_laws;
pub mod stale_laws;
pub mod tlb;
pub mod tree_laws;
pub mod vmm;
pub mod vmm_laws;
