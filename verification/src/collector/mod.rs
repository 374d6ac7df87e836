pub mod battery;
pub mod disk_io;
pub mod disks;
pub mod folder_sizes;
pub mod footprint;
pub mod gpu_procs;
pub mod mem_breakdown;
pub mod metrics;
pub mod net_interfaces;
pub mod processes;
pub mod snapshot;
