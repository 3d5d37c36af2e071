//! Configuration of single-database environments: a compact store holding
//! only the event log, as a writer, a reader, or a combined handle opens it.

use vstd::prelude::*;

verus! {

/// Default memory-map reservation of a single-database environment.
pub const DEFAULT_MAP_SIZE: u64 = 10485760;

/// Default number of named databases of a single-database environment.
pub const DEFAULT_MAX_DBS: u32 = 1;

/// Configuration of a combined single-database store handle.
#[derive(Clone, Copy, Debug)]
pub struct VarveConfig {
    pub max_dbs: u32,
    pub map_size: u64,
}

impl Default for VarveConfig {
    fn default() -> (r: VarveConfig)
        ensures
            r.max_dbs == DEFAULT_MAX_DBS,
            r.map_size == DEFAULT_MAP_SIZE,
    {
        VarveConfig { max_dbs: DEFAULT_MAX_DBS, map_size: DEFAULT_MAP_SIZE }
    }
}

/// Configuration of a write-side environment.
#[derive(Clone, Copy, Debug)]
pub struct WriterConfig {
    pub max_dbs: u32,
    pub map_size: u64,
}

impl Default for WriterConfig {
    fn default() -> (r: WriterConfig)
        ensures
            r.max_dbs == DEFAULT_MAX_DBS,
            r.map_size == DEFAULT_MAP_SIZE,
    {
        WriterConfig { max_dbs: DEFAULT_MAX_DBS, map_size: DEFAULT_MAP_SIZE }
    }
}

/// Configuration of a read-only environment.
#[derive(Clone, Copy, Debug)]
pub struct ReaderConfig {
    pub max_dbs: u32,
    pub map_size: u64,
}

impl Default for ReaderConfig {
    fn default() -> (r: ReaderConfig)
        ensures
            r.max_dbs == DEFAULT_MAX_DBS,
            r.map_size == DEFAULT_MAP_SIZE,
    {
        ReaderConfig { max_dbs: DEFAULT_MAX_DBS, map_size: DEFAULT_MAP_SIZE }
    }
}

} // verus!
