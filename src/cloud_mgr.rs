use vstd::prelude::*;
use crate::snowflake::{IdState, SnowFlake, MAX_DATACENTER_ID, MAX_WORKER_ID};

verus! {

/// Where blocks go when they are kept in remote object storage.
pub struct S3Config {
    pub access_key: String,
    pub secret_key: String,
    pub bucket: String,
    pub region: String,
}

/// Where blocks go when they are kept on the local filesystem.
pub struct LocalConfig {
    pub path: String,
}

/// The storage service's configuration: exactly one block backend, the block size
/// limit, and the service's ID allocator.
pub struct CloudMgr {
    pub s3_config: Option<S3Config>,
    pub local_config: Option<LocalConfig>,
    pub block_max_size: usize,
    pub snowflake: SnowFlake,
}

impl CloudMgr {
    /// Selects the backend at startup; one of `s3_config` and `local_config` must be
    /// given, not both.
    pub fn new(
        s3_config: Option<S3Config>,
        local_config: Option<LocalConfig>,
        block_max_size: usize,
        worker_id: i64,
        datacenter_id: i64,
    ) -> (r: CloudMgr)
        requires
            s3_config is Some || local_config is Some,
            s3_config is None || local_config is None,
            0 <= worker_id <= MAX_WORKER_ID,
            0 <= datacenter_id <= MAX_DATACENTER_ID,
        ensures
            r.s3_config == s3_config,
            r.local_config == local_config,
            r.block_max_size == block_max_size,
            r.snowflake@ == (IdState {
                sequence: 0,
                worker_id: worker_id as int,
                datacenter_id: datacenter_id as int,
                last_timestamp: -1,
            }),
    {
        let snowflake = SnowFlake::new(worker_id, datacenter_id);
        CloudMgr { s3_config, local_config, block_max_size, snowflake }
    }

}

} // verus!
