//! The fixed values of the archive workflow.
use vstd::prelude::*;

verus! {

/// The name that requests carry, and that archived objects are tagged with.
pub const USER_AGENT: &'static str = "ami-s3-archive";

/// The version of the EC2 query interface.
pub const EC2_API_VERSION: &'static str = "2016-11-15";

/// Objects of this size (5 GiB) and above cannot be copied by one request.
pub const MAX_SINGLE_COPY_BYTES: i64 = 5_368_709_120;

/// The size (512 MiB) of the parts that a large object is copied in.
pub const DEFAULT_PART_SIZE_BYTES: i64 = 536_870_912;

}
