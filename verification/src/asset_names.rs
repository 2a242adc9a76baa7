use vstd::prelude::*;
use vstd::string::StringSliceAdditionalSpecFns;
use crate::bytes::{splice, zeros};
use crate::MAX_NAME_LEN;

verus! {

/// A group name in a fixed-width field.
#[derive(Debug, Clone, Copy)]
pub struct GroupNames {
    pub group_name: [u8; MAX_NAME_LEN],
}

/// The field holding `name`: its first `MAX_NAME_LEN - 1` bytes at most,
/// then zeros, so that the field always ends with a zero byte.
pub open spec fn name_field(name: Seq<u8>) -> Seq<u8> {
    let len = if name.len() < MAX_NAME_LEN - 1 {
        name.len() as int
    } else {
        MAX_NAME_LEN - 1
    };
    splice(zeros(MAX_NAME_LEN as nat), 0, name.take(len))
}

impl GroupNames {
    /// The field holding `group_name`, cut to `MAX_NAME_LEN - 1` bytes.
    pub fn new(group_name: &str) -> (gn: GroupNames)
        ensures
            gn.group_name@ == name_field(group_name.spec_bytes()),
    {
        let mut gn = GroupNames { group_name: [0; MAX_NAME_LEN] };
        let bytes = group_name.as_bytes();
        let len = if bytes.len() < MAX_NAME_LEN - 1 {
            bytes.len()
        } else {
            MAX_NAME_LEN - 1
        };
        let part = vstd::slice::slice_subrange(bytes, 0, len);
        let ghost z = gn.group_name@;
        proof {
            assert(z =~= zeros(MAX_NAME_LEN as nat));
            assert(part@ =~= bytes@.take(len as int));
        }
        crate::bytes::put_bytes(&mut gn.group_name, 0, part);
        gn
    }
}

} // verus!
