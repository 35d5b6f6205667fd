//! Risk audit of a role in a group: which dangerous capabilities it grants,
//! how many members hold it, and whether it can ping a majority of the group.
pub mod analysis;
pub mod permissions;
