use vstd::prelude::*;

verus! {

/// The kinds of failure that the engine reports.
#[derive(Debug, PartialEq, Eq)]
pub enum Error {
    InvalidUuid { uuid: String },
    NameExists { name: String },
    NexusNotFound { name: String },
    ChildNotFound { name: String, child: String },
    ChildAlreadyExists { name: String, child: String },
    ChildNotAvailable { child: String },
    LastChildRemove { name: String, child: String },
    InvalidKey,
    InvalidShareProtocol { sp_value: i32 },
    RebuildJobAlreadyExists { child: String },
    RebuildJobNotFound { child: String },
    DeviceIoError { name: String },
}

} // verus!
