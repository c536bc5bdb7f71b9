use vstd::prelude::*;
use vstd::string::StrSliceExecFns;

verus! {

/// Everything that can go wrong in the core: a missing path, song, device
/// or playlist; a format the decoder refuses; a failed read or write; a
/// device that cannot be opened or reconfigured; and on-disk bytes that do
/// not parse.
#[derive(Debug, PartialEq, Eq, Structural, Clone, Copy)]
pub enum Error {
    NotFound,
    UnsupportedFormat,
    IoError,
    DeviceError,
    CorruptData,
}

impl Error {
    /// A short description for logs and the status line.
    pub fn message(&self) -> (r: String)
        ensures
            r@ == self.spec_message(),
    {
        match self {
            Error::NotFound => {
                proof {
                    reveal_strlit("not found");
                }
                "not found".to_owned()
            },
            Error::UnsupportedFormat => {
                proof {
                    reveal_strlit("unsupported format");
                }
                "unsupported format".to_owned()
            },
            Error::IoError => {
                proof {
                    reveal_strlit("input or output failed");
                }
                "input or output failed".to_owned()
            },
            Error::DeviceError => {
                proof {
                    reveal_strlit("audio device failed");
                }
                "audio device failed".to_owned()
            },
            Error::CorruptData => {
                proof {
                    reveal_strlit("corrupt data");
                }
                "corrupt data".to_owned()
            },
        }
    }

    pub open spec fn spec_message(self) -> Seq<char> {
        match self {
            Error::NotFound => "not found"@,
            Error::UnsupportedFormat => "unsupported format"@,
            Error::IoError => "input or output failed"@,
            Error::DeviceError => "audio device failed"@,
            Error::CorruptData => "corrupt data"@,
        }
    }
}

} // verus!
