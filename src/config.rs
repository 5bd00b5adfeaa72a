//! The settings of a run, fixed before the first byte is read.
use vstd::prelude::*;
use vstd::string::StringExecFns;

verus! {

/// The default size limit of an output file: 8 MiB.
pub const DEFAULT_FILE_SIZE: usize = 8388608;

/// The default number of output files kept.
pub const DEFAULT_NUM_FILES: usize = 8;

/// The default size of the buffer that input is read into: 1 MiB.
pub const DEFAULT_BUFFER_SIZE: usize = 1048576;

/// The settings of a run.
pub struct Config {
    /// The prefix of output filenames.
    pub file_prefix: String,
    /// The size (in bytes) at which files are rotated.
    pub file_size: usize,
    /// The maximum number of files kept.
    pub num_files: usize,
    /// Whether input is not echoed to the mirror stream.
    pub no_echo: bool,
    /// The size of the buffer used to read input.
    pub buffer_size: usize,
}

/// Why a configuration is refused.
#[derive(Clone, Copy, Debug, PartialEq, Eq, Structural)]
pub enum ConfigError {
    /// The read buffer size is zero.
    ZeroBufferSize,
    /// The number of files is zero.
    ZeroNumFiles,
    /// The file size limit is zero.
    ZeroFileSize,
}

impl ConfigError {
    /// A one-line description of the error.
    pub fn message(&self) -> (r: &'static str)
        ensures
            *self == ConfigError::ZeroBufferSize ==> r@ == "buffer size (-b) must be non-zero"@,
            *self == ConfigError::ZeroNumFiles ==> r@ == "number of files (-n) must be non-zero"@,
            *self == ConfigError::ZeroFileSize ==> r@ == "file size (-s) must be non-zero"@,
    {
        proof {
            reveal_strlit("buffer size (-b) must be non-zero");
            reveal_strlit("number of files (-n) must be non-zero");
            reveal_strlit("file size (-s) must be non-zero");
        }
        match self {
            ConfigError::ZeroBufferSize => "buffer size (-b) must be non-zero",
            ConfigError::ZeroNumFiles => "number of files (-n) must be non-zero",
            ConfigError::ZeroFileSize => "file size (-s) must be non-zero",
        }
    }
}

impl Config {
    /// A configuration is usable when none of its sizes is zero.
    pub open spec fn valid(&self) -> bool {
        &&& self.file_size > 0
        &&& self.num_files > 0
        &&& self.buffer_size > 0
    }

    /// Checks the configuration before any file is touched. The buffer size is checked first,
    /// then the number of files, then the file size.
    pub fn validate(&self) -> (r: Result<(), ConfigError>)
        ensures
            r is Ok <==> self.valid(),
            r == Err::<(), ConfigError>(ConfigError::ZeroBufferSize) <==> self.buffer_size == 0,
            r == Err::<(), ConfigError>(ConfigError::ZeroNumFiles) <==> (self.buffer_size != 0
                && self.num_files == 0),
            r == Err::<(), ConfigError>(ConfigError::ZeroFileSize) <==> (self.buffer_size != 0
                && self.num_files != 0 && self.file_size == 0),
    {
        if self.buffer_size == 0 {
            Err(ConfigError::ZeroBufferSize)
        } else if self.num_files == 0 {
            Err(ConfigError::ZeroNumFiles)
        } else if self.file_size == 0 {
            Err(ConfigError::ZeroFileSize)
        } else {
            Ok(())
        }
    }
}

impl Default for Config {
    fn default() -> (r: Config)
        ensures
            r.file_prefix@ == seq!['r', 'o', 't', 'e', 'e', '.'],
            r.file_size == DEFAULT_FILE_SIZE,
            r.num_files == DEFAULT_NUM_FILES,
            !r.no_echo,
            r.buffer_size == DEFAULT_BUFFER_SIZE,
            r.valid(),
    {
        proof {
            reveal_strlit("rotee.");
        }
        let file_prefix = String::from_str("rotee.");
        assert(file_prefix@ =~= seq!['r', 'o', 't', 'e', 'e', '.']);
        Config {
            file_prefix,
            file_size: DEFAULT_FILE_SIZE,
            num_files: DEFAULT_NUM_FILES,
            no_echo: false,
            buffer_size: DEFAULT_BUFFER_SIZE,
        }
    }
}

} // verus!
