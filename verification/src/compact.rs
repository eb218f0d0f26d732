//! The compression algorithms a file can be stored with, and the reading of
//! what the operating system answers when asked to compress, to expand or to
//! describe a file.

use vstd::prelude::*;

verus! {

/// Algorithm codes of the file provider.
pub const FILE_PROVIDER_COMPRESSION_XPRESS4K: u32 = 0;

pub const FILE_PROVIDER_COMPRESSION_LZX: u32 = 1;

pub const FILE_PROVIDER_COMPRESSION_XPRESS8K: u32 = 2;

pub const FILE_PROVIDER_COMPRESSION_XPRESS16K: u32 = 3;

/// The error code that says a file would not get smaller.
pub const ERROR_COMPRESSION_NOT_BENEFICIAL: i32 = 344;

pub const FILE_PROVIDER_CURRENT_VERSION: u32 = 1;

pub const WOF_CURRENT_VERSION: u32 = 1;

pub const WOF_PROVIDER_FILE: u32 = 2;

/// The first major version of the system library that knows these algorithms.
pub const FIRST_SUPPORTING_VERSION: u32 = 10;

/// A compression algorithm.
#[derive(Debug, Copy, Clone, PartialEq, Eq, Structural)]
pub enum Compression {
    Xpress4k,
    Xpress8k,
    Xpress16k,
    Lzx,
}

impl Default for Compression {
    fn default() -> (c: Self)
        ensures
            c == Compression::Xpress8k,
    {
        Compression::Xpress8k
    }
}

/// The provider's code of an algorithm.
pub open spec fn code_of(c: Compression) -> u32 {
    match c {
        Compression::Xpress4k => FILE_PROVIDER_COMPRESSION_XPRESS4K,
        Compression::Xpress8k => FILE_PROVIDER_COMPRESSION_XPRESS8K,
        Compression::Xpress16k => FILE_PROVIDER_COMPRESSION_XPRESS16K,
        Compression::Lzx => FILE_PROVIDER_COMPRESSION_LZX,
    }
}

/// The algorithm of a provider's code, if the code stands for one.
pub open spec fn of_code(code: u32) -> Option<Compression> {
    if code == FILE_PROVIDER_COMPRESSION_XPRESS4K {
        Some(Compression::Xpress4k)
    } else if code == FILE_PROVIDER_COMPRESSION_XPRESS8K {
        Some(Compression::Xpress8k)
    } else if code == FILE_PROVIDER_COMPRESSION_XPRESS16K {
        Some(Compression::Xpress16k)
    } else if code == FILE_PROVIDER_COMPRESSION_LZX {
        Some(Compression::Lzx)
    } else {
        None
    }
}

/// The name an algorithm is shown under.
pub open spec fn name_of(c: Compression) -> Seq<char> {
    match c {
        Compression::Xpress4k => "XPRESS4k"@,
        Compression::Xpress8k => "XPRESS8K"@,
        Compression::Xpress16k => "XPRESS16K"@,
        Compression::Lzx => "LZX"@,
    }
}

/// The algorithm a name is read as, if it names one.
pub open spec fn of_name(name: Seq<char>) -> Option<Compression> {
    if name == "XPRESS4K"@ {
        Some(Compression::Xpress4k)
    } else if name == "XPRESS8K"@ {
        Some(Compression::Xpress8k)
    } else if name == "XPRESS16K"@ {
        Some(Compression::Xpress16k)
    } else if name == "LZX"@ {
        Some(Compression::Lzx)
    } else {
        None
    }
}

/// Whether two texts are the same.
fn same_text(a: &str, b: &str) -> (same: bool)
    ensures
        same == (a@ == b@),
{
    let left = a.to_owned();
    let right = b.to_owned();
    left == right
}

impl Compression {
    /// The provider's code of this algorithm.
    pub fn code(self) -> (code: u32)
        ensures
            code == code_of(self),
    {
        match self {
            Compression::Xpress4k => FILE_PROVIDER_COMPRESSION_XPRESS4K,
            Compression::Xpress8k => FILE_PROVIDER_COMPRESSION_XPRESS8K,
            Compression::Xpress16k => FILE_PROVIDER_COMPRESSION_XPRESS16K,
            Compression::Lzx => FILE_PROVIDER_COMPRESSION_LZX,
        }
    }

    /// The algorithm of a provider's code; `None` for a code that stands for none.
    pub fn from_code(code: u32) -> (c: Option<Compression>)
        ensures
            c == of_code(code),
    {
        if code == FILE_PROVIDER_COMPRESSION_XPRESS4K {
            Some(Compression::Xpress4k)
        } else if code == FILE_PROVIDER_COMPRESSION_XPRESS8K {
            Some(Compression::Xpress8k)
        } else if code == FILE_PROVIDER_COMPRESSION_XPRESS16K {
            Some(Compression::Xpress16k)
        } else if code == FILE_PROVIDER_COMPRESSION_LZX {
            Some(Compression::Lzx)
        } else {
            None
        }
    }

    /// The name this algorithm is shown under.
    pub fn name(self) -> (name: String)
        ensures
            name@ == name_of(self),
    {
        match self {
            Compression::Xpress4k => "XPRESS4k".to_owned(),
            Compression::Xpress8k => "XPRESS8K".to_owned(),
            Compression::Xpress16k => "XPRESS16K".to_owned(),
            Compression::Lzx => "LZX".to_owned(),
        }
    }

    /// Reads a name; `None` for a text that names no algorithm.
    pub fn from_name(name: &str) -> (c: Option<Compression>)
        ensures
            c == of_name(name@),
    {
        if same_text(name, "XPRESS4K") {
            Some(Compression::Xpress4k)
        } else if same_text(name, "XPRESS8K") {
            Some(Compression::Xpress8k)
        } else if same_text(name, "XPRESS16K") {
            Some(Compression::Xpress16k)
        } else if same_text(name, "LZX") {
            Some(Compression::Lzx)
        } else {
            None
        }
    }

    /// The five words of the request that asks the system to back a file by
    /// this algorithm: version and provider of the overlay filter, then
    /// version, algorithm and flags of the file provider.
    pub fn backing_request(self) -> (words: [u32; 5])
        ensures
            words@ == seq![
                WOF_CURRENT_VERSION,
                WOF_PROVIDER_FILE,
                FILE_PROVIDER_CURRENT_VERSION,
                code_of(self),
                0u32,
            ],
    {
        let words = [
            WOF_CURRENT_VERSION,
            WOF_PROVIDER_FILE,
            FILE_PROVIDER_CURRENT_VERSION,
            self.code(),
            0u32,
        ];
        assert(words@ =~= seq![
            WOF_CURRENT_VERSION,
            WOF_PROVIDER_FILE,
            FILE_PROVIDER_CURRENT_VERSION,
            code_of(self),
            0u32,
        ]);
        words
    }
}

/// Every algorithm is found again from its code.
pub proof fn lemma_code_round_trip(c: Compression)
    ensures
        of_code(code_of(c)) == Some(c),
{
}

/// A code that stands for an algorithm is that algorithm's code.
pub proof fn lemma_code_unique(code: u32)
    ensures
        of_code(code) is Some ==> code_of(of_code(code).unwrap()) == code,
{
}

/// Whether a status of the system reports success: it is not negative.
pub open spec fn succeeded(status: i32) -> bool {
    status >= 0
}

/// The error code in the low 16 bits of a status.
pub open spec fn code_in(status: i32) -> i32 {
    ((status as u32) & 0xFFFFu32) as i32
}

/// The error code in the low 16 bits of a status.
pub fn status_code(status: i32) -> (code: i32)
    ensures
        code == code_in(status),
        0 <= code <= 0xFFFF,
{
    let bits = #[verifier::truncate] (status as u32);
    let low = bits & 0xFFFFu32;
    assert(low <= 0xFFFFu32) by (bit_vector)
        requires
            low == bits & 0xFFFFu32,
    ;
    low as i32
}

/// Reads the status of a request to compress a file: success means the file
/// is compressed now, the code for "not beneficial" means it was left alone,
/// any other code is an error.
pub fn compress_outcome(status: i32) -> (r: Result<bool, i32>)
    ensures
        succeeded(status) ==> r == Ok::<bool, i32>(true),
        !succeeded(status) && code_in(status) == ERROR_COMPRESSION_NOT_BENEFICIAL ==> r == Ok::<
            bool,
            i32,
        >(false),
        !succeeded(status) && code_in(status) != ERROR_COMPRESSION_NOT_BENEFICIAL ==> r == Err::<
            bool,
            i32,
        >(code_in(status)),
{
    if status >= 0 {
        Ok(true)
    } else {
        let code = status_code(status);
        if code == ERROR_COMPRESSION_NOT_BENEFICIAL {
            Ok(false)
        } else {
            Err(code)
        }
    }
}

/// Reads the status of a request to expand a file: success, or the error code.
pub fn uncompress_outcome(status: i32) -> (r: Result<(), i32>)
    ensures
        r == if succeeded(status) {
            Ok::<(), i32>(())
        } else {
            Err::<(), i32>(code_in(status))
        },
{
    if status >= 0 {
        Ok(())
    } else {
        Err(status_code(status))
    }
}

/// Reads what the system says of a file's backing: on success the algorithm,
/// where the file is backed by the file provider under a known algorithm,
/// and none otherwise; on failure the error code.
pub fn detect_outcome(status: i32, is_external: i32, provider: u32, algorithm: u32) -> (r: Result<
    Option<Compression>,
    i32,
>)
    ensures
        r == if !succeeded(status) {
            Err::<Option<Compression>, i32>(code_in(status))
        } else if is_external > 0 && provider == WOF_PROVIDER_FILE {
            Ok::<Option<Compression>, i32>(of_code(algorithm))
        } else {
            Ok::<Option<Compression>, i32>(None)
        },
{
    if status >= 0 {
        if is_external > 0 && provider == WOF_PROVIDER_FILE {
            Ok(Compression::from_code(algorithm))
        } else {
            Ok(None)
        }
    } else {
        Err(status_code(status))
    }
}

/// Whether a volume's driver can compress files: the query succeeded and
/// named a version above zero.
pub fn driver_supports_compression(status: i32, version: u32) -> (b: bool)
    ensures
        b == (succeeded(status) && version > 0),
{
    status >= 0 && version > 0
}

/// The major version in the high half of a file version's upper word.
pub open spec fn major_version(file_version_ms: u32) -> u32 {
    (file_version_ms >> 16) & 0xffff
}

/// Whether a system library of this file version knows the algorithms: its
/// major version is 10 or more.
pub fn version_supports_compression(file_version_ms: u32) -> (b: bool)
    ensures
        b == (major_version(file_version_ms) >= FIRST_SUPPORTING_VERSION),
{
    (file_version_ms >> 16) & 0xffff >= FIRST_SUPPORTING_VERSION
}

} // verus!
