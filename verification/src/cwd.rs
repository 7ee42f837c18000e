//! Where a running process thinks it is.
//!
//! Windows keeps a process's working directory in the process's own memory:
//! from its basic information to its environment block, from there to its
//! parameters, and from there to a counted string. The offsets are those of the
//! 64-bit structures. They are not documented, so every step is checked, and any
//! surprise ends in no answer rather than a guess.
use crate::utf16::{decode_strict, encode_utf16, from_utf16, law_utf16_round_trip};
use crate::utf8::byte_len;
use crate::text::{from_chars, to_chars};
use vstd::prelude::*;
use vstd::utf8::encode_utf8;

verus! {

/// The size of the basic information.
pub const PBI_SIZE: usize = 48;

/// Where it holds the address of the environment block.
pub const PBI_PEB_ADDRESS: usize = 8;

/// Where the environment block holds the address of the parameters.
pub const PEB_PROCESS_PARAMETERS: u64 = 0x20;

/// Where the parameters hold the working directory.
pub const PARAMS_CURRENT_DIRECTORY: u64 = 0x38;

/// Where a counted string holds the address of its text.
pub const UNICODE_STRING_BUFFER: u64 = 0x08;

/// A path longer than this means that the wrong bytes are being read.
pub const MAX_PATH_BYTES: u64 = 8192;

/// The number that bytes spell, the lowest first.
pub open spec fn little_endian(b: Seq<u8>) -> nat
    decreases b.len(),
{
    if b.len() == 0 {
        0
    } else {
        b[0] as nat + 256 * little_endian(b.skip(1))
    }
}

/// Units of two bytes each, the lower byte first.
pub open spec fn units(b: Seq<u8>) -> Seq<u16> {
    Seq::new(b.len() / 2, |i: int| (b[2 * i] + 256 * b[2 * i + 1]) as u16)
}

/// Where the search stands.
#[derive(Clone, Copy, PartialEq, Eq, Debug, Structural)]
pub enum Stage {
    /// The basic information is being asked for.
    Info,
    /// The address of the parameters is being read.
    Parameters,
    /// The length of the path is being read.
    Length { directory: u64 },
    /// The address of the path is being read.
    Buffer { length: u16 },
    /// The path is being read.
    Path { length: u16 },
}

/// What to do next.
pub enum Step {
    /// Read that many bytes at that address.
    Read { stage: Stage, address: u64, len: usize },
    /// The path, to be looked at on disk.
    Found(String),
    /// There is no answer.
    GiveUp,
}

#[verifier::ext_equal]
pub enum StepModel {
    Read { stage: Stage, address: u64, len: int },
    Found(Seq<char>),
    GiveUp,
}

impl View for Step {
    type V = StepModel;

    open spec fn view(&self) -> StepModel {
        match *self {
            Step::Read { stage, address, len } => StepModel::Read { stage, address, len: len as int },
            Step::Found(s) => StepModel::Found(s@),
            Step::GiveUp => StepModel::GiveUp,
        }
    }
}

/// `s` without the backslashes at its end.
pub open spec fn without_slashes(s: Seq<char>) -> Seq<char>
    decreases s.len(),
{
    if s.len() > 0 && s.last() == '\\' {
        without_slashes(s.drop_last())
    } else {
        s
    }
}

/// The path as it is given out: without the separator that Windows ends it
/// with, which `C:\` needs to keep.
pub open spec fn tidy(path: Seq<char>) -> Seq<char> {
    if encode_utf8(path).len() > 3 {
        without_slashes(path)
    } else {
        path
    }
}

/// An address that lies `offset` beyond another, where there is one.
pub open spec fn beyond(address: int, offset: int) -> Option<u64> {
    if address != 0 && address + offset <= u64::MAX {
        Some((address + offset) as u64)
    } else {
        None
    }
}

/// What comes after a stage. `got` is what was read, or nothing where the read
/// failed or fell short.
pub open spec fn follow(stage: Stage, got: Option<Seq<u8>>) -> StepModel {
    match got {
        None => StepModel::GiveUp,
        Some(b) => match stage {
            Stage::Info => if b.len() != PBI_SIZE {
                StepModel::GiveUp
            } else {
                match beyond(
                    little_endian(b.subrange(PBI_PEB_ADDRESS as int, PBI_PEB_ADDRESS + 8)) as int,
                    PEB_PROCESS_PARAMETERS as int,
                ) {
                    Some(address) => StepModel::Read { stage: Stage::Parameters, address, len: 8 },
                    None => StepModel::GiveUp,
                }
            },
            Stage::Parameters => if b.len() != 8 {
                StepModel::GiveUp
            } else {
                match beyond(little_endian(b) as int, PARAMS_CURRENT_DIRECTORY as int) {
                    Some(directory) => StepModel::Read {
                        stage: Stage::Length { directory },
                        address: directory,
                        len: 2,
                    },
                    None => StepModel::GiveUp,
                }
            },
            Stage::Length { directory } => if b.len() != 2 {
                StepModel::GiveUp
            } else {
                match beyond(directory as int, UNICODE_STRING_BUFFER as int) {
                    Some(address) => StepModel::Read {
                        stage: Stage::Buffer { length: little_endian(b) as u16 },
                        address,
                        len: 8,
                    },
                    None => StepModel::GiveUp,
                }
            },
            Stage::Buffer { length } => if b.len() != 8 || length == 0 || length % 2 != 0 || length
                > MAX_PATH_BYTES || little_endian(b) == 0 {
                StepModel::GiveUp
            } else {
                StepModel::Read {
                    stage: Stage::Path { length },
                    address: little_endian(b) as u64,
                    len: length as int,
                }
            },
            Stage::Path { length } => if b.len() != length {
                StepModel::GiveUp
            } else {
                match decode_strict(units(b)) {
                    Some(path) => StepModel::Found(tidy(path)),
                    None => StepModel::GiveUp,
                }
            },
        },
    }
}

/// Where to begin: with the basic information of the process. Process 0 has
/// none to give.
pub fn of_process(pid: u32) -> (step: Step)
    ensures
        step@ == (if pid == 0 {
            StepModel::GiveUp
        } else {
            StepModel::Read { stage: Stage::Info, address: 0, len: PBI_SIZE as int }
        }),
{
    if pid == 0 {
        Step::GiveUp
    } else {
        Step::Read { stage: Stage::Info, address: 0, len: PBI_SIZE }
    }
}

fn number_at(b: &Vec<u8>, from: usize, n: usize) -> (res: u64)
    requires
        n <= 8,
        from + n <= b@.len(),
    ensures
        res == little_endian(b@.subrange(from as int, from + n)),
        n == 0 ==> res == 0,
        n == 2 ==> res <= 0xffff,
{
    let ghost s = b@.subrange(from as int, from + n);
    let total: usize = b.len();
    let mut res: u64 = 0;
    let mut i: usize = n;
    assert(s.skip(n as int).len() == 0);
    while i > 0
        invariant
            i <= n <= 8,
            total == b@.len(),
            from + n <= total,
            s == b@.subrange(from as int, from + n),
            res == little_endian(s.skip(i as int)),
            n - i == 0 ==> res == 0,
            n - i <= 1 ==> res <= 0xff,
            n - i <= 2 ==> res <= 0xffff,
            n - i <= 3 ==> res <= 0xff_ffff,
            n - i <= 4 ==> res <= 0xffff_ffff,
            n - i <= 5 ==> res <= 0xff_ffff_ffff,
            n - i <= 6 ==> res <= 0xffff_ffff_ffff,
            n - i <= 7 ==> res <= 0xff_ffff_ffff_ffff,
        decreases i,
    {
        let k: usize = i - 1;
        assert(s.skip(k as int)[0] == b@[from + k]);
        assert(s.skip(k as int).skip(1) =~= s.skip(i as int));
        res = b[from + k] as u64 + 256 * res;
        i = k;
    }
    assert(s.skip(0) =~= s);
    res
}

fn to_units(b: &Vec<u8>) -> (out: Vec<u16>)
    ensures
        out@ == units(b@),
{
    let total: usize = b.len();
    let n: usize = total / 2;
    let mut out: Vec<u16> = Vec::new();
    let mut i: usize = 0;
    while i < n
        invariant
            i <= n,
            total == b@.len(),
            n == total / 2,
            out@.len() == i,
            forall|k: int| 0 <= k < i ==> #[trigger] out@[k] == (b@[2 * k] + 256 * b@[2 * k + 1]) as u16,
        decreases n - i,
    {
        let unit: u16 = b[2 * i] as u16 + 256 * (b[2 * i + 1] as u16);
        out.push(unit);
        i += 1;
    }
    assert(out@ =~= units(b@));
    out
}

/// Tidy up a path.
pub fn tidied(path: &str) -> (out: String)
    ensures
        out@ == tidy(path@),
{
    let v = to_chars(path);
    let n: usize = v.len();
    assert(v@.subrange(0, n as int) =~= path@);
    if byte_len(path) <= 3 {
        return from_chars(&v, 0, n);
    }
    let mut end: usize = n;
    while end > 0 && v[end - 1] == '\\'
        invariant
            end <= n,
            n == v@.len(),
            v@ == path@,
            without_slashes(path@) == without_slashes(path@.take(end as int)),
            path@.take(n as int) == path@,
        decreases end,
    {
        assert(path@.take(end as int).drop_last() =~= path@.take(end - 1));
        end -= 1;
    }
    assert(v@.subrange(0, end as int) =~= path@.take(end as int));
    from_chars(&v, 0, end)
}

fn offset(address: u64, by: u64) -> (res: Option<u64>)
    ensures
        res == beyond(address as int, by as int),
{
    if address == 0 || address > u64::MAX - by {
        None
    } else {
        Some(address + by)
    }
}

/// The step after a stage, given what was read.
pub fn next(stage: Stage, got: Option<Vec<u8>>) -> (step: Step)
    ensures
        got matches Some(b) ==> step@ == follow(stage, Some(b@)),
        got is None ==> step@ is GiveUp,
{
    let b = match got {
        None => {
            return Step::GiveUp;
        },
        Some(b) => b,
    };
    let n: usize = b.len();
    assert(b@.subrange(0, n as int) =~= b@);
    match stage {
        Stage::Info => {
            if n != PBI_SIZE {
                return Step::GiveUp;
            }
            match offset(number_at(&b, PBI_PEB_ADDRESS, 8), PEB_PROCESS_PARAMETERS) {
                Some(address) => Step::Read { stage: Stage::Parameters, address, len: 8 },
                None => Step::GiveUp,
            }
        },
        Stage::Parameters => {
            if n != 8 {
                return Step::GiveUp;
            }
            match offset(number_at(&b, 0, 8), PARAMS_CURRENT_DIRECTORY) {
                Some(directory) => Step::Read {
                    stage: Stage::Length { directory },
                    address: directory,
                    len: 2,
                },
                None => Step::GiveUp,
            }
        },
        Stage::Length { directory } => {
            if n != 2 {
                return Step::GiveUp;
            }
            let length: u16 = number_at(&b, 0, 2) as u16;
            match offset(directory, UNICODE_STRING_BUFFER) {
                Some(address) => Step::Read { stage: Stage::Buffer { length }, address, len: 8 },
                None => Step::GiveUp,
            }
        },
        Stage::Buffer { length } => {
            if n != 8 || length == 0 || length % 2 != 0 || length as u64 > MAX_PATH_BYTES {
                return Step::GiveUp;
            }
            let address: u64 = number_at(&b, 0, 8);
            if address == 0 {
                return Step::GiveUp;
            }
            Step::Read { stage: Stage::Path { length }, address, len: length as usize }
        },
        Stage::Path { length } => {
            if n != length as usize {
                return Step::GiveUp;
            }
            match from_utf16(&to_units(&b)) {
                Some(path) => Step::Found(tidied(path.as_str())),
                None => Step::GiveUp,
            }
        },
    }
}

// ---- laws -----------------------------------------------------------------------

/// How far a stage is along.
pub open spec fn rank(stage: Stage) -> int {
    match stage {
        Stage::Info => 0,
        Stage::Parameters => 1,
        Stage::Length { directory } => 2,
        Stage::Buffer { length } => 3,
        Stage::Path { length } => 4,
    }
}

/// The search ends: every read leads to a later stage, or to an end.
pub proof fn law_the_search_ends(stage: Stage, got: Option<Seq<u8>>)
    ensures
        follow(stage, got) matches StepModel::Read { stage: s, address, len } ==> rank(s) == rank(
            stage,
        ) + 1,
{
}

/// No more is ever read than the longest path, and nothing at address zero.
pub proof fn law_reads_are_bounded(stage: Stage, got: Option<Seq<u8>>)
    ensures
        follow(stage, got) matches StepModel::Read { stage: s, address, len } ==> address != 0 && 0
            < len <= MAX_PATH_BYTES,
{
    if let Some(b) = got {
        if b.len() == 8 {
            lemma_little_endian_bound(b);
        }
    }
}

/// Eight bytes spell a number that eight bytes can hold.
proof fn lemma_little_endian_bound(b: Seq<u8>)
    requires
        b.len() == 8,
    ensures
        little_endian(b) <= u64::MAX,
{
    reveal_with_fuel(little_endian, 9);
}

/// The two bytes of each unit, the lower first.
pub open spec fn bytes_of(u: Seq<u16>) -> Seq<u8> {
    Seq::new(
        2 * u.len(),
        |i: int|
            (if i % 2 == 0 {
                u[i / 2] % 256
            } else {
                u[i / 2] / 256
            }) as u8,
    )
}

/// Units are read back from their bytes.
pub proof fn law_units_are_read_back(u: Seq<u16>)
    ensures
        units(bytes_of(u)) == u,
{
    let b = bytes_of(u);
    assert forall|i: int| 0 <= i < u.len() implies #[trigger] units(b)[i] == u[i] by {
        assert(b[2 * i] == (u[i] % 256) as u8);
        assert(b[2 * i + 1] == (u[i] / 256) as u8);
    }
    assert(units(b) =~= u);
}

/// Of the bytes of a number the lowest comes first, and each counts 256 times the
/// one before.
pub proof fn law_the_lowest_byte_comes_first(a: u8, rest: Seq<u8>)
    ensures
        little_endian(seq![a] + rest) == a + 256 * little_endian(rest),
        little_endian(Seq::empty()) == 0,
        little_endian(seq![a]) == a,
{
    let b = seq![a] + rest;
    assert(b.skip(1) =~= rest);
    assert(seq![a].skip(1) =~= Seq::empty());
}

/// A path is given out without the backslashes at its end, and otherwise as it
/// is; one as short as the root of a drive keeps its own.
pub proof fn law_paths_are_given_out_tidy(path: Seq<char>)
    ensures
        ({
            let out = tidy(path);
            &&& encode_utf8(path).len() <= 3 ==> out == path
            &&& out.len() <= path.len()
            &&& out == path.take(out.len() as int)
            &&& forall|k: int| out.len() <= k < path.len() ==> (#[trigger] path[k]) == '\\'
            &&& encode_utf8(path).len() > 3 ==> out.len() == 0 || out.last() != '\\'
        }),
{
    lemma_without_slashes(path);
    assert(path.take(path.len() as int) =~= path);
}

proof fn lemma_without_slashes(s: Seq<char>)
    ensures
        ({
            let out = without_slashes(s);
            &&& out.len() <= s.len()
            &&& out == s.take(out.len() as int)
            &&& forall|k: int| out.len() <= k < s.len() ==> (#[trigger] s[k]) == '\\'
            &&& out.len() == 0 || out.last() != '\\'
        }),
    decreases s.len(),
{
    let out = without_slashes(s);
    if s.len() > 0 && s.last() == '\\' {
        lemma_without_slashes(s.drop_last());
        assert(s.drop_last().take(out.len() as int) =~= s.take(out.len() as int));
        assert forall|k: int| out.len() <= k < s.len() implies (#[trigger] s[k]) == '\\' by {
            if k < s.len() - 1 {
                assert(s.drop_last()[k] == s[k]);
            }
        }
    } else {
        assert(s.take(s.len() as int) =~= s);
    }
}

/// The search follows the addresses that it reads: from the basic information to
/// the block it names, from there to the parameters, to the length of the path
/// and to its text. An address of zero ends it.
pub proof fn law_the_search_follows_the_addresses(b: Seq<u8>, p: u64, directory: u64, n: u16)
    ensures
        b.len() == 48 && little_endian(b.subrange(8, 16)) == p && 0 < p < 0x1_0000_0000_0000 ==> follow(
            Stage::Info,
            Some(b),
        ) == (StepModel::Read { stage: Stage::Parameters, address: (p + 0x20) as u64, len: 8 }),
        b.len() == 8 && little_endian(b) == p && 0 < p < 0x1_0000_0000_0000 ==> follow(
            Stage::Parameters,
            Some(b),
        ) == (StepModel::Read {
            stage: Stage::Length { directory: (p + 0x38) as u64 },
            address: (p + 0x38) as u64,
            len: 2,
        }),
        b.len() == 2 && little_endian(b) == n && 0 < directory < 0x1_0000_0000_0000 ==> follow(
            Stage::Length { directory },
            Some(b),
        ) == (StepModel::Read {
            stage: Stage::Buffer { length: n },
            address: (directory + 8) as u64,
            len: 8,
        }),
        b.len() == 8 && little_endian(b) == p && p > 0 && 0 < n <= 8192 && n % 2 == 0 ==> follow(
            Stage::Buffer { length: n },
            Some(b),
        ) == (StepModel::Read { stage: Stage::Path { length: n }, address: p, len: n as int }),
        b.len() == 8 && little_endian(b) == 0 ==> follow(Stage::Parameters, Some(b)) is GiveUp
            && follow(Stage::Buffer { length: n }, Some(b)) is GiveUp,
        follow(Stage::Info, None) is GiveUp && follow(Stage::Path { length: n }, None) is GiveUp,
{
}

/// The path that is found is the text that was there.
pub proof fn law_the_path_is_what_was_there(path: Seq<char>, n: u16)
    requires
        2 * encode_utf16(path).len() == n,
    ensures
        follow(Stage::Path { length: n }, Some(bytes_of(encode_utf16(path)))) == StepModel::Found(
            tidy(path),
        ),
{
    law_units_are_read_back(encode_utf16(path));
    law_utf16_round_trip(path);
}

} // verus!
