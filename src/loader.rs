//! The bytecode file format: an optional 32-byte metadata header followed by
//! `(opcode, operand)` records, little-endian throughout.
use vstd::prelude::*;
use vstd::utf8::{decode_utf8, valid_utf8};

use crate::bytesize::{ends_with, ends_with_str};
use crate::immediates::{ImmView, Immediates};
use vstd::string::*;
use crate::instructions::{HALT, JMPFD, NTASK, NTHRD, PDTS};

verus! {

/// Operand tag: null.
pub const NULL: u8 = 0x00;
/// Operand tag: boolean, one byte.
pub const BOOL: u8 = 0x01;
/// Operand tag: signed 64-bit integer.
pub const INTEGER: u8 = 0x02;
/// Operand tag: unsigned 64-bit integer.
pub const UINTEGER: u8 = 0x03;
/// Operand tag: 64-bit float.
pub const FLOAT: u8 = 0x04;
/// Operand tag: string with a one-byte length.
pub const STRING8: u8 = 0x0F;
/// Operand tag: string with a two-byte length.
pub const STRING16: u8 = 0x1F;
/// Operand tag: string with a four-byte length.
pub const STRING32: u8 = 0x2F;
/// Operand tag: string with an eight-byte length.
pub const STRING64: u8 = 0x3F;
/// Operand tag: string with a sixteen-byte length.
pub const STRING128: u8 = 0x4F;

/// Why a file could not be loaded.
#[derive(PartialEq, Eq, Structural, Clone, Copy, Debug)]
pub enum LoadError {
    /// The metadata header is cut short.
    Metadata,
    /// The body ends inside an instruction.
    Truncated,
    /// An operand tag, a boolean byte or a string is not valid.
    InvalidData,
}

/// The number that little-endian bytes stand for.
pub open spec fn le_value(s: Seq<u8>) -> nat
    decreases s.len(),
{
    if s.len() == 0 {
        0
    } else {
        s[0] as nat + 256 * le_value(s.drop_first())
    }
}

pub open spec fn pow256(n: nat) -> nat
    decreases n,
{
    if n == 0 {
        1
    } else {
        256 * pow256((n - 1) as nat)
    }
}

pub(crate) proof fn lemma_le_value_bound(s: Seq<u8>)
    ensures
        le_value(s) < pow256(s.len()),
    decreases s.len(),
{
    if s.len() > 0 {
        lemma_le_value_bound(s.drop_first());
        let a = s[0] as nat;
        let r = le_value(s.drop_first());
        let p = pow256(s.drop_first().len());
        assert(a + 256 * r < 256 * p) by (nonlinear_arith)
            requires
                a < 256,
                r < p,
        ;
    }
}

/// The signed integer whose two's-complement bits are `u`.
pub open spec fn signed_of(u: nat) -> int {
    if u < 0x8000_0000_0000_0000 {
        u as int
    } else {
        u - 0x1_0000_0000_0000_0000
    }
}

/// Reads `n` little-endian bytes at `pos`.
pub(crate) fn read_le(b: &Vec<u8>, pos: usize, n: usize) -> (r: u128)
    requires
        n <= 16,
        pos + n <= b@.len(),
    ensures
        r as nat == le_value(b@.subrange(pos as int, pos + n)),
{
    let mut acc: u128 = 0;
    let mut k: usize = n;
    proof {
        reveal_with_fuel(pow256, 17);
        assert(pow256(16) == 0x1_0000_0000_0000_0000_0000_0000_0000_0000);
    }
    while k > 0
        invariant
            k <= n,
            n <= 16,
            pos + n <= b@.len(),
            b@.len() == b.len(),
            acc as nat == le_value(b@.subrange(pos + k, pos + n)),
            pow256(16) == 0x1_0000_0000_0000_0000_0000_0000_0000_0000,
        decreases k,
    {
        let ghost tail = b@.subrange(pos + k, pos + n);
        let ghost s = b@.subrange(pos + k - 1, pos + n);
        assert(s.drop_first() =~= tail);
        proof {
            lemma_le_value_bound(s);
            lemma_pow256_mono(s.len(), 16);
        }
        acc = b[pos + (k - 1)] as u128 + 256 * acc;
        k = k - 1;
    }
    acc
}

proof fn lemma_pow256_mono(a: nat, b: nat)
    requires
        a <= b,
    ensures
        pow256(a) <= pow256(b),
    decreases b,
{
    if a < b {
        lemma_pow256_mono(a, (b - 1) as nat);
    }
}

/// Relies on std's `String::from_utf8`: it succeeds exactly on valid UTF-8, and
/// the string holds the decoded characters.
#[verifier::external_body]
pub(crate) fn utf8_string(b: Vec<u8>) -> (r: Option<String>)
    ensures
        r is Some <==> valid_utf8(b@),
        r matches Some(s) ==> s@ == decode_utf8(b@),
{
    String::from_utf8(b).ok()
}

/// Converts UTF-8 bytes into a string; invalid UTF-8 is invalid file data.
pub fn to_string(string: Vec<u8>) -> (r: Result<String, LoadError>)
    ensures
        valid_utf8(string@) ==> (r matches Ok(s) && s@ == decode_utf8(string@)),
        !valid_utf8(string@) ==> r == Err::<String, LoadError>(LoadError::InvalidData),
{
    match utf8_string(string) {
        Some(s) => Ok(s),
        None => Err(LoadError::InvalidData),
    }
}

/// The boolean a byte encodes: 1 true, 0 false, others none.
pub open spec fn bool_of(b: u8) -> Option<bool> {
    if b == 1 {
        Some(true)
    } else if b == 0 {
        Some(false)
    } else {
        None
    }
}

/// Decodes a boolean byte.
pub fn to_boolean(value: u8) -> (r: Result<Immediates, LoadError>)
    ensures
        bool_of(value) matches Some(x) ==> (r matches Ok(v) && v@ == ImmView::Boolean(x)),
        bool_of(value) is None ==> r == Err::<Immediates, LoadError>(LoadError::InvalidData),
{
    if value == 1 {
        Ok(Immediates::Boolean(true))
    } else if value == 0 {
        Ok(Immediates::Boolean(false))
    } else {
        Err(LoadError::InvalidData)
    }
}

/// Width of the length prefix of a string tag.
pub open spec fn string_prefix(tag: u8) -> Option<nat> {
    if tag == STRING8 {
        Some(1)
    } else if tag == STRING16 {
        Some(2)
    } else if tag == STRING32 {
        Some(4)
    } else if tag == STRING64 {
        Some(8)
    } else if tag == STRING128 {
        Some(16)
    } else {
        None
    }
}

/// The operand that tag `tag` introduces at `at`, and the position after it.
pub open spec fn tagged_operand(b: Seq<u8>, tag: u8, at: int) -> Result<(ImmView, int), LoadError> {
    if tag == NULL {
        Ok((ImmView::Null, at))
    } else if tag == BOOL {
        if at + 1 > b.len() {
            Err(LoadError::Truncated)
        } else {
            match bool_of(b[at]) {
                Some(x) => Ok((ImmView::Boolean(x), at + 1)),
                None => Err(LoadError::InvalidData),
            }
        }
    } else if tag == INTEGER || tag == UINTEGER || tag == FLOAT {
        if at + 8 > b.len() {
            Err(LoadError::Truncated)
        } else {
            let u = le_value(b.subrange(at, at + 8));
            if tag == INTEGER {
                Ok((ImmView::Integer(signed_of(u) as i64), at + 8))
            } else if tag == UINTEGER {
                Ok((ImmView::UInteger(u as u64), at + 8))
            } else {
                Ok((ImmView::Float(u as u64), at + 8))
            }
        }
    } else {
        match string_prefix(tag) {
            Some(w) => if at + w > b.len() {
                Err(LoadError::Truncated)
            } else {
                let len = le_value(b.subrange(at, at + w));
                if at + w + len > b.len() {
                    Err(LoadError::Truncated)
                } else {
                    let text = b.subrange(at + w, at + w + len);
                    if valid_utf8(text) {
                        Ok((ImmView::MutStr(decode_utf8(text)), at + w + len))
                    } else {
                        Err(LoadError::InvalidData)
                    }
                }
            },
            None => Err(LoadError::InvalidData),
        }
    }
}

/// Decodes the operand that `data_type` introduces at `at`; returns it with the
/// number of bytes it took.
pub fn get_data(data_type: u8, b: &Vec<u8>, at: usize) -> (r: Result<(Immediates, usize), LoadError>)
    requires
        at <= b@.len(),
    ensures
        match tagged_operand(b@, data_type, at as int) {
            Ok((v, next)) => r matches Ok((x, used)) && x@ == v && at + used == next,
            Err(e) => r == Err::<(Immediates, usize), LoadError>(e),
        },
{
    let len = b.len();
    if data_type == NULL {
        Ok((Immediates::Null, 0))
    } else if data_type == BOOL {
        if len - at < 1 {
            return Err(LoadError::Truncated);
        }
        match to_boolean(b[at]) {
            Ok(v) => Ok((v, 1)),
            Err(e) => Err(e),
        }
    } else if data_type == INTEGER || data_type == UINTEGER || data_type == FLOAT {
        if len - at < 8 {
            return Err(LoadError::Truncated);
        }
        let u = read_le(b, at, 8);
        proof {
            lemma_le_value_bound(b@.subrange(at as int, at + 8));
            reveal_with_fuel(pow256, 9);
            assert(pow256(8) == 0x1_0000_0000_0000_0000);
        }
        let bits = u as u64;
        if data_type == INTEGER {
            let i: i64 = if bits < 0x8000_0000_0000_0000 {
                bits as i64
            } else {
                (bits as i128 - 0x1_0000_0000_0000_0000i128) as i64
            };
            Ok((Immediates::Integer(i), 8))
        } else if data_type == UINTEGER {
            Ok((Immediates::UInteger(bits), 8))
        } else {
            Ok((Immediates::Float(bits), 8))
        }
    } else {
        let w: usize = if data_type == STRING8 {
            1
        } else if data_type == STRING16 {
            2
        } else if data_type == STRING32 {
            4
        } else if data_type == STRING64 {
            8
        } else if data_type == STRING128 {
            16
        } else {
            return Err(LoadError::InvalidData);
        };
        if w > len - at {
            return Err(LoadError::Truncated);
        }
        let n = read_le(b, at, w);
        if n > (len - at - w) as u128 {
            return Err(LoadError::Truncated);
        }
        let n = n as usize;
        let start = at + w;
        let mut text: Vec<u8> = Vec::new();
        let mut k: usize = 0;
        while k < n
            invariant
                start + n <= b@.len(),
                b@.len() == b.len(),
                k <= n,
                text@ == b@.subrange(start as int, start + k),
            decreases n - k,
        {
            text.push(b[start + k]);
            k = k + 1;
            assert(text@ =~= b@.subrange(start as int, start + k));
        }
        match to_string(text) {
            Ok(s) => Ok((Immediates::MutStr(s), w + n)),
            Err(e) => Err(e),
        }
    }
}

/// One instruction at `pos`: its opcode, its operand and the position after it.
pub open spec fn decode_step(b: Seq<u8>, pos: int) -> Result<(u8, ImmView, int), LoadError> {
    let op = b[pos];
    if op == PDTS {
        if pos + 2 > b.len() {
            Err(LoadError::Truncated)
        } else {
            match tagged_operand(b, b[pos + 1], pos + 2) {
                Ok((v, next)) => Ok((op, v, next)),
                Err(e) => Err(e),
            }
        }
    } else if op == JMPFD {
        if pos + 9 > b.len() {
            Err(LoadError::Truncated)
        } else {
            Ok((op, ImmView::UInteger(le_value(b.subrange(pos + 1, pos + 9)) as u64), pos + 9))
        }
    } else if op == NTASK || op == NTHRD {
        if pos + 2 > b.len() {
            Err(LoadError::Truncated)
        } else {
            match bool_of(b[pos + 1]) {
                Some(x) => Ok((op, ImmView::Boolean(x), pos + 2)),
                None => Err(LoadError::InvalidData),
            }
        }
    } else {
        Ok((op, ImmView::Null, pos + 1))
    }
}

/// The opcodes and operands decoded from `pos` on: decoding stops after a halt
/// opcode or at the end of the bytes.
pub open spec fn decode_from(b: Seq<u8>, pos: int) -> Result<(Seq<u8>, Seq<ImmView>), LoadError>
    decreases b.len() - pos,
{
    if pos < 0 || pos >= b.len() {
        Ok((Seq::empty(), Seq::empty()))
    } else {
        match decode_step(b, pos) {
            Err(e) => Err(e),
            Ok((op, v, next)) => if op == HALT || next <= pos {
                Ok((seq![op], seq![v]))
            } else {
                match decode_from(b, next) {
                    Ok((ops, vs)) => Ok((seq![op] + ops, seq![v] + vs)),
                    Err(e) => Err(e),
                }
            },
        }
    }
}

/// The views of a sequence of values.
pub open spec fn views(v: Seq<Immediates>) -> Seq<ImmView> {
    Seq::new(v.len(), |i: int| v[i]@)
}

/// A decoded program: opcodes and their operands, index by index.
pub struct FileReader {
    /// The opcodes.
    pub instructions: Vec<u8>,
    /// The operand of each opcode; `Null` where it takes none.
    pub data: Vec<Immediates>,
}

impl FileReader {
    /// Both sequences have one entry per instruction.
    pub open spec fn wf(&self) -> bool {
        self.instructions@.len() == self.data@.len()
    }

    /// A copy of this program.
    pub fn duplicate(&self) -> (r: FileReader)
        requires
            self.wf(),
        ensures
            r.wf(),
            r.instructions@ == self.instructions@,
            views(r.data@) == views(self.data@),
    {
        let mut instructions: Vec<u8> = Vec::new();
        let mut data: Vec<Immediates> = Vec::new();
        let mut i: usize = 0;
        while i < self.data.len()
            invariant
                self.wf(),
                i <= self.data@.len(),
                instructions@ == self.instructions@.subrange(0, i as int),
                data@.len() == i,
                forall|j: int| 0 <= j < i ==> data@[j]@ == self.data@[j]@,
            decreases self.data@.len() - i,
        {
            instructions.push(self.instructions[i]);
            data.push(self.data[i].duplicate());
            i = i + 1;
            assert(instructions@ =~= self.instructions@.subrange(0, i as int));
        }
        assert(instructions@ =~= self.instructions@);
        assert(views(data@) =~= views(self.data@));
        FileReader { instructions, data }
    }
}

/// Decodes the instructions from `start` on.
pub fn decode_body(b: &Vec<u8>, start: usize) -> (r: Result<FileReader, LoadError>)
    requires
        start <= b@.len(),
    ensures
        match decode_from(b@, start as int) {
            Ok((ops, vs)) => r matches Ok(p) && p.wf() && p.instructions@ == ops && views(p.data@) == vs,
            Err(e) => r == Err::<FileReader, LoadError>(e),
        },
{
    let len = b.len();
    let mut instructions: Vec<u8> = Vec::new();
    let mut data: Vec<Immediates> = Vec::new();
    let mut pos: usize = start;
    let mut done = false;
    while pos < len && !done
        invariant
            len == b@.len(),
            start <= pos <= len,
            instructions@.len() == data@.len(),
            done ==> decode_from(b@, start as int) == Ok::<(Seq<u8>, Seq<ImmView>), LoadError>(
                (instructions@, views(data@)),
            ),
            !done ==> decode_from(b@, start as int) == match decode_from(b@, pos as int) {
                Ok((ops, vs)) => Ok((instructions@ + ops, views(data@) + vs)),
                Err(e) => Err(e),
            },
        decreases len - pos, (if done { 0int } else { 1int }),
    {
        let op = b[pos];
        let ghost before_ops = instructions@;
        let ghost before_vs = views(data@);
        let (value, next): (Immediates, usize) = if op == PDTS {
            if len - pos < 2 {
                return Err(LoadError::Truncated);
            }
            match get_data(b[pos + 1], b, pos + 2) {
                Ok((v, used)) => (v, pos + 2 + used),
                Err(e) => {
                    return Err(e);
                },
            }
        } else if op == JMPFD {
            if len - pos < 9 {
                return Err(LoadError::Truncated);
            }
            let u = read_le(b, pos + 1, 8);
            proof {
                lemma_le_value_bound(b@.subrange(pos + 1, pos + 9));
                reveal_with_fuel(pow256, 9);
            }
            (Immediates::UInteger(u as u64), pos + 9)
        } else if op == NTASK || op == NTHRD {
            if len - pos < 2 {
                return Err(LoadError::Truncated);
            }
            match to_boolean(b[pos + 1]) {
                Ok(v) => (v, pos + 2),
                Err(e) => {
                    return Err(e);
                },
            }
        } else {
            (Immediates::Null, pos + 1)
        };
        proof {
            assert(decode_step(b@, pos as int) == Ok::<(u8, ImmView, int), LoadError>(
                (op, value@, next as int),
            ));
        }
        instructions.push(op);
        data.push(value);
        proof {
            assert(views(data@) =~= before_vs.push(value@));
        }
        if op == HALT {
            done = true;
            proof {
                assert(instructions@ =~= before_ops + seq![op]);
                assert(views(data@) =~= before_vs + seq![value@]);
            }
        } else {
            proof {
                match decode_from(b@, next as int) {
                    Ok((ops, vs)) => {
                        assert(instructions@ + ops =~= before_ops + (seq![op] + ops));
                        assert(views(data@) + vs =~= before_vs + (seq![value@] + vs));
                    },
                    Err(e) => {},
                }
            }
            pos = next;
        }
    }
    proof {
        if !done {
            assert(instructions@ + Seq::<u8>::empty() =~= instructions@);
            assert(views(data@) + Seq::<ImmView>::empty() =~= views(data@));
        }
    }
    Ok(FileReader { instructions, data })
}

/// Extension of bytecode files.
pub const SQDBIN: &'static str = ".sqd";

/// Size of the metadata header.
pub const HEADER_SIZE: usize = 32;

/// First byte of a file that carries a metadata header.
pub const METADATA_IDENTIFIER_BYTE: u8 = 1;

/// Size of the compiler name in the header.
pub const COMPILER_NAME_SIZE: usize = 22;

/// The version of the running machine, against which binaries are checked.
#[derive(PartialEq, Eq, Structural, Clone, Copy, Debug)]
pub struct VmVersion {
    pub major: u32,
    pub minor: u16,
}

/// The metadata header of a binary.
pub struct Metadata {
    pub major: u32,
    pub minor: u16,
    pub patch: u16,
    /// Release channel: 0 release, 1 alpha, 2 beta, others unknown.
    pub details: u8,
    /// The compiler-name bytes.
    pub compiler: Vec<u8>,
}

/// Whether the bytes begin with a metadata header.
pub open spec fn has_header(b: Seq<u8>) -> bool {
    b.len() > 0 && b[0] == METADATA_IDENTIFIER_BYTE
}

/// Whether `m` holds the header fields of the bytes `b`.
pub open spec fn header_fields(m: &Metadata, b: Seq<u8>) -> bool {
    &&& b.len() >= HEADER_SIZE
    &&& m.major as nat == le_value(b.subrange(1, 5))
    &&& m.minor as nat == le_value(b.subrange(5, 7))
    &&& m.patch as nat == le_value(b.subrange(7, 9))
    &&& m.details == b[9]
    &&& m.compiler@ == b.subrange(10, 32)
}

/// Whether a binary with this header was built for a newer machine than `vm`.
pub open spec fn newer_than(m: &Metadata, vm: VmVersion) -> bool {
    m.major > vm.major || (m.major == vm.major && m.minor > vm.minor)
}

/// Whether the header at the start of `b` names a newer machine than `vm`.
pub open spec fn header_newer(b: Seq<u8>, vm: VmVersion) -> bool {
    let major = le_value(b.subrange(1, 5));
    let minor = le_value(b.subrange(5, 7));
    major > vm.major || (major == vm.major && minor > vm.minor)
}

/// The outcome of loading a binary.
pub enum Loaded {
    /// Only the version metadata was asked for (`None`: the file has none).
    VersionInfo(Option<Metadata>),
    /// The binary targets a newer machine, and running it was not forced.
    TooNew(Metadata),
    /// The decoded program, with the file's metadata if it has any.
    Program(Option<Metadata>, FileReader),
}

/// Reads the metadata header at the start of `b`.
pub fn read_metadata(b: &Vec<u8>) -> (r: Metadata)
    requires
        b@.len() >= HEADER_SIZE,
    ensures
        header_fields(&r, b@),
{
    proof {
        lemma_le_value_bound(b@.subrange(1, 5));
        lemma_le_value_bound(b@.subrange(5, 7));
        lemma_le_value_bound(b@.subrange(7, 9));
        reveal_with_fuel(pow256, 5);
    }
    let major = read_le(b, 1, 4) as u32;
    let minor = read_le(b, 5, 2) as u16;
    let patch = read_le(b, 7, 2) as u16;
    let mut compiler: Vec<u8> = Vec::new();
    let mut k: usize = 10;
    while k < HEADER_SIZE
        invariant
            b@.len() >= HEADER_SIZE,
            10 <= k <= HEADER_SIZE,
            compiler@ == b@.subrange(10, k as int),
        decreases HEADER_SIZE - k,
    {
        compiler.push(b[k]);
        k = k + 1;
        assert(compiler@ =~= b@.subrange(10, k as int));
    }
    Metadata { major, minor, patch, details: b[9], compiler }
}

/// Whether a binary with header `m` targets a newer machine than `vm`.
pub fn is_newer(m: &Metadata, vm: VmVersion) -> (r: bool)
    ensures
        r == newer_than(m, vm),
{
    m.major > vm.major || (m.major == vm.major && m.minor > vm.minor)
}

/// The name of a release channel code.
pub fn release_channel(details: u8) -> (r: &'static str)
    ensures
        details == 0 ==> r@ == "release"@,
        details == 1 ==> r@ == "alpha"@,
        details == 2 ==> r@ == "beta"@,
        details > 2 ==> r@ == "unknown"@,
{
    if details == 0 {
        "release"
    } else if details == 1 {
        "alpha"
    } else if details == 2 {
        "beta"
    } else {
        "unknown"
    }
}

/// The path without one trailing separator.
pub open spec fn trimmed_path(s: Seq<char>) -> Seq<char> {
    if s.len() > 0 && (s.last() == '/' || s.last() == '\\') {
        s.drop_last()
    } else {
        s
    }
}

/// The path of a bytecode file: one trailing separator dropped, and the
/// extension appended when it is missing.
pub open spec fn program_path(s: Seq<char>) -> Seq<char> {
    let t = trimmed_path(s);
    if ends_with(t, SQDBIN@) {
        t
    } else {
        t + SQDBIN@
    }
}

/// Normalizes the path of a bytecode file.
pub fn normalize_path(file_location: String) -> (r: String)
    ensures
        r@ == program_path(file_location@),
{
    let s = file_location.as_str();
    let n = s.unicode_len();
    let mut t: String = if n > 0 && (s.get_char(n - 1) == '/' || s.get_char(n - 1) == '\\') {
        s.substring_char(0, n - 1).to_owned()
    } else {
        s.to_owned()
    };
    proof {
        if n > 0 {
            assert(s@.subrange(0, n - 1) =~= s@.drop_last());
        }
    }
    let m = t.as_str().unicode_len();
    if !ends_with_str(t.as_str(), m, SQDBIN) {
        t.append(SQDBIN);
    }
    t
}

impl FileReader {
    /// Loads a binary from its bytes. A file that begins with the metadata byte
    /// carries a 32-byte header, and its instructions start after it; any other
    /// file has none, and its instructions start at offset 0. When only the
    /// version is asked for, the header (if any) is returned and nothing is
    /// decoded. A header for a newer machine (a higher major, or the same major
    /// and a higher minor) stops the load unless `force_newer_ver` is set.
    pub fn from_bytes(b: &Vec<u8>, filearg: bool, force_newer_ver: bool, vm: VmVersion) -> (r: Result<
        Loaded,
        LoadError,
    >)
        ensures
            b@.len() == 0 ==> r == Err::<Loaded, LoadError>(LoadError::Truncated),
            has_header(b@) && b@.len() < HEADER_SIZE ==> r == Err::<Loaded, LoadError>(LoadError::Metadata),
            has_header(b@) && b@.len() >= HEADER_SIZE ==> match r {
                Ok(Loaded::VersionInfo(Some(m))) => filearg && header_fields(&m, b@),
                Ok(Loaded::TooNew(m)) => !filearg && !force_newer_ver && header_fields(&m, b@)
                    && newer_than(&m, vm),
                Ok(Loaded::Program(Some(m), p)) => !filearg && header_fields(&m, b@) && (force_newer_ver
                    || !newer_than(&m, vm)) && decode_from(b@, HEADER_SIZE as int) == Ok::<
                    (Seq<u8>, Seq<ImmView>),
                    LoadError,
                >((p.instructions@, views(p.data@))) && p.wf(),
                Err(e) => !filearg && (force_newer_ver || !header_newer(b@, vm)) && decode_from(
                    b@,
                    HEADER_SIZE as int,
                ) == Err::<
                    (Seq<u8>, Seq<ImmView>),
                    LoadError,
                >(e),
                _ => false,
            },
            has_header(b@) && b@.len() >= HEADER_SIZE ==> (filearg <==> r matches Ok(Loaded::VersionInfo(_))),
            b@.len() > 0 && !has_header(b@) ==> match r {
                Ok(Loaded::VersionInfo(None)) => filearg,
                Ok(Loaded::Program(None, p)) => !filearg && decode_from(b@, 0) == Ok::<
                    (Seq<u8>, Seq<ImmView>),
                    LoadError,
                >((p.instructions@, views(p.data@))) && p.wf(),
                Err(e) => !filearg && decode_from(b@, 0) == Err::<(Seq<u8>, Seq<ImmView>), LoadError>(e),
                _ => false,
            },
    {
        if b.len() == 0 {
            return Err(LoadError::Truncated);
        }
        if b[0] == METADATA_IDENTIFIER_BYTE {
            if b.len() < HEADER_SIZE {
                return Err(LoadError::Metadata);
            }
            let m = read_metadata(b);
            if filearg {
                return Ok(Loaded::VersionInfo(Some(m)));
            }
            if !force_newer_ver && is_newer(&m, vm) {
                return Ok(Loaded::TooNew(m));
            }
            match decode_body(b, HEADER_SIZE) {
                Ok(p) => Ok(Loaded::Program(Some(m), p)),
                Err(e) => Err(e),
            }
        } else {
            if filearg {
                return Ok(Loaded::VersionInfo(None));
            }
            match decode_body(b, 0) {
                Ok(p) => Ok(Loaded::Program(None, p)),
                Err(e) => Err(e),
            }
        }
    }
}

} // verus!
