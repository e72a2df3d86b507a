//! Decoding of a header block into the metadata of one archive entry.
use vstd::prelude::*;

use crate::constants::{
    TarBlock, BLOCK_SIZE, CHECKSUM_END, CHECKSUM_START, GROUP_END, GROUP_START, LINK_NAME_END,
    LINK_NAME_START, LINK_TYPE_OFFSET, MODE_END, MODE_START, MTIME_END, MTIME_START, NAME_END,
    NAME_START, OWNER_END, OWNER_START, SIZE_END, SIZE_START,
};
use crate::error::{same_kind, TarError};
use crate::utils::{
    checksum_of, compute_checksum, compute_signed_checksum, lemma_byte_sum_nonnegative,
    lemma_octal_field_bound, lemma_octal_field_of_digits, lemma_pow8_values,
    lemma_signed_octal_field_bound, masked, nul_terminated, octal_ascii, octal_field, parse_octal,
    parse_signed_octal, parse_size, signed_checksum_of, signed_octal_field, trimmed_osstr,
};

verus! {

/// Kind of an archive entry, from the link type byte of its header.
#[derive(Debug, PartialEq, Eq, Structural, Copy, Clone)]
pub enum LinkType {
    Normal,
    Hard,
    Symbolic,
    Other(char),
}

/// The link type that a header byte stands for: NUL and `'0'` (48) are
/// regular files, `'1'` (49) hard links, `'2'` (50) symbolic links.
pub open spec fn link_type_of(b: u8) -> LinkType {
    if b == 0 || b == 48 {
        LinkType::Normal
    } else if b == 49 {
        LinkType::Hard
    } else if b == 50 {
        LinkType::Symbolic
    } else {
        LinkType::Other(b as char)
    }
}

impl From<u8> for LinkType {
    fn from(b: u8) -> (r: LinkType)
        ensures
            r == link_type_of(b),
    {
        match b {
            // NUL and the digits '0', '1' and '2'
            0 | 48 => LinkType::Normal,
            49 => LinkType::Hard,
            50 => LinkType::Symbolic,
            c => LinkType::Other(c as char),
        }
    }
}

impl vstd::std_specs::convert::FromSpecImpl<u8> for LinkType {
    open spec fn obeys_from_spec() -> bool {
        true
    }

    open spec fn from_spec(b: u8) -> LinkType {
        link_type_of(b)
    }
}


/// Metadata of one archive entry, decoded from its header block.
#[derive(Debug)]
pub struct TarHeader {
    /// Name of the entry, as the bytes that the archive holds.
    pub name: Vec<u8>,
    pub mode: u32,
    pub owner: u32,
    pub group: u32,
    /// Length of the entry's payload in bytes.
    pub size: usize,
    /// Modification time, in seconds since the Unix epoch.
    pub mtime: u64,
    pub link: LinkType,
    /// Target of a hard or symbolic link.
    pub link_name: Option<Vec<u8>>,
}

/// The bytes `start..end` of a block.
pub open spec fn field(block: Seq<u8>, start: usize, end: usize) -> Seq<u8> {
    block.subrange(start as int, end as int)
}

/// True when the stored checksum of a block, read as signed octal, equals
/// its checksum with bytes read as unsigned or as signed.
pub open spec fn checksum_valid(block: Seq<u8>) -> bool {
    match signed_octal_field(field(block, CHECKSUM_START, CHECKSUM_END)) {
        Some(c) => c == checksum_of(block) || c == signed_checksum_of(block),
        None => false,
    }
}

/// True when the name field of a block holds a name.
pub open spec fn has_name(block: Seq<u8>) -> bool {
    nul_terminated(field(block, NAME_START, NAME_END)) is Some
}

/// True when every numeric field of a block is valid octal and fits its type.
pub open spec fn numbers_decode(block: Seq<u8>) -> bool {
    &&& octal_field(field(block, MODE_START, MODE_END)) is Some
    &&& octal_field(field(block, OWNER_START, OWNER_END)) is Some
    &&& octal_field(field(block, GROUP_START, GROUP_END)) is Some
    &&& octal_field(field(block, SIZE_START, SIZE_END)) matches Some(v) && v <= usize::MAX
    &&& octal_field(field(block, MTIME_START, MTIME_END)) is Some
}

/// True when a block decodes to a header, checksum aside.
pub open spec fn header_decodes(block: Seq<u8>) -> bool {
    has_name(block) && numbers_decode(block)
}

/// True when `e` is the error that decoding `block` after a checksum check
/// reports, given that the block does not decode.
pub open spec fn decode_failure(block: Seq<u8>, e: TarError) -> bool {
    &&& (e is CheckSum <==> !checksum_valid(block))
    &&& (e is EmptyName <==> checksum_valid(block) && !has_name(block))
    &&& (e is ParseError <==> checksum_valid(block) && has_name(block) && !numbers_decode(block))
}

/// The bytes that an optional byte vector holds.
pub open spec fn bytes_view(v: Option<Vec<u8>>) -> Option<Seq<u8>> {
    match v {
        Some(b) => Some(b@),
        None => None,
    }
}

/// True when `h` holds what the fields of `block` encode.
pub open spec fn decodes_to(block: Seq<u8>, h: TarHeader) -> bool {
    &&& nul_terminated(field(block, NAME_START, NAME_END)) == Some(h.name@)
    &&& octal_field(field(block, MODE_START, MODE_END)) == Some(h.mode as int)
    &&& octal_field(field(block, OWNER_START, OWNER_END)) == Some(h.owner as int)
    &&& octal_field(field(block, GROUP_START, GROUP_END)) == Some(h.group as int)
    &&& octal_field(field(block, SIZE_START, SIZE_END)) == Some(h.size as int)
    &&& octal_field(field(block, MTIME_START, MTIME_END)) == Some(h.mtime as int)
    &&& h.link == link_type_of(block[LINK_TYPE_OFFSET as int])
    &&& bytes_view(h.link_name) == nul_terminated(field(block, LINK_NAME_START, LINK_NAME_END))
}

/// Number of whole blocks that `size` bytes take up.
pub open spec fn block_span(size: int) -> int {
    (size + 511) / 512
}

/// Parse a numeric field of eight bytes, whose value always fits in a `u32`.
fn parse_short_octal(field: &[u8]) -> (r: Result<u32, core::num::ParseIntError>)
    requires
        field@.len() == 8,
    ensures
        r is Ok <==> octal_field(field@) is Some,
        r matches Ok(n) ==> octal_field(field@) == Some(n as int),
{
    match parse_octal(field) {
        Ok(v) => {
            proof {
                lemma_octal_field_bound(field@);
                lemma_pow8_values();
            }
            Ok(v as u32)
        },
        Err(e) => {
            proof {
                if octal_field(field@) is Some {
                    lemma_octal_field_bound(field@);
                    lemma_pow8_values();
                }
            }
            Err(e)
        },
    }
}

impl TarHeader {
    /// Check the header checksum of a block.
    ///
    /// Both the unsigned and the signed sum of the block are tried, and
    /// either is accepted. A checksum field that does not parse fails.
    pub fn validate_checksum(block: &TarBlock) -> (r: bool)
        ensures
            r == checksum_valid(block@),
    {
        let checksum: i32 = match parse_signed_octal(&block[CHECKSUM_START..CHECKSUM_END]) {
            Ok(n) => n,
            Err(_) => {
                proof {
                    let f = field(block@, CHECKSUM_START, CHECKSUM_END);
                    if signed_octal_field(f) is Some {
                        lemma_signed_octal_field_bound(f);
                        lemma_pow8_values();
                    }
                }
                return false;
            },
        };
        if checksum == compute_checksum(block) {
            true
        } else {
            // Some writers sum the bytes as signed, so try that as well.
            checksum == compute_signed_checksum(block)
        }
    }

    /// Decode the fields of a header block, without checking its checksum.
    ///
    /// Fails with `EmptyName` when the name field holds no name, and with
    /// `ParseError` when a numeric field is not valid octal.
    pub fn from_v7_header(block: &TarBlock) -> (r: Result<TarHeader, TarError>)
        ensures
            r is Ok <==> header_decodes(block@),
            r matches Ok(h) ==> decodes_to(block@, h),
            r matches Err(e) ==> (e is EmptyName <==> !has_name(block@)),
            r matches Err(e) ==> (e is EmptyName || e is ParseError),
    {
        let name = match trimmed_osstr(&block[NAME_START..NAME_END]) {
            Some(n) => vstd::slice::slice_to_vec(n),
            None => {
                return Err(TarError::EmptyName);
            },
        };
        let mode: u32 = match parse_short_octal(&block[MODE_START..MODE_END]) {
            Ok(v) => v,
            Err(e) => {
                return Err(TarError::ParseError(e));
            },
        };
        let owner: u32 = match parse_short_octal(&block[OWNER_START..OWNER_END]) {
            Ok(v) => v,
            Err(e) => {
                return Err(TarError::ParseError(e));
            },
        };
        let group: u32 = match parse_short_octal(&block[GROUP_START..GROUP_END]) {
            Ok(v) => v,
            Err(e) => {
                return Err(TarError::ParseError(e));
            },
        };
        let size: usize = match parse_size(&block[SIZE_START..SIZE_END]) {
            Ok(v) => v,
            Err(e) => {
                return Err(TarError::ParseError(e));
            },
        };
        let mtime: u64 = match parse_octal(&block[MTIME_START..MTIME_END]) {
            Ok(v) => v,
            Err(e) => {
                proof {
                    let f = field(block@, MTIME_START, MTIME_END);
                    if octal_field(f) is Some {
                        lemma_octal_field_bound(f);
                        lemma_pow8_values();
                    }
                }
                return Err(TarError::ParseError(e));
            },
        };
        let link_name = match trimmed_osstr(&block[LINK_NAME_START..LINK_NAME_END]) {
            Some(n) => Some(vstd::slice::slice_to_vec(n)),
            None => None,
        };
        Ok(
            TarHeader {
                name,
                mode,
                owner,
                group,
                size,
                mtime,
                link: LinkType::from(block[LINK_TYPE_OFFSET]),
                link_name,
            },
        )
    }

    /// Decode a header block after checking its checksum.
    ///
    /// Fails with `CheckSum` when the checksum does not match, and
    /// otherwise as `from_v7_header` does.
    pub fn from_block(block: &TarBlock) -> (r: Result<TarHeader, TarError>)
        ensures
            r is Ok <==> checksum_valid(block@) && header_decodes(block@),
            r matches Ok(h) ==> decodes_to(block@, h),
            r matches Err(e) ==> decode_failure(block@, e),
    {
        if !Self::validate_checksum(block) {
            Err(TarError::CheckSum)
        } else {
            Self::from_v7_header(block)
        }
    }

    /// Number of whole blocks that the payload of this entry takes up.
    pub fn block_size(&self) -> (r: usize)
        ensures
            r == block_span(self.size as int),
    {
        let size: usize = self.size / BLOCK_SIZE;
        if self.size % BLOCK_SIZE != 0 {
            size + 1
        } else {
            size
        }
    }
}

/// True when `f` holds the octal digits of `n` as ASCII text, ended by NUL.
pub open spec fn holds_octal(f: Seq<u8>, n: nat) -> bool {
    let d = octal_ascii(n);
    &&& d.len() < f.len()
    &&& f.subrange(0, d.len() as int) == d
    &&& f[d.len() as int] == 0
}

/// A block whose checksum field holds its own checksum (the sum of its
/// bytes with that field read as eight spaces), written in octal and ended
/// by NUL, passes the checksum check.
pub proof fn lemma_stored_checksum_validates(block: Seq<u8>)
    requires
        block.len() == BLOCK_SIZE,
        holds_octal(field(block, CHECKSUM_START, CHECKSUM_END), checksum_of(block) as nat),
    ensures
        checksum_valid(block),
{
    lemma_byte_sum_nonnegative(masked(block));
    lemma_octal_field_of_digits(
        field(block, CHECKSUM_START, CHECKSUM_END),
        checksum_of(block) as nat,
    );
}

/// Decoding depends on the bytes of a block alone: blocks with the same
/// bytes either both decode or both fail, and two headers decoded from
/// them agree on every field.
pub proof fn lemma_decode_deterministic(a: Seq<u8>, b: Seq<u8>, ha: TarHeader, hb: TarHeader)
    requires
        a == b,
        decodes_to(a, ha),
        decodes_to(b, hb),
    ensures
        header_decodes(a) == header_decodes(b),
        checksum_valid(a) == checksum_valid(b),
        ha.name@ == hb.name@,
        ha.mode == hb.mode,
        ha.owner == hb.owner,
        ha.group == hb.group,
        ha.size == hb.size,
        ha.mtime == hb.mtime,
        ha.link == hb.link,
        bytes_view(ha.link_name) == bytes_view(hb.link_name),
{
}

/// Decoding fails the same way on blocks with the same bytes: the errors
/// reported for them are of one kind.
pub proof fn lemma_decode_failure_deterministic(a: Seq<u8>, b: Seq<u8>, ea: TarError, eb: TarError)
    requires
        a == b,
        !(checksum_valid(a) && header_decodes(a)),
        decode_failure(a, ea),
        decode_failure(b, eb),
    ensures
        same_kind(&ea, &eb),
{
}

} // verus!
