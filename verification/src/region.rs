//! Parsing of one textual memory-map record into a structured region
//! descriptor: address range, permission flags, and file backing.
//!
//! The record format is one line per mapped region, fields separated by
//! single spaces: `start-end perms offset device inode [pathname]`, with
//! addresses and offset in hexadecimal and the inode in decimal.  A line with
//! fewer than five fields is malformed; a missing pathname field is valid and
//! yields an empty pathname.

use crate::Error;
use vstd::prelude::*;
use vstd::string::StrSliceExecFns;

verus! {

/// Region is readable.
pub const READ_PERM: u8 = 1 << 0;

/// Region is writable.
pub const WRITE_PERM: u8 = 1 << 1;

/// Region is executable.
pub const EXEC_PERM: u8 = 1 << 2;

/// Region is a private copy-on-write mapping.
pub const SHARE_PERM: u8 = 1 << 3;

/// A permission bit set over the flags above.
#[derive(Clone, Copy, Debug, PartialEq, Eq, Structural)]
pub struct Perm(pub u8);

/// Immutable snapshot of one mapped memory interval of a process, as one line
/// of its memory-map description records it.
#[derive(Debug)]
pub struct Region {
    /// First address of the interval; the interval is half-open.
    pub start_address: usize,
    /// First address past the interval.
    pub end_address: usize,
    /// Permission flags granted to the mapping.
    pub perms: u8,
    /// Byte offset into the backing file; meaningful only with a pathname.
    pub offset: usize,
    /// Backing device identifier, copied verbatim.
    pub device: String,
    /// Backing file inode number; zero for anonymous mappings.
    pub inode: usize,
    /// Backing path, a bracketed pseudo-name, or empty for anonymous mappings.
    pub pathname: String,
}

/// The mathematical value of a [`Region`].
#[verifier::ext_equal]
pub ghost struct RegionView {
    pub start_address: usize,
    pub end_address: usize,
    pub perms: u8,
    pub offset: usize,
    pub device: Seq<char>,
    pub inode: usize,
    pub pathname: Seq<char>,
}

impl Clone for Region {
    /// A clone carries the same region value.
    fn clone(&self) -> (r: Self)
        ensures
            r@ == self@,
    {
        Region {
            start_address: self.start_address,
            end_address: self.end_address,
            perms: self.perms,
            offset: self.offset,
            device: self.device.clone(),
            inode: self.inode,
            pathname: self.pathname.clone(),
        }
    }
}

/// The mathematical values of a region list.
pub open spec fn region_views(rs: Seq<Region>) -> Seq<RegionView> {
    rs.map_values(|r: Region| r@)
}

impl View for Region {
    type V = RegionView;

    open spec fn view(&self) -> RegionView {
        RegionView {
            start_address: self.start_address,
            end_address: self.end_address,
            perms: self.perms,
            offset: self.offset,
            device: self.device@,
            inode: self.inode,
            pathname: self.pathname@,
        }
    }
}

/// The fields of `s` split on every single occurrence of `sep`: consecutive
/// separators yield empty fields, and the split of an empty text is one empty
/// field.
pub open spec fn spec_split(s: Seq<char>, sep: char) -> Seq<Seq<char>>
    decreases s.len(),
{
    if s.len() == 0 {
        seq![Seq::<char>::empty()]
    } else if s[0] == sep {
        seq![Seq::<char>::empty()] + spec_split(s.skip(1), sep)
    } else {
        let rest = spec_split(s.skip(1), sep);
        seq![seq![s[0]] + rest[0]] + rest.skip(1)
    }
}

/// A split always has at least one field.
pub proof fn lemma_split_len(s: Seq<char>, sep: char)
    ensures
        spec_split(s, sep).len() >= 1,
    decreases s.len(),
{
    if s.len() > 0 && s[0] != sep {
        lemma_split_len(s.skip(1), sep);
    }
}

/// How a split decomposes at the first separator: if no separator occurs
/// before position `i`, the first field is everything before `i`, and when
/// `i` is a separator position the remaining fields are the split of what
/// follows it.
proof fn lemma_split_first_token(s: Seq<char>, sep: char, i: int)
    requires
        0 <= i <= s.len(),
        forall|j: int| 0 <= j < i ==> s[j] != sep,
        i == s.len() || s[i] == sep,
    ensures
        i == s.len() ==> spec_split(s, sep) == seq![s],
        i < s.len() ==> spec_split(s, sep) == seq![s.take(i)] + spec_split(s.skip(i + 1), sep),
    decreases i,
{
    lemma_split_len(s.skip(1), sep);
    if i == 0 {
        if s.len() == 0 {
            assert(s =~= Seq::<char>::empty());
            assert(spec_split(s, sep) =~= seq![s]);
        } else {
            assert(s[0] == sep);
            assert(s.take(0) =~= Seq::<char>::empty());
            assert(spec_split(s, sep) =~= seq![s.take(0)] + spec_split(s.skip(1), sep));
        }
    } else {
        let t = s.skip(1);
        assert(forall|j: int| 0 <= j < i - 1 ==> t[j] == s[j + 1] && t[j] != sep);
        lemma_split_first_token(t, sep, i - 1);
        let rest = spec_split(t, sep);
        if i == s.len() {
            assert(rest == seq![t]);
            assert(seq![s[0]] + rest[0] =~= s);
            assert(rest.skip(1) =~= Seq::<Seq<char>>::empty());
            assert(spec_split(s, sep) =~= seq![s]);
        } else {
            assert(rest == seq![t.take(i - 1)] + spec_split(t.skip(i), sep));
            assert(seq![s[0]] + rest[0] =~= s.take(i));
            assert(t.skip(i) =~= s.skip(i + 1));
            assert(rest.skip(1) =~= spec_split(s.skip(i + 1), sep));
            assert(spec_split(s, sep) =~= seq![s.take(i)] + spec_split(s.skip(i + 1), sep));
        }
    }
}

/// Split `s` on every single occurrence of `sep`.
fn split_on(s: &str, sep: char) -> (fields: Vec<String>)
    ensures
        fields@.map_values(|f: String| f@) == spec_split(s@, sep),
{
    let n = s.unicode_len();
    let mut fields: Vec<String> = Vec::new();
    let mut start: usize = 0;
    let mut i: usize = 0;
    proof {
        assert(s@.skip(0) =~= s@);
        assert(fields@.map_values(|f: String| f@) =~= Seq::<Seq<char>>::empty());
        assert(fields@.map_values(|f: String| f@) + spec_split(s@, sep) =~= spec_split(s@, sep));
    }
    while i < n
        invariant
            n == s@.len(),
            start <= i <= n,
            forall|j: int| start <= j < i ==> s@[j] != sep,
            spec_split(s@, sep) == fields@.map_values(|f: String| f@) + spec_split(
                s@.skip(start as int),
                sep,
            ),
        decreases n - i,
    {
        let c = s.get_char(i);
        if c == sep {
            let tok = s.substring_char(start, i).to_owned();
            proof {
                let sub = s@.skip(start as int);
                lemma_split_first_token(sub, sep, i - start);
                assert(sub.take(i - start) =~= s@.subrange(start as int, i as int));
                assert(sub.skip(i - start + 1) =~= s@.skip(i + 1));
                assert(fields@.push(tok).map_values(|f: String| f@) =~= fields@.map_values(
                    |f: String| f@,
                ).push(tok@));
                assert(fields@.map_values(|f: String| f@) + (seq![tok@] + spec_split(
                    s@.skip(i + 1),
                    sep,
                )) =~= fields@.map_values(|f: String| f@).push(tok@) + spec_split(
                    s@.skip(i + 1),
                    sep,
                ));
            }
            fields.push(tok);
            start = i + 1;
        }
        i = i + 1;
    }
    let tok = s.substring_char(start, n).to_owned();
    proof {
        let sub = s@.skip(start as int);
        lemma_split_first_token(sub, sep, n - start);
        assert(sub =~= s@.subrange(start as int, n as int));
        assert(fields@.push(tok).map_values(|f: String| f@) =~= fields@.map_values(
            |f: String| f@,
        ).push(tok@));
        assert(fields@.map_values(|f: String| f@) + seq![tok@] =~= fields@.map_values(
            |f: String| f@,
        ).push(tok@));
    }
    fields.push(tok);
    fields
}

/// The numeric value of one digit, or nothing where the character is no digit
/// of the radix.
pub open spec fn spec_digit_val(c: char, radix: nat) -> Option<nat> {
    let v = c as u32;
    if 48 <= v <= 57 && (v - 48) < radix {
        Some((v - 48) as nat)
    } else if radix == 16 && 97 <= v <= 102 {
        Some((v - 87) as nat)
    } else if radix == 16 && 65 <= v <= 70 {
        Some((v - 55) as nat)
    } else {
        None
    }
}

/// The unsigned value of a digit string in the given radix, or nothing where
/// the string is empty or holds a character that is no digit of the radix.
pub open spec fn spec_parse_uint(s: Seq<char>, radix: nat) -> Option<nat>
    decreases s.len(),
{
    if s.len() == 0 {
        None
    } else if s.len() == 1 {
        spec_digit_val(s[0], radix)
    } else {
        match (spec_parse_uint(s.drop_last(), radix), spec_digit_val(s.last(), radix)) {
            (Some(v), Some(d)) => Some(v * radix + d),
            _ => None,
        }
    }
}

/// A digit string with an invalid digit anywhere has no value.
proof fn lemma_parse_uint_bad_digit(s: Seq<char>, radix: nat, i: int)
    requires
        0 <= i < s.len(),
        spec_digit_val(s[i], radix) is None,
    ensures
        spec_parse_uint(s, radix) is None,
    decreases s.len(),
{
    if s.len() > 1 && i < s.len() - 1 {
        lemma_parse_uint_bad_digit(s.drop_last(), radix, i);
    }
}

/// Extending a digit string never shrinks its value.
proof fn lemma_parse_uint_extend(s: Seq<char>, radix: nat, i: int, v: nat)
    requires
        1 <= i <= s.len(),
        radix >= 1,
        spec_parse_uint(s.take(i), radix) == Some(v),
    ensures
        spec_parse_uint(s, radix) is None || (spec_parse_uint(s, radix) matches Some(w) && w
            >= v),
    decreases s.len(),
{
    if i == s.len() {
        assert(s.take(i) =~= s);
    } else {
        assert(s.drop_last().take(i) =~= s.take(i));
        lemma_parse_uint_extend(s.drop_last(), radix, i, v);
        if spec_parse_uint(s.drop_last(), radix) is Some && spec_digit_val(s.last(), radix)
            is Some {
            let w = spec_parse_uint(s.drop_last(), radix)->Some_0;
            let d = spec_digit_val(s.last(), radix)->Some_0;
            assert(w * radix + d >= w) by (nonlinear_arith)
                requires radix >= 1,
            ;
        }
    }
}

/// The value of one digit character, or nothing.
fn digit_val(c: char, radix: u32) -> (r: Option<u32>)
    ensures
        match r {
            Some(d) => spec_digit_val(c, radix as nat) == Some(d as nat) && d < radix,
            None => spec_digit_val(c, radix as nat) is None,
        },
{
    let v = c as u32;
    if 48 <= v && v <= 57 && v - 48 < radix {
        Some(v - 48)
    } else if radix == 16 && 97 <= v && v <= 102 {
        Some(v - 87)
    } else if radix == 16 && 65 <= v && v <= 70 {
        Some(v - 55)
    } else {
        None
    }
}

/// Parse an unsigned integer in the given radix.  The parse succeeds exactly
/// on non-empty all-digit strings whose value fits a `usize`.
pub fn parse_uint(s: &str, radix: u32) -> (r: Result<usize, Error>)
    requires
        radix == 10 || radix == 16,
    ensures
        match r {
            Ok(v) => spec_parse_uint(s@, radix as nat) == Some(v as nat),
            Err(e) => e == Error::ParseError && match spec_parse_uint(s@, radix as nat) {
                Some(v) => v > usize::MAX,
                None => true,
            },
        },
{
    let n = s.unicode_len();
    if n == 0 {
        return Err(Error::ParseError);
    }
    let mut acc: usize = 0;
    let mut i: usize = 0;
    while i < n
        invariant
            n == s@.len(),
            i <= n,
            radix == 10 || radix == 16,
            i > 0 ==> spec_parse_uint(s@.take(i as int), radix as nat) == Some(acc as nat),
            i == 0 ==> acc == 0,
        decreases n - i,
    {
        let c = s.get_char(i);
        let d = match digit_val(c, radix) {
            Some(d) => d,
            None => {
                proof {
                    lemma_parse_uint_bad_digit(s@, radix as nat, i as int);
                }
                return Err(Error::ParseError);
            },
        };
        let ghost val: nat = ((acc as nat) * (radix as nat) + d) as nat;
        proof {
            assert(s@.take(i + 1).last() == s@[i as int]);
            if i == 0 {
                assert(s@.take(1).len() == 1);
                assert(val == d) by (nonlinear_arith)
                    requires val == 0 * (radix as nat) + d,
                ;
            } else {
                assert(s@.take(i + 1).drop_last() =~= s@.take(i as int));
            }
            assert(spec_parse_uint(s@.take(i + 1), radix as nat) == Some(val));
        }
        let next = match acc.checked_mul(radix as usize) {
            Some(m) => m.checked_add(d as usize),
            None => None,
        };
        match next {
            Some(nv) => {
                acc = nv;
            },
            None => {
                proof {
                    lemma_parse_uint_extend(s@, radix as nat, i + 1, val);
                }
                return Err(Error::ParseError);
            },
        }
        i = i + 1;
    }
    assert(s@.take(n as int) =~= s@);
    Ok(acc)
}

/// The permission flag one character of the permission field grants.
pub open spec fn spec_flag_of(c: char) -> u8 {
    if c == 'r' {
        READ_PERM
    } else if c == 'w' {
        WRITE_PERM
    } else if c == 'x' {
        EXEC_PERM
    } else if c == 'p' {
        SHARE_PERM
    } else {
        0
    }
}

/// The flag set a permission field denotes: each character contributes its
/// flag independently, and unrecognized characters contribute no flag.
pub open spec fn spec_perms_of(s: Seq<char>) -> u8
    decreases s.len(),
{
    if s.len() == 0 {
        0
    } else {
        spec_perms_of(s.drop_last()) | spec_flag_of(s.last())
    }
}

/// Fold a permission field into its flag set.
fn parse_perms(s: &str) -> (p: u8)
    ensures
        p == spec_perms_of(s@),
{
    let n = s.unicode_len();
    let mut p: u8 = 0;
    let mut i: usize = 0;
    while i < n
        invariant
            n == s@.len(),
            i <= n,
            p == spec_perms_of(s@.take(i as int)),
        decreases n - i,
    {
        let c = s.get_char(i);
        let flag: u8 = if c == 'r' {
            READ_PERM
        } else if c == 'w' {
            WRITE_PERM
        } else if c == 'x' {
            EXEC_PERM
        } else if c == 'p' {
            SHARE_PERM
        } else {
            0
        };
        proof {
            assert(s@.take(i + 1).drop_last() =~= s@.take(i as int));
            assert(s@.take(i + 1).last() == s@[i as int]);
        }
        p = p | flag;
        i = i + 1;
    }
    assert(s@.take(n as int) =~= s@);
    p
}

/// The region a memory-map line describes, or nothing where the line is
/// malformed: fewer than five fields, an address range that is not two
/// hexadecimal numbers joined by `-`, or a numeric field that is no valid
/// number of its radix or does not fit a `usize`.  Addresses and offset are
/// hexadecimal, the inode is decimal, the device field is copied verbatim,
/// and the pathname is the last field when a sixth is present, else empty.
pub open spec fn spec_parse_region(line: Seq<char>) -> Option<RegionView> {
    let fields = spec_split(line, ' ');
    if fields.len() < 5 {
        None
    } else {
        let addrs = spec_split(fields[0], '-');
        if addrs.len() != 2 {
            None
        } else {
            match (
                spec_parse_uint(addrs[0], 16),
                spec_parse_uint(addrs[1], 16),
                spec_parse_uint(fields[2], 16),
                spec_parse_uint(fields[4], 10),
            ) {
                (Some(start), Some(end), Some(offset), Some(inode)) => {
                    if start <= usize::MAX && end <= usize::MAX && offset <= usize::MAX && inode
                        <= usize::MAX {
                        Some(
                            RegionView {
                                start_address: start as usize,
                                end_address: end as usize,
                                perms: spec_perms_of(fields[1]),
                                offset: offset as usize,
                                device: fields[3],
                                inode: inode as usize,
                                pathname: if fields.len() >= 6 {
                                    fields.last()
                                } else {
                                    Seq::empty()
                                },
                            },
                        )
                    } else {
                        None
                    }
                },
                _ => None,
            }
        }
    }
}

impl Region {
    /// Parse one line of a memory-map description into a region.  Succeeds
    /// exactly on the lines [`spec_parse_region`] gives a value, and returns
    /// that value.
    pub fn from_string(line: &str) -> (r: Result<Region, Error>)
        ensures
            match r {
                Ok(region) => spec_parse_region(line@) == Some(region@),
                Err(e) => spec_parse_region(line@) is None && e == Error::ParseError,
            },
    {
        let fields = split_on(line, ' ');
        let ghost fs = spec_split(line@, ' ');
        assert(fields@.len() == fs.len());
        if fields.len() < 5 {
            return Err(Error::ParseError);
        }
        let addrs = split_on(fields[0].as_str(), '-');
        let ghost adrs = spec_split(fs[0], '-');
        assert(addrs@.len() == adrs.len());
        if addrs.len() != 2 {
            return Err(Error::ParseError);
        }
        let start_address = match parse_uint(addrs[0].as_str(), 16) {
            Ok(v) => v,
            Err(_) => {
                return Err(Error::ParseError);
            },
        };
        let end_address = match parse_uint(addrs[1].as_str(), 16) {
            Ok(v) => v,
            Err(_) => {
                return Err(Error::ParseError);
            },
        };
        let perms = parse_perms(fields[1].as_str());
        let offset = match parse_uint(fields[2].as_str(), 16) {
            Ok(v) => v,
            Err(_) => {
                return Err(Error::ParseError);
            },
        };
        let device = fields[3].clone();
        let inode = match parse_uint(fields[4].as_str(), 10) {
            Ok(v) => v,
            Err(_) => {
                return Err(Error::ParseError);
            },
        };
        let pathname = if fields.len() >= 6 {
            fields[fields.len() - 1].clone()
        } else {
            String::new()
        };
        Ok(
            Region {
                start_address,
                end_address,
                perms,
                offset,
                device,
                inode,
                pathname,
            },
        )
    }
}

/// Parsing is a pure function of the line: two parses of equal lines yield
/// equal results, so re-parsing a line the parser accepted reproduces the
/// same region value.
pub proof fn lemma_parse_deterministic(l1: Seq<char>, l2: Seq<char>)
    requires
        l1 == l2,
    ensures
        spec_parse_region(l1) == spec_parse_region(l2),
{
}

} // verus!
