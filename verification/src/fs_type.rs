//! The closed enumeration of supported in-memory filesystem kinds, with
//! case-insensitive parsing from a configuration string and the mapping to
//! the literal filesystem-type name that the OS mount primitive expects.

use vstd::prelude::*;
use vstd::string::StrSliceExecFns;

use crate::error::RamdiskError;

verus! {

/// A supported in-memory filesystem kind.
#[derive(Copy, Clone, Debug, PartialEq, Eq, Structural)]
pub enum MountType {
    Tmpfs,
    Ramfs,
}

/// The character code of `c` with an ASCII capital letter folded to its
/// small form; every other character is left as it is.
pub open spec fn lower_char(c: char) -> int {
    if 65 <= c as u32 && c as u32 <= 90 {
        c as u32 + 32
    } else {
        c as u32 as int
    }
}

/// Two character sequences are equal up to ASCII letter case.
pub open spec fn eq_ignore_ascii_case(a: Seq<char>, b: Seq<char>) -> bool {
    a.len() == b.len() && (forall|i: int| 0 <= i < a.len() ==> lower_char(a[i]) == lower_char(b[i]))
}

/// The character code of `c`, folded as `lower_char` says.
fn lower_code(c: char) -> (r: u32)
    ensures
        r == lower_char(c),
{
    let u = c as u32;
    if 65 <= u && u <= 90 {
        u + 32
    } else {
        u
    }
}

/// Whether `a` and `b` hold the same characters up to ASCII letter case.
fn str_eq_ignore_ascii_case(a: &str, b: &str) -> (r: bool)
    ensures
        r == eq_ignore_ascii_case(a@, b@),
{
    let an = a.unicode_len();
    let bn = b.unicode_len();
    if an != bn {
        return false;
    }
    let mut i: usize = 0;
    while i < an
        invariant
            an == a@.len(),
            an == b@.len(),
            i <= an,
            forall|j: int| 0 <= j < i ==> lower_char(a@[j]) == lower_char(b@[j]),
        decreases an - i,
    {
        let ca = a.get_char(i);
        let cb = b.get_char(i);
        if lower_code(ca) != lower_code(cb) {
            assert(!eq_ignore_ascii_case(a@, b@));
            return false;
        }
        i += 1;
    }
    true
}

impl MountType {
    /// Parses a filesystem-kind string: a case-insensitive match against
    /// `tmpfs` and `ramfs`. Any other string is rejected with
    /// `InvalidFsType` carrying the rejected string.
    pub fn from_str(s: &str) -> (r: Result<MountType, RamdiskError>)
        ensures
            r == Ok::<MountType, RamdiskError>(MountType::Tmpfs) <==> eq_ignore_ascii_case(
                s@,
                "tmpfs"@,
            ),
            r == Ok::<MountType, RamdiskError>(MountType::Ramfs) <==> eq_ignore_ascii_case(
                s@,
                "ramfs"@,
            ),
            r is Err <==> (!eq_ignore_ascii_case(s@, "tmpfs"@) && !eq_ignore_ascii_case(
                s@,
                "ramfs"@,
            )),
            r matches Err(e) ==> (e matches RamdiskError::InvalidFsType(t) && t@ == s@),
    {
        proof {
            reveal_strlit("tmpfs");
            reveal_strlit("ramfs");
        }
        if str_eq_ignore_ascii_case(s, "tmpfs") {
            proof {
                if eq_ignore_ascii_case(s@, "ramfs"@) {
                    assert(lower_char(s@[0]) == lower_char("tmpfs"@[0]));
                    assert(lower_char(s@[0]) == lower_char("ramfs"@[0]));
                }
            }
            Ok(MountType::Tmpfs)
        } else if str_eq_ignore_ascii_case(s, "ramfs") {
            Ok(MountType::Ramfs)
        } else {
            Err(RamdiskError::InvalidFsType(s.to_owned()))
        }
    }

    /// The literal filesystem-type name handed to the OS mount primitive.
    pub fn to_system_name(self) -> (r: &'static str)
        ensures
            r@ == spec_system_name(self),
    {
        match self {
            MountType::Tmpfs => "tmpfs",
            MountType::Ramfs => "ramfs",
        }
    }

    /// The bytes of the filesystem-type name, as they appear in the fields
    /// of a mount-table line.
    pub fn system_name_bytes(self) -> (r: Vec<u8>)
        ensures
            r@ == spec_system_name_bytes(self),
    {
        let mut v: Vec<u8> = Vec::new();
        match self {
            MountType::Tmpfs => {
                v.push(116);
                v.push(109);
                v.push(112);
                v.push(102);
                v.push(115);
            },
            MountType::Ramfs => {
                v.push(114);
                v.push(97);
                v.push(109);
                v.push(102);
                v.push(115);
            },
        }
        assert(v@ =~= spec_system_name_bytes(self));
        v
    }
}

/// The name of the filesystem kind as a character sequence.
pub open spec fn spec_system_name(t: MountType) -> Seq<char> {
    match t {
        MountType::Tmpfs => "tmpfs"@,
        MountType::Ramfs => "ramfs"@,
    }
}

/// The name of the filesystem kind as the bytes of a mount-table field.
pub open spec fn spec_system_name_bytes(t: MountType) -> Seq<u8> {
    match t {
        MountType::Tmpfs => seq![116u8, 109u8, 112u8, 102u8, 115u8],
        MountType::Ramfs => seq![114u8, 97u8, 109u8, 102u8, 115u8],
    }
}

} // verus!
