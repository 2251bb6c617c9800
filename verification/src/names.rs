//! The reserved-name policy: some identifiers (the device names `CON`,
//! `PRN`, `AUX`, `NUL`, `COM0`-`COM9`, `LPT0`-`LPT9`, in any ASCII case)
//! are illegal or problematic as bare file stems on some platforms, so a
//! module of such a name gets a trailing underscore in its on-disk form.
//!
//! Names and paths are handled as byte strings throughout the crate: a
//! filesystem path is a sequence of bytes, and the policy itself only
//! compares ASCII letters and digits.

use vstd::prelude::*;

verus! {

/// ASCII `A`.
pub const UC_A: u8 = 65;

/// ASCII `C`.
pub const UC_C: u8 = 67;

/// ASCII `L`.
pub const UC_L: u8 = 76;

/// ASCII `M`.
pub const UC_M: u8 = 77;

/// ASCII `N`.
pub const UC_N: u8 = 78;

/// ASCII `O`.
pub const UC_O: u8 = 79;

/// ASCII `P`.
pub const UC_P: u8 = 80;

/// ASCII `R`.
pub const UC_R: u8 = 82;

/// ASCII `T`.
pub const UC_T: u8 = 84;

/// ASCII `U`.
pub const UC_U: u8 = 85;

/// ASCII `X`.
pub const UC_X: u8 = 88;

/// ASCII `a`.
pub const LC_A: u8 = 97;

/// ASCII `z`.
pub const LC_Z: u8 = 122;

/// ASCII `0`.
pub const DIGIT_0: u8 = 48;

/// ASCII `9`.
pub const DIGIT_9: u8 = 57;

/// ASCII `_`.
pub const UNDERSCORE: u8 = 95;

/// The distance between an ASCII lower-case letter and its upper-case form.
pub const CASE_GAP: u8 = 32;

/// The ASCII upper-case form of one byte; bytes outside `a`-`z` are kept.
pub open spec fn spec_upper(b: u8) -> u8 {
    if LC_A <= b && b <= LC_Z {
        (b - CASE_GAP) as u8
    } else {
        b
    }
}

/// A name's ASCII upper-case form, byte for byte.
pub open spec fn spec_upper_name(name: Seq<u8>) -> Seq<u8> {
    name.map_values(|b: u8| spec_upper(b))
}

/// The first three bytes of `u` read `a`, `b`, `c`.
pub open spec fn spec_leads(u: Seq<u8>, a: u8, b: u8, c: u8) -> bool {
    u[0] == a && u[1] == b && u[2] == c
}

/// The byte is an ASCII decimal digit.
pub open spec fn spec_is_digit(b: u8) -> bool {
    DIGIT_0 <= b && b <= DIGIT_9
}

/// Whether a module name is reserved as a bare file stem: equal, without
/// regard to ASCII case, to `CON`, `PRN`, `AUX`, `NUL`, or to `COM` or
/// `LPT` followed by one decimal digit.
pub open spec fn spec_is_reserved(name: Seq<u8>) -> bool {
    let u = spec_upper_name(name);
    ||| (u.len() == 3 && (spec_leads(u, UC_C, UC_O, UC_N) || spec_leads(u, UC_P, UC_R, UC_N)
        || spec_leads(u, UC_A, UC_U, UC_X) || spec_leads(u, UC_N, UC_U, UC_L)))
    ||| (u.len() == 4 && (spec_leads(u, UC_C, UC_O, UC_M) || spec_leads(u, UC_L, UC_P, UC_T))
        && spec_is_digit(u[3]))
}

/// The on-disk form of a module name: the name itself, or the name with a
/// trailing underscore when it is reserved.
pub open spec fn spec_fs_name(name: Seq<u8>) -> Seq<u8> {
    if spec_is_reserved(name) {
        name.push(UNDERSCORE)
    } else {
        name
    }
}

/// The ASCII upper-case form of one byte.
pub fn upper_byte(b: u8) -> (r: u8)
    ensures
        r == spec_upper(b),
{
    if b >= LC_A && b <= LC_Z {
        b - CASE_GAP
    } else {
        b
    }
}

/// Whether the name is in the reserved table, compared case-insensitively.
pub fn is_name_reserved(name: &Vec<u8>) -> (r: bool)
    ensures
        r == spec_is_reserved(name@),
{
    let ghost u = spec_upper_name(name@);
    proof {
        assert(u.len() == name@.len());
        assert(forall|i: int| 0 <= i < name@.len() ==> u[i] == spec_upper(#[trigger] name@[i]));
    }
    if name.len() == 3 {
        let a = upper_byte(name[0]);
        let b = upper_byte(name[1]);
        let c = upper_byte(name[2]);
        (a == UC_C && b == UC_O && c == UC_N) || (a == UC_P && b == UC_R && c == UC_N)
            || (a == UC_A && b == UC_U && c == UC_X) || (a == UC_N && b == UC_U && c == UC_L)
    } else if name.len() == 4 {
        let a = upper_byte(name[0]);
        let b = upper_byte(name[1]);
        let c = upper_byte(name[2]);
        let d = name[3];
        proof {
            assert(spec_is_digit(u[3]) == spec_is_digit(name@[3]));
        }
        (a == UC_C && b == UC_O && c == UC_M || a == UC_L && b == UC_P && c == UC_T)
            && d >= DIGIT_0 && d <= DIGIT_9
    } else {
        false
    }
}

/// A fresh copy of a byte string.
pub fn copy_bytes(v: &Vec<u8>) -> (r: Vec<u8>)
    ensures
        r@ == v@,
{
    let mut out: Vec<u8> = Vec::new();
    let mut i: usize = 0;
    while i < v.len()
        invariant
            0 <= i <= v.len(),
            out@ == v@.take(i as int),
        decreases v.len() - i,
    {
        out.push(v[i]);
        proof {
            assert(out@ =~= v@.take(i + 1 as int));
        }
        i = i + 1;
    }
    proof {
        assert(v@.take(v@.len() as int) =~= v@);
    }
    out
}

/// The reserved name's on-disk form: the name with a trailing underscore.
pub fn xform_reserved_name(name: &Vec<u8>) -> (r: Vec<u8>)
    ensures
        r@ == name@.push(UNDERSCORE),
{
    let mut out = copy_bytes(name);
    out.push(UNDERSCORE);
    out
}

/// The on-disk form of any module name (see `spec_fs_name`).
pub fn fs_name_of(name: &Vec<u8>) -> (r: Vec<u8>)
    ensures
        r@ == spec_fs_name(name@),
{
    if is_name_reserved(name) {
        xform_reserved_name(name)
    } else {
        copy_bytes(name)
    }
}

} // verus!
