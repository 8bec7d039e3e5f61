use vstd::prelude::*;

use crate::codec::{dec_rep, push_lit, push_number, string_of};

verus! {

/// Why a pid could not be resolved to an executable path.
#[derive(Debug, Clone, Copy, PartialEq, Eq, Structural)]
pub enum UtilError {
    OpFailed,
}

/// The lower-case hexadecimal digit with a given value.
pub open spec fn hex_digit(d: nat) -> char {
    if d == 0 {
        '0'
    } else if d == 1 {
        '1'
    } else if d == 2 {
        '2'
    } else if d == 3 {
        '3'
    } else if d == 4 {
        '4'
    } else if d == 5 {
        '5'
    } else if d == 6 {
        '6'
    } else if d == 7 {
        '7'
    } else if d == 8 {
        '8'
    } else if d == 9 {
        '9'
    } else if d == 10 {
        'a'
    } else if d == 11 {
        'b'
    } else if d == 12 {
        'c'
    } else if d == 13 {
        'd'
    } else if d == 14 {
        'e'
    } else {
        'f'
    }
}

/// How one byte is written: `0x`, two hexadecimal digits, a comma and a
/// space.
pub open spec fn hex_byte(b: u8) -> Seq<char> {
    seq!['0', 'x', hex_digit(b as nat / 16), hex_digit(b as nat % 16), ',', ' ']
}

/// How a byte sequence is written, byte by byte.
pub open spec fn hex_rep(bs: Seq<u8>) -> Seq<char>
    decreases bs.len(),
{
    if bs.len() == 0 {
        Seq::empty()
    } else {
        hex_byte(bs[0]) + hex_rep(bs.drop_first())
    }
}

/// One more byte appends its own six characters.
proof fn lemma_hex_rep_push(bs: Seq<u8>, b: u8)
    ensures
        hex_rep(bs.push(b)) == hex_rep(bs) + hex_byte(b),
    decreases bs.len(),
{
    let t = bs.push(b);
    if bs.len() == 0 {
        assert(t[0] == b);
        assert(t.drop_first() =~= Seq::<u8>::empty());
        assert(hex_rep(t) == hex_byte(b) + hex_rep(Seq::<u8>::empty()));
        assert(hex_byte(b) + Seq::<char>::empty() =~= hex_byte(b));
        assert(Seq::<char>::empty() + hex_byte(b) =~= hex_byte(b));
        assert(hex_rep(bs) == Seq::<char>::empty());
    } else {
        assert(t[0] == bs[0]);
        assert(t.drop_first() =~= bs.drop_first().push(b));
        lemma_hex_rep_push(bs.drop_first(), b);
        assert(hex_byte(bs[0]) + (hex_rep(bs.drop_first()) + hex_byte(b)) =~= hex_rep(bs)
            + hex_byte(b));
    }
}

/// A borrowed byte slice, shown as a row of hexadecimal byte values.
pub struct HexSlice<'a>(pub &'a [u8]);

impl<'a> HexSlice<'a> {
    /// Wrap a byte slice.
    pub fn new(data: &'a [u8]) -> (r: HexSlice<'a>)
        ensures
            r.0@ == data@,
    {
        HexSlice(data)
    }

    /// The slice's bytes, written as `0x..` values separated by commas.
    pub fn to_hex_string(&self) -> (s: String)
        ensures
            s@ == hex_rep(self.0@),
    {
        let bs = self.0;
        let mut out: Vec<char> = Vec::new();
        let n = bs.len();
        for k in 0..n
            invariant
                n == bs@.len(),
                out@ == hex_rep(bs@.subrange(0, k as int)),
        {
            let b = bs[k];
            proof {
                assert(bs@.subrange(0, k + 1) =~= bs@.subrange(0, k as int).push(bs@[k as int]));
                lemma_hex_rep_push(bs@.subrange(0, k as int), bs@[k as int]);
            }
            out.push('0');
            out.push('x');
            out.push(hex_digit_char((b / 16) as usize));
            out.push(hex_digit_char((b % 16) as usize));
            out.push(',');
            out.push(' ');
            proof {
                assert(out@ =~= hex_rep(bs@.subrange(0, k + 1)));
            }
        }
        proof {
            assert(bs@.subrange(0, bs@.len() as int) =~= bs@);
        }
        string_of(&out)
    }
}

/// The lower-case hexadecimal digit with a given value, executable form.
fn hex_digit_char(d: usize) -> (c: char)
    requires
        d < 16,
    ensures
        c == hex_digit(d as nat),
{
    if d == 0 {
        '0'
    } else if d == 1 {
        '1'
    } else if d == 2 {
        '2'
    } else if d == 3 {
        '3'
    } else if d == 4 {
        '4'
    } else if d == 5 {
        '5'
    } else if d == 6 {
        '6'
    } else if d == 7 {
        '7'
    } else if d == 8 {
        '8'
    } else if d == 9 {
        '9'
    } else if d == 10 {
        'a'
    } else if d == 11 {
        'b'
    } else if d == 12 {
        'c'
    } else if d == 13 {
        'd'
    } else if d == 14 {
        'e'
    } else {
        'f'
    }
}

/// A signed number in decimal.
pub open spec fn int_rep(n: int) -> Seq<char> {
    if n >= 0 {
        dec_rep(n as nat)
    } else {
        seq!['-'] + dec_rep((-n) as nat)
    }
}

/// The pseudo-filesystem path under which a process's executable is linked.
pub open spec fn proc_path_rep(pid: int) -> Seq<char> {
    "/proc/"@ + int_rep(pid) + "/exe"@
}

/// The path whose link target names the executable of the process with the
/// given pid.  Resolving the link — and failing with [`UtilError::OpFailed`]
/// when the process is already gone — is the surrounding application's part.
pub fn proc_exe_path(pid: i32) -> (s: String)
    ensures
        s@ == proc_path_rep(pid as int),
{
    let mut out: Vec<char> = Vec::new();
    push_lit(&mut out, "/proc/");
    if pid >= 0 {
        push_number(&mut out, pid as usize);
    } else {
        out.push('-');
        let magnitude = -(pid as i64);
        push_number(&mut out, magnitude as usize);
        proof {
            assert(magnitude as usize as nat == (-(pid as int)) as nat);
        }
    }
    push_lit(&mut out, "/exe");
    proof {
        assert(out@ =~= proc_path_rep(pid as int));
    }
    string_of(&out)
}

} // verus!
