use vstd::prelude::*;

use crate::codec::{dec_rep, push_lit, push_number, string_of};

verus! {

/// An RGBA color value, one channel per byte.
#[derive(Debug, Clone, Copy, PartialEq, Eq, Structural)]
pub struct RGBA {
    pub r: u8,
    pub g: u8,
    pub b: u8,
    pub a: u8,
}

/// Why a transport operation failed.
#[derive(Debug)]
pub enum TransportError {
    NotConnectedError { description: String },
    CommandError { description: String },
}

/// A connection to a device that accepts the line-based color protocol.
/// The crate states the protocol's text; carrying it over a socket is an
/// implementation's part, outside the verified core.
pub trait Transport {
    fn connect(&mut self, address: &String) -> Result<(), TransportError>;

    fn reconnect(&mut self) -> Result<(), TransportError>;

    fn is_connected(&self) -> bool;

    fn ping(&mut self) -> Result<(bool, String), TransportError>;

    fn send_led_map(&mut self, values: &[RGBA]) -> Result<(), TransportError>;
}

/// One line of the color protocol: the one-based key index and the four
/// channels, colon-separated.
pub open spec fn led_line(index: nat, v: RGBA) -> Seq<char> {
    dec_rep(index) + ":"@ + dec_rep(v.r as nat) + ":"@ + dec_rep(v.g as nat) + ":"@ + dec_rep(
        v.b as nat,
    ) + ":"@ + dec_rep(v.a as nat) + "\n"@
}

/// The whole command block for a color map: one line per value, key indices
/// counting up from `index`.
pub open spec fn led_map_rep(values: Seq<RGBA>, index: nat) -> Seq<char>
    decreases values.len(),
{
    if values.len() == 0 {
        Seq::empty()
    } else {
        led_line(index, values[0]) + led_map_rep(values.drop_first(), index + 1)
    }
}

/// One more value appends its own line.
proof fn lemma_led_map_push(values: Seq<RGBA>, v: RGBA, index: nat)
    ensures
        led_map_rep(values.push(v), index) == led_map_rep(values, index) + led_line(
            index + values.len(),
            v,
        ),
    decreases values.len(),
{
    let t = values.push(v);
    if values.len() == 0 {
        assert(t[0] == v);
        assert(t.drop_first() =~= Seq::<RGBA>::empty());
        assert(led_map_rep(t, index) == led_line(index, v) + led_map_rep(
            Seq::<RGBA>::empty(),
            index + 1,
        ));
        assert(led_line(index, v) + Seq::<char>::empty() =~= led_line(index, v));
        assert(Seq::<char>::empty() + led_line(index, v) =~= led_line(index, v));
    } else {
        assert(t[0] == values[0]);
        assert(t.drop_first() =~= values.drop_first().push(v));
        lemma_led_map_push(values.drop_first(), v, index + 1);
        assert(led_line(index, values[0]) + (led_map_rep(values.drop_first(), index + 1)
            + led_line(index + values.len(), v)) =~= led_map_rep(values, index) + led_line(
            index + values.len(),
            v,
        ));
    }
}

/// The command block that sends a color map: the text a transport writes for
/// `send_led_map`, key indices starting at one.
#[verifier::rlimit(60)]
pub fn led_map_commands(values: &[RGBA]) -> (s: String)
    requires
        values@.len() < usize::MAX,
    ensures
        s@ == led_map_rep(values@, 1),
{
    let mut out: Vec<char> = Vec::new();
    let n = values.len();
    for k in 0..n
        invariant
            n == values@.len(),
            n < usize::MAX,
            out@ == led_map_rep(values@.subrange(0, k as int), 1),
    {
        let v = values[k];
        proof {
            reveal_strlit(":");
            reveal_strlit("\n");
            assert(values@.subrange(0, k + 1) =~= values@.subrange(0, k as int).push(
                values@[k as int],
            ));
            lemma_led_map_push(values@.subrange(0, k as int), values@[k as int], 1);
        }
        push_number(&mut out, k + 1);
        out.push(':');
        push_number(&mut out, v.r as usize);
        out.push(':');
        push_number(&mut out, v.g as usize);
        out.push(':');
        push_number(&mut out, v.b as usize);
        out.push(':');
        push_number(&mut out, v.a as usize);
        out.push('\n');
        proof {
            assert(out@ =~= led_map_rep(values@.subrange(0, k + 1), 1));
        }
    }
    proof {
        assert(values@.subrange(0, values@.len() as int) =~= values@);
    }
    string_of(&out)
}

/// Whether a string starts with an expected literal.
pub fn str_starts_with(s: &String, prefix: &str) -> (r: bool)
    ensures
        r == prefix@.is_prefix_of(s@),
{
    let n = prefix.unicode_len();
    let m = s.as_str().unicode_len();
    if n > m {
        proof {
            assert(!prefix@.is_prefix_of(s@));
        }
        return false;
    }
    for k in 0..n
        invariant
            n == prefix@.len(),
            m == s@.len(),
            n <= m,
            forall|q: int| 0 <= q < k ==> prefix@[q] == s@[q],
    {
        if s.as_str().get_char(k) != prefix.get_char(k) {
            proof {
                assert(s@.subrange(0, prefix@.len() as int)[k as int] == s@[k as int]);
                assert(!prefix@.is_prefix_of(s@));
            }
            return false;
        }
    }
    proof {
        assert(prefix@ =~= s@.subrange(0, prefix@.len() as int));
    }
    true
}

/// Whether a reply line from the device reports failure: it is a farewell or
/// an explicit error.
pub open spec fn reply_is_error(reply: Seq<char>) -> bool {
    "BYE"@.is_prefix_of(reply) || "ERROR:"@.is_prefix_of(reply)
}

/// Classify a device reply; a failing reply makes `send_led_map` fail with a
/// `CommandError` naming the reply.
pub fn classify_reply(reply: &String) -> (r: bool)
    ensures
        r == reply_is_error(reply@),
{
    str_starts_with(reply, "BYE") || str_starts_with(reply, "ERROR:")
}

} // verus!
