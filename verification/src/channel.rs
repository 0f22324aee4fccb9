//! Channel names and their validation.
//!
//! A channel name is valid when it is non-empty and every character is an
//! ASCII letter, an ASCII digit or an underscore. Names are case-sensitive
//! and never normalized; a channel exists only implicitly, through the
//! subscriptions that reference it.

use vstd::prelude::*;

verus! {

/// A character allowed in a channel name: ASCII letter, digit or underscore.
pub open spec fn valid_channel_char(c: char) -> bool {
    ('a' as u32) <= (c as u32) <= ('z' as u32)
        || ('A' as u32) <= (c as u32) <= ('Z' as u32)
        || ('0' as u32) <= (c as u32) <= ('9' as u32)
        || c == '_'
}

/// A valid channel name: non-empty, every character allowed.
pub open spec fn valid_channel(s: Seq<char>) -> bool {
    s.len() > 0 && forall|i: int| 0 <= i < s.len() ==> valid_channel_char(s[i])
}

/// Decides whether `channel_name` may name a channel.
pub fn validate_channel_name(channel_name: &str) -> (r: bool)
    ensures
        r == valid_channel(channel_name@),
{
    let len: usize = channel_name.unicode_len();
    if len == 0 {
        return false;
    }
    let mut i: usize = 0;
    while i < len
        invariant
            0 < len == channel_name@.len(),
            0 <= i <= len,
            forall|j: int| 0 <= j < i ==> valid_channel_char(channel_name@[j]),
        decreases len - i,
    {
        let c = channel_name.get_char(i);
        let cu = c as u32;
        let ok = (('a' as u32) <= cu && cu <= ('z' as u32))
            || (('A' as u32) <= cu && cu <= ('Z' as u32))
            || (('0' as u32) <= cu && cu <= ('9' as u32)) || c == '_';
        if !ok {
            assert(!valid_channel_char(channel_name@[i as int]));
            return false;
        }
        i = i + 1;
    }
    true
}

} // verus!
